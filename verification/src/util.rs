//! Byte-level helpers shared by the writer and the reader.
use vstd::prelude::*;
use vstd::utf8::{decode_utf8, encode_utf8_decode_utf8, valid_utf8};

verus! {

/// The eight bytes that open every container file.
pub const MAGIC_NUMBER: [u8; 8] = [0x89, 0x53, 0x57, 0x4f, 0x52, 0x44, 0x53, 0x0a];

/// The largest payload that a two-byte length can announce.
pub const MAX_PAYLOAD_LENGTH: usize = 0xffff;

/// The two bytes that stand for `n` in big-endian order.
pub open spec fn be16(n: int) -> Seq<u8> {
    seq![((n / 256) % 256) as u8, (n % 256) as u8]
}

/// The number that two big-endian bytes stand for.
pub open spec fn be16_value(hi: u8, lo: u8) -> int {
    hi as int * 256 + lo as int
}

/// The four bytes that stand for `n` in big-endian order.
pub open spec fn be32(n: u32) -> Seq<u8> {
    seq![
        ((n as int / 0x100_0000) % 256) as u8,
        ((n as int / 0x1_0000) % 256) as u8,
        ((n as int / 0x100) % 256) as u8,
        (n as int % 256) as u8,
    ]
}

/// The number that four big-endian bytes stand for.
pub open spec fn be32_value(b0: u8, b1: u8, b2: u8, b3: u8) -> int {
    b0 as int * 0x100_0000 + b1 as int * 0x1_0000 + b2 as int * 0x100 + b3 as int
}

/// Reading back the two bytes written for a length gives the length.
pub proof fn lemma_be16_value(n: int)
    requires
        0 <= n <= 0xffff,
    ensures
        be16(n).len() == 2,
        be16_value(be16(n)[0], be16(n)[1]) == n,
{
}

/// Reading back the four bytes written for a number gives the number.
pub proof fn lemma_be32_value(n: u32)
    ensures
        be32(n).len() == 4,
        be32_value(be32(n)[0], be32(n)[1], be32(n)[2], be32(n)[3]) == n,
{
}

/// Joining three sequences gives the same whichever two are joined first.
pub proof fn lemma_concat_assoc<T>(a: Seq<T>, b: Seq<T>, c: Seq<T>)
    ensures
        (a + b) + c == a + (b + c),
{
    assert((a + b) + c =~= a + (b + c));
}

/// Joining the empty sequence in front or behind changes nothing.
pub proof fn lemma_concat_empty<T>(a: Seq<T>)
    ensures
        Seq::<T>::empty() + a == a,
        a + Seq::<T>::empty() == a,
{
    assert(Seq::<T>::empty() + a =~= a);
    assert(a + Seq::<T>::empty() =~= a);
}

/// Appends the two big-endian bytes of `n`.
pub(crate) fn push_be16(out: &mut Vec<u8>, n: usize)
    requires
        n <= MAX_PAYLOAD_LENGTH,
    ensures
        final(out)@ == old(out)@ + be16(n as int),
{
    out.push((n / 256) as u8);
    out.push((n % 256) as u8);
    assert(out@ =~= old(out)@ + be16(n as int));
}

/// Appends the four big-endian bytes of `n`.
pub fn push_be32(out: &mut Vec<u8>, n: u32)
    ensures
        final(out)@ == old(out)@ + be32(n),
{
    out.push((n / 0x100_0000) as u8);
    out.push(((n / 0x1_0000) % 256) as u8);
    out.push(((n / 0x100) % 256) as u8);
    out.push((n % 256) as u8);
    assert(out@ =~= old(out)@ + be32(n));
}

/// Appends a copy of `src`.
pub fn push_bytes(out: &mut Vec<u8>, src: &[u8])
    ensures
        final(out)@ == old(out)@ + src@,
{
    let mut i: usize = 0;
    while i < src.len()
        invariant
            0 <= i <= src@.len(),
            out@ == old(out)@ + src@.subrange(0, i as int),
        decreases src@.len() - i,
    {
        out.push(src[i]);
        i += 1;
        assert(out@ =~= old(out)@ + src@.subrange(0, i as int));
    }
    assert(src@.subrange(0, i as int) =~= src@);
}

/// A fresh copy of `src`.
pub fn copy_bytes(src: &[u8]) -> (out: Vec<u8>)
    ensures
        out@ == src@,
{
    let mut out: Vec<u8> = Vec::new();
    push_bytes(&mut out, src);
    assert(Seq::<u8>::empty() + src@ =~= src@);
    out
}

/// Whether two byte strings hold the same bytes. Every byte is looked at,
/// whatever the earlier ones were.
pub fn bytes_eq(a: &[u8], b: &[u8]) -> (same: bool)
    ensures
        same == (a@ == b@),
{
    if a.len() != b.len() {
        return false;
    }
    let mut same = true;
    let mut i: usize = 0;
    while i < a.len()
        invariant
            0 <= i <= a@.len(),
            a@.len() == b@.len(),
            same <==> (forall|j: int| 0 <= j < i ==> a@[j] == b@[j]),
        decreases a@.len() - i,
    {
        same = same && a[i] == b[i];
        i += 1;
    }
    assert(same ==> a@ =~= b@);
    same
}

/// Whether two strings hold the same text.
pub fn str_eq(a: &str, b: &str) -> (same: bool)
    ensures
        same == (a@ == b@),
{
    proof {
        encode_utf8_decode_utf8(a@);
        encode_utf8_decode_utf8(b@);
    }
    bytes_eq(a.as_bytes(), b.as_bytes())
}

/// `bytes` as a boxed slice.
///
/// Calls `Vec::into_boxed_slice` of the standard library, which hands the
/// vector's elements over in their order; nothing of that is proved here.
#[verifier::external_body]
pub(crate) fn boxed_bytes(bytes: Vec<u8>) -> (boxed: Box<[u8]>)
    ensures
        boxed@ == bytes@,
{
    bytes.into_boxed_slice()
}

/// The text that `bytes` encode, if they are valid UTF-8.
///
/// Calls `String::from_utf8` of the standard library, which accepts exactly
/// the byte strings that are valid UTF-8 and decodes those without loss;
/// nothing of that is proved here.
#[verifier::external_body]
pub(crate) fn string_from_utf8(bytes: &[u8]) -> (text: Option<String>)
    ensures
        text is Some <==> valid_utf8(bytes@),
        text matches Some(s) ==> s@ == decode_utf8(bytes@),
{
    match String::from_utf8(bytes.to_vec()) {
        Ok(s) => Some(s),
        Err(_) => None,
    }
}

} // verus!
