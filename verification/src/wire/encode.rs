//! Which bytes stand for a value, an entry, a record, a collection, a header
//! and a whole container.
use vstd::prelude::*;
use vstd::utf8::{encode_utf8, is_ascii_chars_encode_utf8};
use crate::entity::collection::CollectionView;
use crate::entity::entries::EntryView;
use crate::entity::header::HeaderView;
use crate::entity::record::RecordView;
use crate::entity::value::ValueView;
use crate::util::{be16, be32, MAGIC_NUMBER};

verus! {

/// The byte that opens a payload: `0x01` for a secret one, `0x00` otherwise.
pub open spec fn starter_byte(is_secret: bool) -> u8 {
    if is_secret {
        0x01
    } else {
        0x00
    }
}

/// A payload as it is written: starter byte, two-byte big-endian length, the
/// bytes themselves.
pub open spec fn payload_bytes(payload: Seq<u8>, is_secret: bool) -> Seq<u8> {
    seq![starter_byte(is_secret)] + be16(payload.len() as int) + payload
}

/// Whether a payload's length can be announced in two bytes.
pub open spec fn payload_fits(payload: Seq<u8>) -> bool {
    payload.len() <= 0xffff
}

/// A value as it is written.
pub open spec fn value_bytes(v: ValueView) -> Seq<u8> {
    payload_bytes(v.bytes, v.is_secret)
}

/// Whether a value can be written.
pub open spec fn value_fits(v: ValueView) -> bool {
    payload_fits(v.bytes)
}

/// A text as it is written where it stands as a key or as a public value:
/// its UTF-8 encoding as a public payload.
pub open spec fn text_bytes(text: Seq<char>) -> Seq<u8> {
    payload_bytes(encode_utf8(text), false)
}

/// Whether a text can be written.
pub open spec fn text_fits(text: Seq<char>) -> bool {
    payload_fits(encode_utf8(text))
}

/// An entry as it is written: the key, then the value.
pub open spec fn entry_bytes(e: EntryView) -> Seq<u8> {
    text_bytes(e.key) + value_bytes(e.value)
}

/// Whether an entry can be written.
pub open spec fn entry_fits(e: EntryView) -> bool {
    text_fits(e.key) && value_fits(e.value)
}

/// Entries as they are written: one after the other, in their order.
pub open spec fn entries_bytes(es: Seq<EntryView>) -> Seq<u8>
    decreases es.len(),
{
    if es.len() == 0 {
        Seq::empty()
    } else {
        entry_bytes(es.first()) + entries_bytes(es.drop_first())
    }
}

/// Whether each of the entries can be written.
pub open spec fn entries_fit(es: Seq<EntryView>) -> bool {
    forall|i: int| 0 <= i < es.len() ==> entry_fits(#[trigger] es[i])
}

/// Writing one more entry appends its bytes.
pub proof fn lemma_entries_bytes_push(es: Seq<EntryView>, e: EntryView)
    ensures
        entries_bytes(es.push(e)) == entries_bytes(es) + entry_bytes(e),
    decreases es.len(),
{
    if es.len() == 0 {
        reveal_with_fuel(entries_bytes, 2);
        assert(es.push(e).drop_first() =~= Seq::<EntryView>::empty());
        assert(entries_bytes(es.push(e)) =~= entry_bytes(e));
        assert(entries_bytes(es) + entry_bytes(e) =~= entry_bytes(e));
    } else {
        assert(es.push(e).drop_first() =~= es.drop_first().push(e));
        lemma_entries_bytes_push(es.drop_first(), e);
        assert(entries_bytes(es.push(e)) =~= entries_bytes(es) + entry_bytes(e));
    }
}

/// A public field as it is written: its name, then its bytes as a public
/// value.
pub open spec fn public_field_bytes(name: Seq<char>, bytes: Seq<u8>) -> Seq<u8> {
    text_bytes(name) + payload_bytes(bytes, false)
}

/// A text field as it is written: its name, then its text as a public value.
pub open spec fn text_field_bytes(name: Seq<char>, text: Seq<char>) -> Seq<u8> {
    text_bytes(name) + text_bytes(text)
}

/// A record as it is written: its starter byte, its label, its secret, its
/// extras. The secret in the clear is not written.
pub open spec fn record_bytes(r: RecordView) -> Seq<u8> {
    seq![0x02u8] + text_field_bytes("label"@, r.label) + (text_bytes("secret"@) + payload_bytes(
        r.secret,
        true,
    )) + entries_bytes(r.extras)
}

/// Whether a record can be written.
pub open spec fn record_fits(r: RecordView) -> bool {
    text_fits(r.label) && payload_fits(r.secret) && entries_fit(r.extras)
}

/// Records as they are written: one after the other, in their order.
pub open spec fn records_bytes(rs: Seq<RecordView>) -> Seq<u8>
    decreases rs.len(),
{
    if rs.len() == 0 {
        Seq::empty()
    } else {
        record_bytes(rs.first()) + records_bytes(rs.drop_first())
    }
}

/// Whether each of the records can be written.
pub open spec fn records_fit(rs: Seq<RecordView>) -> bool {
    forall|i: int| 0 <= i < rs.len() ==> record_fits(#[trigger] rs[i])
}

/// A collection as it is written: its starter byte, its label, its extras,
/// the collections inside it, its records, its ender byte.
pub open spec fn collection_bytes(c: CollectionView) -> Seq<u8>
    decreases c,
{
    seq![0x03u8] + text_field_bytes("label"@, c.label) + entries_bytes(c.extras)
        + collections_bytes(c.children) + records_bytes(c.records) + seq![0x04u8]
}

/// Collections as they are written: one after the other, in their order.
pub open spec fn collections_bytes(cs: Seq<CollectionView>) -> Seq<u8>
    decreases cs,
{
    if cs.len() == 0 {
        Seq::empty()
    } else {
        collection_bytes(cs.first()) + collections_bytes(cs.drop_first())
    }
}

/// Whether a collection can be written, with all that is below it.
pub open spec fn collection_fits(c: CollectionView) -> bool
    decreases c,
{
    &&& text_fits(c.label)
    &&& entries_fit(c.extras)
    &&& forall|i: int| 0 <= i < c.children.len() ==> collection_fits(#[trigger] c.children[i])
    &&& records_fit(c.records)
}

/// A header as it is written: the version in four bytes, the six required
/// fields, the extras. The records' key is not written.
pub open spec fn header_bytes(h: HeaderView) -> Seq<u8> {
    be32(h.version) + text_field_bytes("mkhf"@, h.master_key_hash_fn) + text_field_bytes(
        "khf"@,
        h.key_hash_fn,
    ) + public_field_bytes("mks"@, h.master_key_salt) + public_field_bytes("ks"@, h.key_salt)
        + public_field_bytes("mkh"@, h.master_key_hash) + text_field_bytes("kc"@, h.key_cipher)
        + entries_bytes(h.extras)
}

/// Whether a header can be written.
pub open spec fn header_fits(h: HeaderView) -> bool {
    &&& text_fits(h.master_key_hash_fn)
    &&& text_fits(h.key_hash_fn)
    &&& payload_fits(h.master_key_salt)
    &&& payload_fits(h.key_salt)
    &&& payload_fits(h.master_key_hash)
    &&& text_fits(h.key_cipher)
    &&& entries_fit(h.extras)
}

/// A container as it is written: the magic number, the header, the root
/// collection.
pub open spec fn container_bytes(header: HeaderView, root: CollectionView) -> Seq<u8> {
    MAGIC_NUMBER@ + header_bytes(header) + collection_bytes(root)
}

/// Whether a container can be written.
pub open spec fn container_fits(header: HeaderView, root: CollectionView) -> bool {
    header_fits(header) && collection_fits(root)
}

/// Writing one more record appends its bytes.
pub proof fn lemma_records_bytes_push(rs: Seq<RecordView>, r: RecordView)
    ensures
        records_bytes(rs.push(r)) == records_bytes(rs) + record_bytes(r),
    decreases rs.len(),
{
    if rs.len() == 0 {
        reveal_with_fuel(records_bytes, 2);
        assert(rs.push(r).drop_first() =~= Seq::<RecordView>::empty());
        assert(records_bytes(rs.push(r)) =~= record_bytes(r));
        assert(records_bytes(rs) + record_bytes(r) =~= record_bytes(r));
    } else {
        assert(rs.push(r).drop_first() =~= rs.drop_first().push(r));
        lemma_records_bytes_push(rs.drop_first(), r);
        assert(records_bytes(rs.push(r)) =~= records_bytes(rs) + record_bytes(r));
    }
}

/// Writing one more collection appends its bytes.
pub proof fn lemma_collections_bytes_push(cs: Seq<CollectionView>, c: CollectionView)
    ensures
        collections_bytes(cs.push(c)) == collections_bytes(cs) + collection_bytes(c),
    decreases cs.len(),
{
    if cs.len() == 0 {
        reveal_with_fuel(collections_bytes, 2);
        assert(cs.push(c).drop_first() =~= Seq::<CollectionView>::empty());
        assert(collections_bytes(cs.push(c)) =~= collection_bytes(c));
        assert(collections_bytes(cs) + collection_bytes(c) =~= collection_bytes(c));
    } else {
        assert(cs.push(c).drop_first() =~= cs.drop_first().push(c));
        lemma_collections_bytes_push(cs.drop_first(), c);
        assert(collections_bytes(cs.push(c)) =~= collections_bytes(cs) + collection_bytes(c));
    }
}

/// The names of the fields that the layout knows are short enough to be
/// written, each as many bytes as it has letters.
pub proof fn lemma_field_names_fit()
    ensures
        encode_utf8("label"@).len() == 5,
        encode_utf8("secret"@).len() == 6,
        encode_utf8("mkhf"@).len() == 4,
        encode_utf8("khf"@).len() == 3,
        encode_utf8("mks"@).len() == 3,
        encode_utf8("ks"@).len() == 2,
        encode_utf8("mkh"@).len() == 3,
        encode_utf8("kc"@).len() == 2,
{
    reveal_strlit("label");
    reveal_strlit("secret");
    reveal_strlit("mkhf");
    reveal_strlit("khf");
    reveal_strlit("mks");
    reveal_strlit("ks");
    reveal_strlit("mkh");
    reveal_strlit("kc");
    is_ascii_chars_encode_utf8("label"@);
    is_ascii_chars_encode_utf8("secret"@);
    is_ascii_chars_encode_utf8("mkhf"@);
    is_ascii_chars_encode_utf8("khf"@);
    is_ascii_chars_encode_utf8("mks"@);
    is_ascii_chars_encode_utf8("ks"@);
    is_ascii_chars_encode_utf8("mkh"@);
    is_ascii_chars_encode_utf8("kc"@);
}

} // verus!
