//! Which container a byte string stands for, and why another byte string
//! stands for none.
//!
//! Each function takes the bytes that are still to be read and gives either
//! what it recognised at their front together with the bytes behind it, or
//! the reason for refusing them.
use vstd::prelude::*;
use vstd::utf8::{decode_utf8, valid_utf8};
use crate::entity::collection::CollectionView;
use crate::entity::entries::{EntryView, insert, lookup, remove};
use crate::entity::header::HeaderView;
use crate::entity::record::RecordView;
use crate::entity::value::ValueView;
use crate::error::ParseErrorView;
use crate::util::{be16_value, be32_value, MAGIC_NUMBER};
use crate::wire::encode::starter_byte;

verus! {

/// What was recognised at the front of the input and the bytes behind it, or
/// the reason for refusing the input.
pub type Parsed<T> = Result<(T, Seq<u8>), ParseErrorView>;

/// How many collections may stand inside one another, the outermost
/// counted. A deeper one is refused where it opens.
pub const MAX_DEPTH: usize = 128;

/// A value at the front of `bytes`, opened by the starter byte of a secret
/// value if `is_secret`, by that of a public one if not.
pub open spec fn parse_value(bytes: Seq<u8>, is_secret: bool) -> Parsed<ValueView> {
    if bytes.len() == 0 {
        Err(ParseErrorView::UnexpectedEndOfFile)
    } else if bytes[0] != starter_byte(is_secret) {
        Err(ParseErrorView::UnexpectedStarterByte)
    } else if bytes.len() < 3 {
        Err(ParseErrorView::UnexpectedEndOfFile)
    } else {
        let needed = be16_value(bytes[1], bytes[2]);
        let left = bytes.len() - 3;
        if left < needed {
            Err(ParseErrorView::UnexpectedEndOfValue(left, needed))
        } else {
            Ok(
                (
                    ValueView { bytes: bytes.subrange(3, 3 + needed), is_secret },
                    bytes.skip(3 + needed),
                ),
            )
        }
    }
}

/// A key and its value at the front of `bytes`. The key is a public value
/// that holds text; the value says by its starter byte whether it is secret.
pub open spec fn parse_key_value(bytes: Seq<u8>) -> Parsed<EntryView> {
    match parse_value(bytes, false) {
        Err(e) => Err(e),
        Ok((key, rest)) => {
            if !valid_utf8(key.bytes) {
                Err(ParseErrorView::EncodingError)
            } else if rest.len() == 0 {
                Err(ParseErrorView::UnexpectedEndOfFile)
            } else {
                match parse_value(rest, rest[0] == 0x01u8) {
                    Err(e) => Err(e),
                    Ok((value, rest)) => Ok(
                        (EntryView { key: decode_utf8(key.bytes), value }, rest),
                    ),
                }
            }
        },
    }
}

/// The entries at the front of `bytes`, put into `found` one after the
/// other, a later one in the place of an earlier one of the same name. They
/// end before the first byte that does not open a key. Where the input ends
/// instead, they end too if `may_end`, and the input is refused if not.
pub open spec fn parse_entries(bytes: Seq<u8>, found: Seq<EntryView>, may_end: bool) -> Parsed<
    Seq<EntryView>,
>
    decreases bytes.len(),
{
    if bytes.len() == 0 {
        if may_end {
            Ok((found, bytes))
        } else {
            Err(ParseErrorView::UnexpectedEndOfFile)
        }
    } else if bytes[0] != 0x00u8 {
        Ok((found, bytes))
    } else {
        match parse_key_value(bytes) {
            Err(e) => Err(e),
            Ok((e, rest)) => parse_entries(rest, insert(found, e.key, e.value), may_end),
        }
    }
}

/// The first of `names`, in their order, that `raw` lacks or holds as a
/// secret value, as the error that it raises.
pub open spec fn first_public_violation(raw: Seq<EntryView>, names: Seq<Seq<char>>) -> Option<
    ParseErrorView,
>
    decreases names.len(),
{
    if names.len() == 0 {
        None
    } else {
        match lookup(raw, names.first()) {
            None => Some(ParseErrorView::MissingRequiredField(names.first())),
            Some(v) => if v.is_secret {
                Some(ParseErrorView::ForbiddenSecretField(names.first()))
            } else {
                first_public_violation(raw, names.drop_first())
            },
        }
    }
}

/// The first of `names`, in their order, that `raw` lacks or holds as a
/// public value, as the error that it raises.
pub open spec fn first_secret_violation(raw: Seq<EntryView>, names: Seq<Seq<char>>) -> Option<
    ParseErrorView,
>
    decreases names.len(),
{
    if names.len() == 0 {
        None
    } else {
        match lookup(raw, names.first()) {
            None => Some(ParseErrorView::MissingRequiredField(names.first())),
            Some(v) => if !v.is_secret {
                Some(ParseErrorView::ForbiddenNonSecretField(names.first()))
            } else {
                first_secret_violation(raw, names.drop_first())
            },
        }
    }
}

/// Where none of `names` raises an error, each of them stands for a public
/// value.
pub proof fn lemma_public_fields_present(raw: Seq<EntryView>, names: Seq<Seq<char>>, i: int)
    requires
        first_public_violation(raw, names) is None,
        0 <= i < names.len(),
    ensures
        lookup(raw, names[i]) matches Some(v) && !v.is_secret,
    decreases names.len(),
{
    if i > 0 {
        lemma_public_fields_present(raw, names.drop_first(), i - 1);
    }
}

/// Where none of `names` raises an error, each of them stands for a secret
/// value.
pub proof fn lemma_secret_fields_present(raw: Seq<EntryView>, names: Seq<Seq<char>>, i: int)
    requires
        first_secret_violation(raw, names) is None,
        0 <= i < names.len(),
    ensures
        lookup(raw, names[i]) matches Some(v) && v.is_secret,
    decreases names.len(),
{
    if i > 0 {
        lemma_secret_fields_present(raw, names.drop_first(), i - 1);
    }
}

/// The names that a record must hold as public values.
pub open spec fn record_public_fields() -> Seq<Seq<char>> {
    seq!["label"@]
}

/// The names that a record must hold as secret values.
pub open spec fn record_secret_fields() -> Seq<Seq<char>> {
    seq!["secret"@]
}

/// The record that the entries `raw` make up: `label` and `secret` become
/// the record's own, the others its extras.
pub open spec fn record_from_entries(raw: Seq<EntryView>) -> Result<RecordView, ParseErrorView> {
    if let Some(e) = first_public_violation(raw, record_public_fields()) {
        Err(e)
    } else if let Some(e) = first_secret_violation(raw, record_secret_fields()) {
        Err(e)
    } else if !valid_utf8(lookup(raw, "label"@).unwrap().bytes) {
        Err(ParseErrorView::EncodingError)
    } else {
        Ok(
            RecordView {
                label: decode_utf8(lookup(raw, "label"@).unwrap().bytes),
                secret: lookup(raw, "secret"@).unwrap().bytes,
                revealed_secret: None,
                extras: remove(remove(raw, "label"@), "secret"@),
            },
        )
    }
}

/// A record at the front of `bytes`: its starter byte, then its entries.
/// With nothing behind the starter byte the input is refused; once an entry
/// was read, the end of the input ends the record.
#[verifier::opaque]
pub open spec fn parse_record(bytes: Seq<u8>) -> Parsed<RecordView> {
    if bytes.len() == 0 {
        Err(ParseErrorView::UnexpectedEndOfFile)
    } else if bytes[0] != 0x02u8 {
        Err(ParseErrorView::UnexpectedStarterByte)
    } else if bytes.len() == 1 {
        Err(ParseErrorView::UnexpectedEndOfFile)
    } else {
        match parse_entries(bytes.skip(1), Seq::empty(), true) {
            Err(e) => Err(e),
            Ok((raw, rest)) => match record_from_entries(raw) {
                Err(e) => Err(e),
                Ok(record) => Ok((record, rest)),
            },
        }
    }
}

/// A key and its value take up at least their two starter bytes and their
/// four length bytes.
pub proof fn lemma_parse_key_value_consumes(bytes: Seq<u8>)
    ensures
        parse_key_value(bytes) matches Ok((_, rest)) ==> rest.len() + 6 <= bytes.len(),
{
}

/// Reading entries never gives back more bytes than it was given.
pub proof fn lemma_parse_entries_consumes(bytes: Seq<u8>, found: Seq<EntryView>, may_end: bool)
    ensures
        parse_entries(bytes, found, may_end) matches Ok((_, rest)) ==> rest.len() <= bytes.len(),
    decreases bytes.len(),
{
    if bytes.len() != 0 && bytes[0] == 0x00u8 {
        if let Ok((e, rest)) = parse_key_value(bytes) {
            lemma_parse_entries_consumes(rest, insert(found, e.key, e.value), may_end);
        }
    }
}

/// A record takes up at least its starter byte.
pub proof fn lemma_parse_record_consumes(bytes: Seq<u8>)
    ensures
        parse_record(bytes) matches Ok((_, rest)) ==> rest.len() < bytes.len(),
{
    reveal(parse_record);
    if bytes.len() > 1 {
        lemma_parse_entries_consumes(bytes.skip(1), Seq::empty(), true);
    }
}

/// The names that a collection must hold as public values.
pub open spec fn collection_public_fields() -> Seq<Seq<char>> {
    seq!["label"@]
}

/// The collection that its parts make up: `label` among the entries `raw`
/// becomes the collection's own, the other entries its extras.
pub open spec fn collection_from_parts(
    children: Seq<CollectionView>,
    records: Seq<RecordView>,
    raw: Seq<EntryView>,
) -> Result<CollectionView, ParseErrorView> {
    if let Some(e) = first_public_violation(raw, collection_public_fields()) {
        Err(e)
    } else if !valid_utf8(lookup(raw, "label"@).unwrap().bytes) {
        Err(ParseErrorView::EncodingError)
    } else {
        Ok(
            CollectionView {
                label: decode_utf8(lookup(raw, "label"@).unwrap().bytes),
                children,
                records,
                extras: remove(raw, "label"@),
            },
        )
    }
}

/// A collection at the front of `bytes`, with `depth` levels of collections
/// left to open, this one counted: its starter byte, its members, its ender
/// byte.
#[verifier::opaque]
pub open spec fn parse_collection(bytes: Seq<u8>, depth: nat) -> Parsed<CollectionView>
    decreases bytes.len(), 0nat,
{
    if bytes.len() == 0 {
        Err(ParseErrorView::UnexpectedEndOfFile)
    } else if bytes[0] != 0x03u8 {
        Err(ParseErrorView::UnexpectedStarterByte)
    } else if depth == 0 {
        Err(ParseErrorView::UnexpectedStarterByte)
    } else {
        parse_members(
            bytes.skip(1),
            (depth - 1) as nat,
            Seq::empty(),
            Seq::empty(),
            Seq::empty(),
        )
    }
}

/// The members of a collection at the front of `bytes`, up to its ender
/// byte, added to those found before: entries, records and collections in
/// any order, each told by its starter byte. `depth` levels of collections
/// may still be opened inside.
#[verifier::opaque]
pub open spec fn parse_members(
    bytes: Seq<u8>,
    depth: nat,
    children: Seq<CollectionView>,
    records: Seq<RecordView>,
    raw: Seq<EntryView>,
) -> Parsed<CollectionView>
    decreases bytes.len(), 1nat,
{
    if bytes.len() == 0 {
        Err(ParseErrorView::UnexpectedEndOfFile)
    } else if bytes[0] == 0x04u8 {
        match collection_from_parts(children, records, raw) {
            Err(e) => Err(e),
            Ok(collection) => Ok((collection, bytes.skip(1))),
        }
    } else if bytes[0] == 0x00u8 {
        match parse_key_value(bytes) {
            Err(e) => Err(e),
            Ok((e, rest)) => parse_members(
                rest,
                depth,
                children,
                records,
                insert(raw, e.key, e.value),
            ),
        }
    } else if bytes[0] == 0x03u8 {
        match parse_collection(bytes, depth) {
            Err(e) => Err(e),
            Ok((child, rest)) => {
                if rest.len() < bytes.len() {
                    parse_members(rest, depth, children.push(child), records, raw)
                } else {
                    // A collection takes up at least its two framing bytes.
                    Err(ParseErrorView::UnexpectedEndOfFile)
                }
            },
        }
    } else if bytes[0] == 0x02u8 {
        proof {
            lemma_parse_record_consumes(bytes);
        }
        match parse_record(bytes) {
            Err(e) => Err(e),
            Ok((record, rest)) => parse_members(
                rest,
                depth,
                children,
                records.push(record),
                raw,
            ),
        }
    } else {
        Err(ParseErrorView::UnexpectedStarterByte)
    }
}

/// A collection takes up at least its two framing bytes.
pub proof fn lemma_parse_collection_consumes(bytes: Seq<u8>, depth: nat)
    ensures
        parse_collection(bytes, depth) matches Ok((_, rest)) ==> rest.len() < bytes.len(),
    decreases bytes.len(), 0nat,
{
    reveal(parse_collection);
    reveal(parse_members);
    if bytes.len() != 0 && bytes[0] == 0x03u8 && depth != 0 {
        lemma_parse_members_consumes(
            bytes.skip(1),
            (depth - 1) as nat,
            Seq::empty(),
            Seq::empty(),
            Seq::empty(),
        );
    }
}

/// The members of a collection take up at least the ender byte.
pub proof fn lemma_parse_members_consumes(
    bytes: Seq<u8>,
    depth: nat,
    children: Seq<CollectionView>,
    records: Seq<RecordView>,
    raw: Seq<EntryView>,
)
    ensures
        parse_members(bytes, depth, children, records, raw) matches Ok((_, rest)) ==> rest.len()
            < bytes.len(),
    decreases bytes.len(), 1nat,
{
    reveal(parse_collection);
    reveal(parse_members);
    if bytes.len() == 0 {
    } else if bytes[0] == 0x04u8 {
    } else if bytes[0] == 0x00u8 {
        lemma_parse_key_value_consumes(bytes);
        if let Ok((e, rest)) = parse_key_value(bytes) {
            lemma_parse_members_consumes(
                rest,
                depth,
                children,
                records,
                insert(raw, e.key, e.value),
            );
        }
    } else if bytes[0] == 0x03u8 {
        lemma_parse_collection_consumes(bytes, depth);
        if let Ok((child, rest)) = parse_collection(bytes, depth) {
            lemma_parse_members_consumes(rest, depth, children.push(child), records, raw);
        }
    } else if bytes[0] == 0x02u8 {
        lemma_parse_record_consumes(bytes);
        if let Ok((record, rest)) = parse_record(bytes) {
            lemma_parse_members_consumes(rest, depth, children, records.push(record), raw);
        }
    }
}

/// A record is its starter byte and, behind it, entries that make up a
/// record.
pub proof fn lemma_record_framed(rest: Seq<u8>)
    requires
        rest.len() > 0,
    ensures
        parse_record(seq![0x02u8] + rest) == (match parse_entries(rest, Seq::empty(), true) {
            Err(e) => Err(e),
            Ok((raw, left)) => match record_from_entries(raw) {
                Err(e) => Err(e),
                Ok(record) => Ok((record, left)),
            },
        }),
{
    reveal(parse_record);
    assert((seq![0x02u8] + rest).skip(1) =~= rest);
}

/// A collection is its starter byte and, behind it, its members, read
/// with one level less to open.
pub proof fn lemma_collection_framed(rest: Seq<u8>, depth: nat)
    requires
        depth > 0,
    ensures
        parse_collection(seq![0x03u8] + rest, depth) == parse_members(
            rest,
            (depth - 1) as nat,
            Seq::empty(),
            Seq::empty(),
            Seq::empty(),
        ),
{
    reveal(parse_collection);
    reveal(parse_members);
    assert((seq![0x03u8] + rest).skip(1) =~= rest);
}

/// Where the members of a collection go on with the starter byte of a key,
/// an entry is read and put to the entries found before.
pub proof fn lemma_members_entry(
    bytes: Seq<u8>,
    depth: nat,
    children: Seq<CollectionView>,
    records: Seq<RecordView>,
    raw: Seq<EntryView>,
)
    requires
        bytes.len() > 0,
        bytes[0] == 0x00u8,
    ensures
        parse_members(bytes, depth, children, records, raw) == (match parse_key_value(bytes) {
            Err(e) => Err(e),
            Ok((e, rest)) => parse_members(
                rest,
                depth,
                children,
                records,
                insert(raw, e.key, e.value),
            ),
        }),
{
    reveal(parse_collection);
    reveal(parse_members);
}

/// Where the members of a collection go on with the starter byte of a
/// record, a record is read and put behind the records found before.
pub proof fn lemma_members_record(
    bytes: Seq<u8>,
    depth: nat,
    children: Seq<CollectionView>,
    records: Seq<RecordView>,
    raw: Seq<EntryView>,
)
    requires
        bytes.len() > 0,
        bytes[0] == 0x02u8,
    ensures
        parse_members(bytes, depth, children, records, raw) == (match parse_record(bytes) {
            Err(e) => Err(e),
            Ok((record, rest)) => parse_members(
                rest,
                depth,
                children,
                records.push(record),
                raw,
            ),
        }),
{
    reveal(parse_collection);
    reveal(parse_members);
}

/// Where the members of a collection go on with the starter byte of a
/// collection, a collection is read and put behind the collections found
/// before.
pub proof fn lemma_members_child(
    bytes: Seq<u8>,
    depth: nat,
    children: Seq<CollectionView>,
    records: Seq<RecordView>,
    raw: Seq<EntryView>,
)
    requires
        bytes.len() > 0,
        bytes[0] == 0x03u8,
    ensures
        parse_members(bytes, depth, children, records, raw) == (match parse_collection(
            bytes,
            depth,
        ) {
            Err(e) => Err(e),
            Ok((child, rest)) => parse_members(rest, depth, children.push(child), records, raw),
        }),
{
    reveal(parse_collection);
    reveal(parse_members);
    lemma_parse_collection_consumes(bytes, depth);
}

/// Where the members of a collection go on with the ender byte, what was
/// found makes up the collection.
pub proof fn lemma_members_end(
    bytes: Seq<u8>,
    depth: nat,
    children: Seq<CollectionView>,
    records: Seq<RecordView>,
    raw: Seq<EntryView>,
)
    requires
        bytes.len() > 0,
        bytes[0] == 0x04u8,
    ensures
        parse_members(bytes, depth, children, records, raw) == (match collection_from_parts(
            children,
            records,
            raw,
        ) {
            Err(e) => Err(e),
            Ok(collection) => Ok((collection, bytes.skip(1))),
        }),
{
    reveal(parse_collection);
    reveal(parse_members);
}

/// The names that a header must hold as public values, in the order in
/// which they are looked for.
pub open spec fn header_public_fields() -> Seq<Seq<char>> {
    seq!["mkhf"@, "khf"@, "mks"@, "ks"@, "mkh"@, "kc"@]
}

/// `raw` without the entries that a header takes for its own.
pub open spec fn header_extras(raw: Seq<EntryView>) -> Seq<EntryView> {
    let without_names = remove(remove(raw, "mkhf"@), "khf"@);
    let without_salts = remove(remove(without_names, "mks"@), "ks"@);
    remove(remove(without_salts, "mkh"@), "kc"@)
}

/// The header of version `version` that the entries `raw` make up: the six
/// required fields become the header's own, the others its extras.
pub open spec fn header_from_entries(raw: Seq<EntryView>, version: u32) -> Result<
    HeaderView,
    ParseErrorView,
> {
    if let Some(e) = first_public_violation(raw, header_public_fields()) {
        Err(e)
    } else if !valid_utf8(lookup(raw, "mkhf"@).unwrap().bytes) {
        Err(ParseErrorView::EncodingError)
    } else if !valid_utf8(lookup(raw, "khf"@).unwrap().bytes) {
        Err(ParseErrorView::EncodingError)
    } else if !valid_utf8(lookup(raw, "kc"@).unwrap().bytes) {
        Err(ParseErrorView::EncodingError)
    } else {
        Ok(
            HeaderView {
                version,
                master_key_hash_fn: decode_utf8(lookup(raw, "mkhf"@).unwrap().bytes),
                key_hash_fn: decode_utf8(lookup(raw, "khf"@).unwrap().bytes),
                master_key_hash: lookup(raw, "mkh"@).unwrap().bytes,
                key_cipher: decode_utf8(lookup(raw, "kc"@).unwrap().bytes),
                master_key_salt: lookup(raw, "mks"@).unwrap().bytes,
                key_salt: lookup(raw, "ks"@).unwrap().bytes,
                key: None,
                extras: header_extras(raw),
            },
        )
    }
}

/// The version at the front of `bytes`: four bytes, big-endian.
pub open spec fn parse_version(bytes: Seq<u8>) -> Parsed<u32> {
    if bytes.len() < 4 {
        Err(ParseErrorView::UnexpectedEndOfFile)
    } else {
        Ok((be32_value(bytes[0], bytes[1], bytes[2], bytes[3]) as u32, bytes.skip(4)))
    }
}

/// A header at the front of `bytes`: the version, then the entries up to
/// the first byte that does not open a key. A header is never the last
/// thing in the input.
#[verifier::opaque]
pub open spec fn parse_header(bytes: Seq<u8>) -> Parsed<HeaderView> {
    match parse_version(bytes) {
        Err(e) => Err(e),
        Ok((version, rest)) => match parse_entries(rest, Seq::empty(), false) {
            Err(e) => Err(e),
            Ok((raw, rest)) => match header_from_entries(raw, version) {
                Err(e) => Err(e),
                Ok(header) => Ok((header, rest)),
            },
        },
    }
}

/// A header that was read holds no records' key.
pub proof fn lemma_parsed_header_is_locked(bytes: Seq<u8>)
    ensures
        parse_header(bytes) matches Ok((header, _)) ==> header.key is None,
{
    reveal(parse_header);
}

/// The magic number at the front of `bytes`.
pub open spec fn parse_magic_number(bytes: Seq<u8>) -> Parsed<()> {
    if bytes.len() < 8 {
        Err(ParseErrorView::UnexpectedEndOfFile)
    } else if bytes.subrange(0, 8) != MAGIC_NUMBER@ {
        Err(ParseErrorView::InvalidMagicNumber)
    } else {
        Ok(((), bytes.skip(8)))
    }
}

/// The header and the root collection of the container at the front of
/// `bytes`: the magic number, the header, the root collection. What follows
/// the root collection is left as it is.
pub open spec fn parse_container(bytes: Seq<u8>) -> Parsed<(HeaderView, CollectionView)> {
    match parse_magic_number(bytes) {
        Err(e) => Err(e),
        Ok((_, rest)) => match parse_header(rest) {
            Err(e) => Err(e),
            Ok((header, rest)) => match parse_collection(rest, MAX_DEPTH as nat) {
                Err(e) => Err(e),
                Ok((root, rest)) => Ok(((header, root), rest)),
            },
        },
    }
}

} // verus!
