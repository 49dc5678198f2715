//! Which inputs the reader refuses, and for which reason.
use vstd::prelude::*;
use crate::entity::entries::{
    distinct_keys, EntryView, insert, lemma_lookup_insert, lemma_lookup_remove_other,
    lemma_remove_distinct, remove,
};
use crate::entity::collection::CollectionView;
use crate::entity::header::{lemma_header_fields_differ, HeaderView};
use crate::entity::record::{lemma_record_fields_differ, RecordView};
use crate::entity::value::ValueView;
use crate::error::ParseErrorView;
use crate::util::{be16_value, be32, MAGIC_NUMBER};
use crate::wire::decode::{
    collection_from_parts, first_public_violation, first_secret_violation, header_from_entries,
    header_public_fields, parse_container, parse_key_value, parse_magic_number, parse_value,
    record_from_entries,
};
use crate::wire::encode::{entries_bytes, entries_fit, starter_byte};
use crate::wire::roundtrip::lemma_header_of_entries;

verus! {

/// An input of eight bytes or more that does not open with the magic
/// number is refused as having an invalid magic number, whatever follows.
pub proof fn lemma_wrong_magic_number_is_refused(bytes: Seq<u8>)
    requires
        bytes.len() >= 8,
        bytes.subrange(0, 8) != MAGIC_NUMBER@,
    ensures
        parse_container(bytes) == Err::<((HeaderView, CollectionView), Seq<u8>), ParseErrorView>(
            ParseErrorView::InvalidMagicNumber,
        ),
{
}

/// A value that announces more bytes than are left behind its length is
/// refused, naming how many are left and how many were announced.
pub proof fn lemma_short_value_is_refused(bytes: Seq<u8>, is_secret: bool)
    requires
        bytes.len() >= 3,
        bytes[0] == starter_byte(is_secret),
        be16_value(bytes[1], bytes[2]) > bytes.len() - 3,
    ensures
        parse_value(bytes, is_secret) == Err::<(ValueView, Seq<u8>), ParseErrorView>(
            ParseErrorView::UnexpectedEndOfValue(
                bytes.len() - 3,
                be16_value(bytes[1], bytes[2]),
            ),
        ),
{
}

/// A key that announces more bytes than are left behind its length is
/// refused, naming how many are left and how many were announced.
pub proof fn lemma_short_key_is_refused(bytes: Seq<u8>)
    requires
        bytes.len() >= 3,
        bytes[0] == 0x00u8,
        be16_value(bytes[1], bytes[2]) > bytes.len() - 3,
    ensures
        parse_key_value(bytes) == Err::<(EntryView, Seq<u8>), ParseErrorView>(
            ParseErrorView::UnexpectedEndOfValue(
                bytes.len() - 3,
                be16_value(bytes[1], bytes[2]),
            ),
        ),
{
}

/// Behind a key that was read, a value that announces more bytes than are
/// left behind its length is refused, naming how many are left and how
/// many were announced.
pub proof fn lemma_short_value_behind_key_is_refused(bytes: Seq<u8>)
    requires
        parse_value(bytes, false) matches Ok((key, rest)) && vstd::utf8::valid_utf8(key.bytes)
            && rest.len() >= 3 && (rest[0] == 0x00u8 || rest[0] == 0x01u8) && be16_value(
            rest[1],
            rest[2],
        ) > rest.len() - 3,
    ensures
        parse_value(bytes, false) matches Ok((key, rest)) && parse_key_value(bytes) == Err::<
            (EntryView, Seq<u8>),
            ParseErrorView,
        >(ParseErrorView::UnexpectedEndOfValue(rest.len() - 3, be16_value(rest[1], rest[2]))),
{
}

/// No two of `names` are the same.
pub open spec fn distinct_names(names: Seq<Seq<char>>) -> bool {
    forall|i: int, j: int| 0 <= i < j < names.len() ==> names[i] != names[j]
}

/// Entries that hold all of `names` as public values, and from which one
/// of them is then taken out, raise that the name is missing.
pub proof fn lemma_missing_public_field(raw: Seq<EntryView>, names: Seq<Seq<char>>, i: int)
    requires
        first_public_violation(raw, names) is None,
        distinct_keys(raw),
        distinct_names(names),
        0 <= i < names.len(),
    ensures
        first_public_violation(remove(raw, names[i]), names) == Some(
            ParseErrorView::MissingRequiredField(names[i]),
        ),
    decreases names.len(),
{
    if i == 0 {
        lemma_remove_distinct(raw, names[0]);
    } else {
        lemma_lookup_remove_other(raw, names[i], names[0]);
        let rest = names.drop_first();
        assert(rest[i - 1] == names[i]);
        assert(distinct_names(rest)) by {
            assert forall|a: int, b: int| 0 <= a < b < rest.len() implies rest[a] != rest[b] by {
                assert(rest[a] == names[a + 1] && rest[b] == names[b + 1]);
            }
        }
        lemma_missing_public_field(raw, rest, i - 1);
    }
}

/// Entries that hold all of `names` as public values, and in which one of
/// them is then given a secret value, raise that the name is secret.
pub proof fn lemma_secret_public_field(
    raw: Seq<EntryView>,
    names: Seq<Seq<char>>,
    i: int,
    bytes: Seq<u8>,
)
    requires
        first_public_violation(raw, names) is None,
        distinct_names(names),
        0 <= i < names.len(),
    ensures
        first_public_violation(
            insert(raw, names[i], ValueView { bytes, is_secret: true }),
            names,
        ) == Some(ParseErrorView::ForbiddenSecretField(names[i])),
    decreases names.len(),
{
    lemma_lookup_insert(raw, names[i], ValueView { bytes, is_secret: true });
    if i > 0 {
        let rest = names.drop_first();
        assert(rest[i - 1] == names[i]);
        assert(distinct_names(rest)) by {
            assert forall|a: int, b: int| 0 <= a < b < rest.len() implies rest[a] != rest[b] by {
                assert(rest[a] == names[a + 1] && rest[b] == names[b + 1]);
            }
        }
        lemma_secret_public_field(raw, rest, i - 1, bytes);
    }
}

/// The names that a header takes for its own are six different names.
pub proof fn lemma_header_names()
    ensures
        distinct_names(header_public_fields()),
        header_public_fields().len() == 6,
{
    lemma_header_fields_differ();
}

/// Entries that make up a header, and from which one of the six required
/// fields is then taken out, are refused because that field is missing.
pub proof fn lemma_header_without_field_is_refused(raw: Seq<EntryView>, version: u32, i: int)
    requires
        header_from_entries(raw, version) is Ok,
        distinct_keys(raw),
        0 <= i < 6,
    ensures
        header_from_entries(remove(raw, header_public_fields()[i]), version) == Err::<
            HeaderView,
            ParseErrorView,
        >(ParseErrorView::MissingRequiredField(header_public_fields()[i])),
{
    lemma_header_names();
    lemma_missing_public_field(raw, header_public_fields(), i);
}

/// Entries that make up a header, and in which one of the six required
/// fields is then marked secret, are refused because that field is secret.
pub proof fn lemma_header_with_secret_field_is_refused(
    raw: Seq<EntryView>,
    version: u32,
    i: int,
    bytes: Seq<u8>,
)
    requires
        header_from_entries(raw, version) is Ok,
        0 <= i < 6,
    ensures
        header_from_entries(
            insert(raw, header_public_fields()[i], ValueView { bytes, is_secret: true }),
            version,
        ) == Err::<HeaderView, ParseErrorView>(
            ParseErrorView::ForbiddenSecretField(header_public_fields()[i]),
        ),
{
    lemma_header_names();
    lemma_secret_public_field(raw, header_public_fields(), i, bytes);
}

/// Entries that make up a record are refused once `label` is marked
/// secret, because it is secret, and once `secret` is marked public,
/// because it is not secret. Where no name occurs twice in them, they are
/// also refused once `label` is taken out, because the label is missing,
/// and once `secret` is taken out, because the secret is missing.
pub proof fn lemma_record_fields_are_enforced(raw: Seq<EntryView>, bytes: Seq<u8>)
    requires
        record_from_entries(raw) is Ok,
    ensures
        record_from_entries(insert(raw, "label"@, ValueView { bytes, is_secret: true })) == Err::<
            RecordView,
            ParseErrorView,
        >(ParseErrorView::ForbiddenSecretField("label"@)),
        record_from_entries(insert(raw, "secret"@, ValueView { bytes, is_secret: false }))
            == Err::<RecordView, ParseErrorView>(
            ParseErrorView::ForbiddenNonSecretField("secret"@),
        ),
        distinct_keys(raw) ==> record_from_entries(remove(raw, "label"@)) == Err::<
            RecordView,
            ParseErrorView,
        >(ParseErrorView::MissingRequiredField("label"@)),
        distinct_keys(raw) ==> record_from_entries(remove(raw, "secret"@)) == Err::<
            RecordView,
            ParseErrorView,
        >(ParseErrorView::MissingRequiredField("secret"@)),
{
    lemma_record_fields_differ();
    reveal_with_fuel(first_public_violation, 2);
    reveal_with_fuel(first_secret_violation, 2);
    lemma_lookup_insert(raw, "label"@, ValueView { bytes, is_secret: true });
    lemma_lookup_insert(raw, "secret"@, ValueView { bytes, is_secret: false });
    if distinct_keys(raw) {
        lemma_remove_distinct(raw, "label"@);
        lemma_remove_distinct(raw, "secret"@);
        lemma_lookup_remove_other(raw, "secret"@, "label"@);
    }
}

/// Parts that make up a collection are refused once `label` is marked
/// secret, because it is secret, and, where no name occurs twice in the
/// entries, once `label` is taken out of them, because the label is
/// missing.
pub proof fn lemma_collection_fields_are_enforced(
    children: Seq<CollectionView>,
    records: Seq<RecordView>,
    raw: Seq<EntryView>,
    bytes: Seq<u8>,
)
    requires
        collection_from_parts(children, records, raw) is Ok,
    ensures
        collection_from_parts(
            children,
            records,
            insert(raw, "label"@, ValueView { bytes, is_secret: true }),
        ) == Err::<CollectionView, ParseErrorView>(ParseErrorView::ForbiddenSecretField("label"@)),
        distinct_keys(raw) ==> collection_from_parts(children, records, remove(raw, "label"@))
            == Err::<CollectionView, ParseErrorView>(
            ParseErrorView::MissingRequiredField("label"@),
        ),
{
    reveal_with_fuel(first_public_violation, 2);
    lemma_lookup_insert(raw, "label"@, ValueView { bytes, is_secret: true });
    if distinct_keys(raw) {
        lemma_remove_distinct(raw, "label"@);
    }
}

/// A container whose header is written from entries that make up no header
/// is refused for the reason why they make up none, whatever the root
/// collection holds.
pub proof fn lemma_container_with_bad_header_is_refused(
    version: u32,
    es: Seq<EntryView>,
    tail: Seq<u8>,
)
    requires
        entries_fit(es),
        distinct_keys(es),
        tail.len() > 0,
        tail[0] != 0x00u8,
        header_from_entries(es, version) is Err,
    ensures
        parse_container(MAGIC_NUMBER@ + (be32(version) + entries_bytes(es) + tail)) == Err::<
            ((HeaderView, CollectionView), Seq<u8>),
            ParseErrorView,
        >(header_from_entries(es, version)->Err_0),
{
    let rest = be32(version) + entries_bytes(es) + tail;
    assert(parse_magic_number(MAGIC_NUMBER@ + rest) == Ok::<((), Seq<u8>), ParseErrorView>(
        ((), rest),
    )) by {
        assert((MAGIC_NUMBER@ + rest).subrange(0, 8) =~= MAGIC_NUMBER@);
        assert((MAGIC_NUMBER@ + rest).skip(8) =~= rest);
    }
    lemma_header_of_entries(version, es, tail);
}

} // verus!
