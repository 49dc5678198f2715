//! Reading undoes writing: what is written for a container that can be
//! stored is read back as that container.
use vstd::prelude::*;
use vstd::utf8::{encode_utf8, encode_utf8_decode_utf8, encode_utf8_valid_utf8};
use crate::entity::collection::{CollectionView, tallest};
use crate::entity::entries::{
    contains_key, distinct_keys, EntryView, insert, lemma_position, lemma_position_of, lookup,
    position, remove,
};
use crate::entity::header::HeaderView;
use crate::entity::record::RecordView;
use crate::entity::value::ValueView;
use crate::error::ParseErrorView;
use crate::util::{
    be16, be32, lemma_be16_value, lemma_be32_value, lemma_concat_assoc, lemma_concat_empty,
    MAGIC_NUMBER,
};
use crate::wire::decode::{
    collection_from_parts, first_public_violation, first_secret_violation, header_from_entries,
    lemma_collection_framed, lemma_members_child, lemma_members_end, lemma_members_entry,
    lemma_members_record, lemma_record_framed, MAX_DEPTH, parse_collection, parse_container,
    parse_entries, parse_header, parse_key_value, parse_magic_number, parse_members, parse_record,
    parse_value, parse_version, record_from_entries,
};
use crate::wire::encode::{
    collection_bytes, collection_fits, collections_bytes, container_bytes, container_fits,
    entries_bytes, entries_fit, entry_bytes, entry_fits, header_bytes, header_fits,
    lemma_field_names_fit, payload_bytes, payload_fits, record_bytes, record_fits, records_bytes,
    starter_byte, text_bytes, text_field_bytes, text_fits, value_bytes,
};

verus! {

/// A payload that was written is read back, and the bytes behind it are
/// left.
pub proof fn lemma_parse_payload(payload: Seq<u8>, is_secret: bool, tail: Seq<u8>)
    requires
        payload_fits(payload),
    ensures
        parse_value(payload_bytes(payload, is_secret) + tail, is_secret) == Ok::<
            (ValueView, Seq<u8>),
            ParseErrorView,
        >((ValueView { bytes: payload, is_secret }, tail)),
        (payload_bytes(payload, is_secret) + tail)[0] == starter_byte(is_secret),
        (payload_bytes(payload, is_secret) + tail).len() == 3 + payload.len() + tail.len(),
{
    let bytes = payload_bytes(payload, is_secret) + tail;
    lemma_be16_value(payload.len() as int);
    assert(bytes[1] == be16(payload.len() as int)[0]);
    assert(bytes[2] == be16(payload.len() as int)[1]);
    assert(bytes.subrange(3, 3 + payload.len() as int) =~= payload);
    assert(bytes.skip(3 + payload.len() as int) =~= tail);
}

/// An entry that was written is read back, and the bytes behind it are
/// left.
pub proof fn lemma_parse_entry(e: EntryView, tail: Seq<u8>)
    requires
        entry_fits(e),
    ensures
        parse_key_value(entry_bytes(e) + tail) == Ok::<(EntryView, Seq<u8>), ParseErrorView>(
            (e, tail),
        ),
        (entry_bytes(e) + tail).len() > 0,
        (entry_bytes(e) + tail)[0] == 0x00u8,
{
    let key_bytes = encode_utf8(e.key);
    let after_key = value_bytes(e.value) + tail;
    assert(entry_bytes(e) + tail =~= text_bytes(e.key) + after_key);
    lemma_parse_payload(key_bytes, false, after_key);
    lemma_parse_payload(e.value.bytes, e.value.is_secret, tail);
    encode_utf8_valid_utf8(e.key);
    encode_utf8_decode_utf8(e.key);
}

/// Where no name occurs twice in `found` followed by `es`, none of `es` is
/// a name of `found`.
pub proof fn lemma_fresh_key(found: Seq<EntryView>, es: Seq<EntryView>)
    requires
        distinct_keys(found + es),
        es.len() > 0,
    ensures
        !contains_key(found, es.first().key),
        insert(found, es.first().key, es.first().value) == found.push(es.first()),
        found.push(es.first()) + es.drop_first() == found + es,
{
    let all = found + es;
    let key = es.first().key;
    lemma_position(found, key);
    let p = position(found, key);
    if p < found.len() {
        assert(all[p].key == key);
        assert(all[found.len() as int].key == key);
    }
    assert(found.push(es.first()) + es.drop_first() =~= found + es);
}

/// Entries that were written are read back, one after the other, behind
/// those found before.
pub proof fn lemma_parse_entries(
    es: Seq<EntryView>,
    tail: Seq<u8>,
    found: Seq<EntryView>,
    may_end: bool,
)
    requires
        entries_fit(es),
        distinct_keys(found + es),
    ensures
        parse_entries(entries_bytes(es) + tail, found, may_end) == parse_entries(
            tail,
            found + es,
            may_end,
        ),
    decreases es.len(),
{
    if es.len() == 0 {
        assert(entries_bytes(es) + tail =~= tail);
        assert(found + es =~= found);
    } else {
        let e = es.first();
        let rest = es.drop_first();
        let after = entries_bytes(rest) + tail;
        assert(entries_bytes(es) + tail =~= entry_bytes(e) + after);
        lemma_parse_entry(e, after);
        lemma_fresh_key(found, es);
        assert(entries_fit(rest)) by {
            assert forall|i: int| 0 <= i < rest.len() implies entry_fits(#[trigger] rest[i]) by {
                assert(rest[i] == es[i + 1]);
            }
        }
        lemma_parse_entries(rest, tail, found.push(e), may_end);
    }
}

/// Entries written one list behind another are the two lists written one
/// behind the other.
pub proof fn lemma_entries_bytes_concat(a: Seq<EntryView>, b: Seq<EntryView>)
    ensures
        entries_bytes(a + b) == entries_bytes(a) + entries_bytes(b),
    decreases a.len(),
{
    if a.len() == 0 {
        assert(a + b =~= b);
        assert(entries_bytes(a) + entries_bytes(b) =~= entries_bytes(b));
    } else {
        assert((a + b).drop_first() =~= a.drop_first() + b);
        lemma_entries_bytes_concat(a.drop_first(), b);
        assert(entries_bytes(a + b) =~= entries_bytes(a) + entries_bytes(b));
    }
}

/// An entry in front of others that do not have its name: its name finds
/// it, taking its name out leaves the others, and no name occurs twice if
/// none did among the others.
pub proof fn lemma_entry_in_front(e: EntryView, rest: Seq<EntryView>)
    requires
        !contains_key(rest, e.key),
    ensures
        lookup(seq![e] + rest, e.key) == Some(e.value),
        remove(seq![e] + rest, e.key) == rest,
        distinct_keys(rest) ==> distinct_keys(seq![e] + rest),
        forall|other: Seq<char>|
            other != e.key ==> lookup(seq![e] + rest, other) == lookup(rest, other) && (
            contains_key(seq![e] + rest, other) <==> contains_key(rest, other)),
{
    let all = seq![e] + rest;
    assert(all.first() == e);
    assert(all.drop_first() =~= rest);
    assert(all.remove(0) =~= rest);
    if distinct_keys(rest) {
        assert forall|i: int, j: int| 0 <= i < j < all.len() implies (#[trigger] all[i]).key != (
        #[trigger] all[j]).key by {
            if i == 0 {
                lemma_position(rest, e.key);
                if rest[j - 1].key == e.key {
                    lemma_position_of(rest, e.key, j - 1);
                }
            } else {
                assert(rest[i - 1].key != rest[j - 1].key);
            }
        }
    }
    assert forall|other: Seq<char>| other != e.key implies lookup(all, other) == lookup(
        rest,
        other,
    ) && (contains_key(all, other) <==> contains_key(rest, other)) by {
        lemma_position(rest, other);
        assert(position(all, other) == 1 + position(rest, other));
        if contains_key(rest, other) {
            assert(all[1 + position(rest, other)] == rest[position(rest, other)]);
        }
    }
}

/// What is read from the starter byte of a record and the bytes of at
/// least one entry, with nothing behind them that opens with the starter
/// byte of a key, is the record that the entries make up, or the reason
/// why they make up none.
pub proof fn lemma_record_of_entries(es: Seq<EntryView>, tail: Seq<u8>)
    requires
        entries_fit(es),
        distinct_keys(es),
        es.len() > 0,
        tail.len() == 0 || tail[0] != 0x00u8,
    ensures
        parse_record(seq![0x02u8] + entries_bytes(es) + tail) == (match record_from_entries(es) {
            Err(e) => Err(e),
            Ok(record) => Ok((record, tail)),
        }),
{
    let rest = entries_bytes(es) + tail;
    lemma_concat_assoc(seq![0x02u8], entries_bytes(es), tail);
    assert(rest.len() > 0) by {
        let others = es.drop_first();
        lemma_parse_entry(es.first(), entries_bytes(others) + tail);
        lemma_concat_assoc(
            entry_bytes(es.first()),
            entries_bytes(others),
            tail,
        );
    }
    assert(parse_entries(rest, Seq::empty(), true) == Ok::<
        (Seq<EntryView>, Seq<u8>),
        ParseErrorView,
    >((es, tail))) by {
        lemma_concat_empty(es);
        lemma_parse_entries(es, tail, Seq::empty(), true);
    }
    lemma_record_framed(rest);
}

/// The entry that holds a label.
pub open spec fn label_entry(label: Seq<char>) -> EntryView {
    EntryView { key: "label"@, value: ValueView { bytes: encode_utf8(label), is_secret: false } }
}

/// The entry that holds a record's stored secret.
pub open spec fn secret_entry(secret: Seq<u8>) -> EntryView {
    EntryView { key: "secret"@, value: ValueView { bytes: secret, is_secret: true } }
}

/// The entries that are written for a record: its label, its secret, its
/// extras.
pub open spec fn record_entries(r: RecordView) -> Seq<EntryView> {
    seq![label_entry(r.label)] + (seq![secret_entry(r.secret)] + r.extras)
}

/// Whether a record can be stored: it can be written, and its extras hold
/// no name twice and none of the names that the record takes for its own.
pub open spec fn record_storable(r: RecordView) -> bool {
    &&& record_fits(r)
    &&& distinct_keys(r.extras)
    &&& !contains_key(r.extras, "label"@)
    &&& !contains_key(r.extras, "secret"@)
}

/// Whether each of the records can be stored.
pub open spec fn records_storable(rs: Seq<RecordView>) -> bool {
    forall|i: int| 0 <= i < rs.len() ==> record_storable(#[trigger] rs[i])
}

/// The entries that are written for a record that can be stored make up the
/// record again.
pub proof fn lemma_record_from_its_entries(r: RecordView)
    requires
        record_storable(r),
    ensures
        record_bytes(r) == seq![0x02u8] + entries_bytes(record_entries(r)),
        entries_fit(record_entries(r)),
        distinct_keys(record_entries(r)),
        record_from_entries(record_entries(r)) == Ok::<RecordView, ParseErrorView>(r.at_rest()),
{
    reveal_strlit("label");
    reveal_strlit("secret");
    assert("label"@.len() == 5 && "secret"@.len() == 6);
    lemma_field_names_fit();
    let label = label_entry(r.label);
    let secret = secret_entry(r.secret);
    let inner = seq![secret] + r.extras;
    let raw = record_entries(r);
    lemma_entry_in_front(secret, r.extras);
    lemma_entry_in_front(label, inner);
    // bytes
    lemma_entries_bytes_concat(seq![label], inner);
    lemma_entries_bytes_concat(seq![secret], r.extras);
    reveal_with_fuel(entries_bytes, 2);
    assert(seq![label].drop_first() =~= Seq::<EntryView>::empty());
    assert(seq![secret].drop_first() =~= Seq::<EntryView>::empty());
    assert(entries_bytes(seq![label]) =~= entry_bytes(label));
    assert(entries_bytes(seq![secret]) =~= entry_bytes(secret));
    assert(record_bytes(r) =~= seq![0x02u8] + entries_bytes(raw));
    // fits
    assert forall|i: int| 0 <= i < raw.len() implies entry_fits(#[trigger] raw[i]) by {
        if i >= 2 {
            assert(raw[i] == r.extras[i - 2]);
        }
    }
    // what the entries make up
    reveal_with_fuel(first_public_violation, 2);
    reveal_with_fuel(first_secret_violation, 2);
    encode_utf8_valid_utf8(r.label);
    encode_utf8_decode_utf8(r.label);
    assert(remove(raw, "label"@) == inner);
    assert(remove(inner, "secret"@) == r.extras);
}

/// A record that can be stored is read back as it was written, without its
/// revealed secret, and the bytes behind it are left: provided that they
/// do not open with the starter byte of a key.
pub proof fn lemma_parse_record(r: RecordView, tail: Seq<u8>)
    requires
        record_storable(r),
        tail.len() == 0 || tail[0] != 0x00u8,
    ensures
        parse_record(record_bytes(r) + tail) == Ok::<(RecordView, Seq<u8>), ParseErrorView>(
            (r.at_rest(), tail),
        ),
        (record_bytes(r) + tail).len() > 0,
        (record_bytes(r) + tail)[0] == 0x02u8,
{
    lemma_record_from_its_entries(r);
    lemma_record_of_entries(record_entries(r), tail);
    lemma_concat_assoc(seq![0x02u8], entries_bytes(record_entries(r)), tail);
}

/// The records `rs`, each as a file holds it.
pub open spec fn records_at_rest(rs: Seq<RecordView>) -> Seq<RecordView> {
    Seq::new(rs.len(), |i: int| rs[i].at_rest())
}

/// The collections `cs`, each as a file holds it.
pub open spec fn collections_at_rest(cs: Seq<CollectionView>) -> Seq<CollectionView> {
    Seq::new(cs.len(), |i: int| cs[i].at_rest())
}

/// The entries that are written for a collection: its label, its extras.
pub open spec fn collection_entries(c: CollectionView) -> Seq<EntryView> {
    seq![label_entry(c.label)] + c.extras
}

/// Whether a collection can be stored, with all that is below it: it can be
/// written, and nowhere do extras hold a name twice or a name that their
/// owner takes for its own.
pub open spec fn collection_storable(c: CollectionView) -> bool
    decreases c,
{
    &&& text_fits(c.label)
    &&& entries_fit(c.extras)
    &&& distinct_keys(c.extras)
    &&& !contains_key(c.extras, "label"@)
    &&& forall|i: int| 0 <= i < c.children.len() ==> collection_storable(#[trigger] c.children[i])
    &&& records_storable(c.records)
}

/// Each of `cs` is at most as high as the highest of them.
pub proof fn lemma_tallest(cs: Seq<CollectionView>, i: int)
    requires
        0 <= i < cs.len(),
    ensures
        cs[i].height() <= tallest(cs),
    decreases cs.len(),
{
    if i > 0 {
        lemma_tallest(cs.drop_first(), i - 1);
    }
}

/// Inside a collection, entries that were written are read back behind
/// those found before.
pub proof fn lemma_members_entries(
    es: Seq<EntryView>,
    tail: Seq<u8>,
    depth: nat,
    children: Seq<CollectionView>,
    records: Seq<RecordView>,
    found: Seq<EntryView>,
)
    requires
        entries_fit(es),
        distinct_keys(found + es),
    ensures
        parse_members(entries_bytes(es) + tail, depth, children, records, found) == parse_members(
            tail,
            depth,
            children,
            records,
            found + es,
        ),
    decreases es.len(),
{
    if es.len() == 0 {
        assert(entries_bytes(es) + tail =~= tail);
        assert(found + es =~= found);
    } else {
        let e = es.first();
        let rest = es.drop_first();
        let after = entries_bytes(rest) + tail;
        assert(entries_bytes(es) + tail =~= entry_bytes(e) + after);
        lemma_parse_entry(e, after);
        lemma_fresh_key(found, es);
        assert(entries_fit(rest)) by {
            assert forall|i: int| 0 <= i < rest.len() implies entry_fits(#[trigger] rest[i]) by {
                assert(rest[i] == es[i + 1]);
            }
        }
        lemma_members_entry(entry_bytes(e) + after, depth, children, records, found);
        lemma_members_entries(rest, tail, depth, children, records, found.push(e));
    }
}

/// Records that were written, and behind them bytes that do not open with
/// the starter byte of a key, do not open with it either.
pub proof fn lemma_records_bytes_front(rs: Seq<RecordView>, tail: Seq<u8>)
    requires
        records_storable(rs),
        tail.len() == 0 || tail[0] != 0x00u8,
    ensures
        (records_bytes(rs) + tail).len() == 0 || (records_bytes(rs) + tail)[0] != 0x00u8,
{
    if rs.len() > 0 {
        assert(record_storable(rs[0]));
        lemma_record_from_its_entries(rs.first());
        assert((records_bytes(rs) + tail)[0] == 0x02u8);
    } else {
        lemma_concat_empty(tail);
    }
}

/// Inside a collection, records that were written are read back behind
/// those found before: provided that the bytes behind them do not open
/// with the starter byte of a key.
pub proof fn lemma_members_records(
    rs: Seq<RecordView>,
    tail: Seq<u8>,
    depth: nat,
    children: Seq<CollectionView>,
    records: Seq<RecordView>,
    raw: Seq<EntryView>,
)
    requires
        records_storable(rs),
        tail.len() == 0 || tail[0] != 0x00u8,
    ensures
        parse_members(records_bytes(rs) + tail, depth, children, records, raw) == parse_members(
            tail,
            depth,
            children,
            records + records_at_rest(rs),
            raw,
        ),
    decreases rs.len(),
{
    if rs.len() == 0 {
        lemma_concat_empty(tail);
        assert(records + records_at_rest(rs) =~= records);
    } else {
        let r = rs.first();
        let rest = rs.drop_first();
        let after = records_bytes(rest) + tail;
        assert(record_storable(r));
        assert(records_storable(rest)) by {
            assert forall|i: int| 0 <= i < rest.len() implies record_storable(
                #[trigger] rest[i],
            ) by {
                assert(rest[i] == rs[i + 1]);
            }
        }
        lemma_records_bytes_front(rest, tail);
        lemma_parse_record(r, after);
        lemma_members_record(record_bytes(r) + after, depth, children, records, raw);
        lemma_members_records(rest, tail, depth, children, records.push(r.at_rest()), raw);
        lemma_concat_assoc(record_bytes(r), records_bytes(rest), tail);
        assert(records.push(r.at_rest()) + records_at_rest(rest) =~= records + records_at_rest(
            rs,
        ));
    }
}

/// The entries that are written for a collection that can be stored make
/// up, with its parts, the collection again.
pub proof fn lemma_collection_from_its_parts(c: CollectionView)
    requires
        collection_storable(c),
    ensures
        seq![0x03u8] + text_field_bytes("label"@, c.label) + entries_bytes(c.extras) == seq![
            0x03u8,
        ] + entries_bytes(collection_entries(c)),
        entries_fit(collection_entries(c)),
        distinct_keys(collection_entries(c)),
        collection_from_parts(
            collections_at_rest(c.children),
            records_at_rest(c.records),
            collection_entries(c),
        ) == Ok::<CollectionView, ParseErrorView>(c.at_rest()),
{
    lemma_field_names_fit();
    let label = label_entry(c.label);
    let raw = collection_entries(c);
    lemma_entry_in_front(label, c.extras);
    lemma_entries_bytes_concat(seq![label], c.extras);
    reveal_with_fuel(entries_bytes, 2);
    assert(seq![label].drop_first() =~= Seq::<EntryView>::empty());
    assert(entries_bytes(seq![label]) =~= entry_bytes(label));
    assert(seq![0x03u8] + text_field_bytes("label"@, c.label) + entries_bytes(c.extras) =~= seq![
        0x03u8,
    ] + entries_bytes(raw));
    assert forall|i: int| 0 <= i < raw.len() implies entry_fits(#[trigger] raw[i]) by {
        if i >= 1 {
            assert(raw[i] == c.extras[i - 1]);
        }
    }
    reveal_with_fuel(first_public_violation, 2);
    encode_utf8_valid_utf8(c.label);
    encode_utf8_decode_utf8(c.label);
    assert(remove(raw, "label"@) == c.extras);
    assert(c.at_rest().children =~= collections_at_rest(c.children));
    assert(c.at_rest().records =~= records_at_rest(c.records));
}

/// A collection that can be stored, and in which no more than `depth`
/// collections stand inside one another, is read back as it was written,
/// without revealed secrets, and the bytes behind it are left.
pub proof fn lemma_parse_collection(c: CollectionView, tail: Seq<u8>, depth: nat)
    requires
        collection_storable(c),
        c.height() <= depth,
    ensures
        parse_collection(collection_bytes(c) + tail, depth) == Ok::<
            (CollectionView, Seq<u8>),
            ParseErrorView,
        >((c.at_rest(), tail)),
        (collection_bytes(c) + tail).len() >= 2 + tail.len(),
        (collection_bytes(c) + tail)[0] == 0x03u8,
    decreases c,
{
    let raw = collection_entries(c);
    let inner = (depth - 1) as nat;
    let end = seq![0x04u8] + tail;
    let after_children = records_bytes(c.records) + end;
    let after_entries = collections_bytes(c.children) + after_children;
    let members = entries_bytes(raw) + after_entries;
    lemma_collection_from_its_parts(c);
    assert(collection_bytes(c) + tail =~= seq![0x03u8] + members) by {
        let head = seq![0x03u8] + text_field_bytes("label"@, c.label) + entries_bytes(c.extras);
        assert(collection_bytes(c) + tail =~= head + after_entries);
        assert(head + after_entries =~= seq![0x03u8] + entries_bytes(raw) + after_entries);
    }
    lemma_collection_framed(members, depth);
    assert(Seq::<EntryView>::empty() + raw =~= raw);
    lemma_members_entries(raw, after_entries, inner, Seq::empty(), Seq::empty(), Seq::empty());
    assert forall|i: int| 0 <= i < c.children.len() implies (#[trigger] c.children[i]).height()
        <= inner by {
        lemma_tallest(c.children, i);
    }
    lemma_members_children(c.children, after_children, inner, Seq::empty(), Seq::empty(), raw);
    assert(Seq::<CollectionView>::empty() + collections_at_rest(c.children)
        =~= collections_at_rest(c.children));
    lemma_members_records(
        c.records,
        end,
        inner,
        collections_at_rest(c.children),
        Seq::empty(),
        raw,
    );
    assert(Seq::<RecordView>::empty() + records_at_rest(c.records) =~= records_at_rest(
        c.records,
    ));
    lemma_members_end(
        end,
        inner,
        collections_at_rest(c.children),
        records_at_rest(c.records),
        raw,
    );
    assert(end.skip(1) =~= tail);
}

/// Inside a collection, collections that were written are read back behind
/// those found before.
pub proof fn lemma_members_children(
    cs: Seq<CollectionView>,
    tail: Seq<u8>,
    depth: nat,
    children: Seq<CollectionView>,
    records: Seq<RecordView>,
    raw: Seq<EntryView>,
)
    requires
        forall|i: int| 0 <= i < cs.len() ==> collection_storable(#[trigger] cs[i]),
        forall|i: int| 0 <= i < cs.len() ==> (#[trigger] cs[i]).height() <= depth,
    ensures
        parse_members(collections_bytes(cs) + tail, depth, children, records, raw)
            == parse_members(tail, depth, children + collections_at_rest(cs), records, raw),
    decreases cs,
{
    if cs.len() == 0 {
        assert(collections_bytes(cs) + tail =~= tail);
        assert(children + collections_at_rest(cs) =~= children);
    } else {
        let c = cs.first();
        let rest = cs.drop_first();
        let after = collections_bytes(rest) + tail;
        assert(collections_bytes(cs) + tail =~= collection_bytes(c) + after);
        lemma_parse_collection(c, after, depth);
        lemma_members_child(collection_bytes(c) + after, depth, children, records, raw);
        assert forall|i: int| 0 <= i < rest.len() implies collection_storable(
            #[trigger] rest[i],
        ) && rest[i].height() <= depth by {
            assert(rest[i] == cs[i + 1]);
        }
        lemma_members_children(rest, tail, depth, children.push(c.at_rest()), records, raw);
        assert(children.push(c.at_rest()) + collections_at_rest(rest) =~= children
            + collections_at_rest(cs));
    }
}

/// What is read from the starter byte of a collection, the bytes of
/// entries, of collections and of records that can be stored, and the
/// ender byte, is the collection that these parts make up, or the reason
/// why they make up none.
pub proof fn lemma_collection_of_parts(
    es: Seq<EntryView>,
    cs: Seq<CollectionView>,
    rs: Seq<RecordView>,
    tail: Seq<u8>,
    depth: nat,
)
    requires
        entries_fit(es),
        distinct_keys(es),
        forall|i: int| 0 <= i < cs.len() ==> collection_storable(#[trigger] cs[i]),
        forall|i: int| 0 <= i < cs.len() ==> (#[trigger] cs[i]).height() < depth,
        records_storable(rs),
        depth > 0,
    ensures
        parse_collection(
            seq![0x03u8] + (entries_bytes(es) + (collections_bytes(cs) + (records_bytes(rs) + (
            seq![0x04u8] + tail)))),
            depth,
        ) == (match collection_from_parts(collections_at_rest(cs), records_at_rest(rs), es) {
            Err(e) => Err(e),
            Ok(c) => Ok((c, tail)),
        }),
{
    let inner = (depth - 1) as nat;
    let end = seq![0x04u8] + tail;
    let after_children = records_bytes(rs) + end;
    let after_entries = collections_bytes(cs) + after_children;
    lemma_collection_framed(entries_bytes(es) + after_entries, depth);
    lemma_concat_empty(es);
    lemma_members_entries(es, after_entries, inner, Seq::empty(), Seq::empty(), Seq::empty());
    lemma_members_children(cs, after_children, inner, Seq::empty(), Seq::empty(), es);
    lemma_concat_empty(collections_at_rest(cs));
    lemma_members_records(rs, end, inner, collections_at_rest(cs), Seq::empty(), es);
    lemma_concat_empty(records_at_rest(rs));
    lemma_members_end(end, inner, collections_at_rest(cs), records_at_rest(rs), es);
    assert(end.skip(1) =~= tail);
}

/// An entry written in front of others is its bytes in front of theirs.
pub proof fn lemma_entries_bytes_cons(e: EntryView, rest: Seq<EntryView>)
    ensures
        entries_bytes(seq![e] + rest) == entry_bytes(e) + entries_bytes(rest),
        entries_fit(rest) && entry_fits(e) ==> entries_fit(seq![e] + rest),
{
    let all = seq![e] + rest;
    assert(all.first() == e);
    assert(all.drop_first() =~= rest);
    if entries_fit(rest) && entry_fits(e) {
        assert forall|i: int| 0 <= i < all.len() implies entry_fits(#[trigger] all[i]) by {
            if i > 0 {
                assert(all[i] == rest[i - 1]);
            }
        }
    }
}

/// What is read from the bytes of a version and of entries, with something
/// behind them that does not open with the starter byte of a key, is the
/// header that the entries make up, or the reason why they make up none.
pub proof fn lemma_header_of_entries(version: u32, es: Seq<EntryView>, tail: Seq<u8>)
    requires
        entries_fit(es),
        distinct_keys(es),
        tail.len() > 0,
        tail[0] != 0x00u8,
    ensures
        parse_header(be32(version) + entries_bytes(es) + tail) == (match header_from_entries(
            es,
            version,
        ) {
            Err(e) => Err(e),
            Ok(header) => Ok((header, tail)),
        }),
{
    reveal(parse_header);
    let front = be32(version);
    let rest = entries_bytes(es) + tail;
    lemma_concat_assoc(front, entries_bytes(es), tail);
    assert(parse_version(front + rest) == Ok::<(u32, Seq<u8>), ParseErrorView>((version, rest)))
        by {
        lemma_be32_value(version);
        assert((front + rest).skip(4) =~= rest);
        assert((front + rest)[0] == front[0]);
        assert((front + rest)[1] == front[1]);
        assert((front + rest)[2] == front[2]);
        assert((front + rest)[3] == front[3]);
    }
    assert(parse_entries(rest, Seq::empty(), false) == Ok::<
        (Seq<EntryView>, Seq<u8>),
        ParseErrorView,
    >((es, tail))) by {
        lemma_concat_empty(es);
        lemma_parse_entries(es, tail, Seq::empty(), false);
    }
}

/// The entry that holds a text under `name`.
pub open spec fn text_entry(name: Seq<char>, text: Seq<char>) -> EntryView {
    EntryView { key: name, value: ValueView { bytes: encode_utf8(text), is_secret: false } }
}

/// The entry that holds public bytes under `name`.
pub open spec fn public_entry(name: Seq<char>, bytes: Seq<u8>) -> EntryView {
    EntryView { key: name, value: ValueView { bytes, is_secret: false } }
}

/// The entries that are written for a header: the six required fields in
/// their order, then the extras.
pub open spec fn header_entries(h: HeaderView) -> Seq<EntryView> {
    seq![text_entry("mkhf"@, h.master_key_hash_fn)] + (seq![text_entry("khf"@, h.key_hash_fn)] + (
    seq![public_entry("mks"@, h.master_key_salt)] + (seq![public_entry("ks"@, h.key_salt)] + (
    seq![public_entry("mkh"@, h.master_key_hash)] + (seq![text_entry("kc"@, h.key_cipher)]
        + h.extras)))))
}

/// Whether a header can be stored: it can be written, and its extras hold
/// no name twice and none of the names that the header takes for its own.
pub open spec fn header_storable(h: HeaderView) -> bool {
    &&& header_fits(h)
    &&& distinct_keys(h.extras)
    &&& !contains_key(h.extras, "mkhf"@)
    &&& !contains_key(h.extras, "khf"@)
    &&& !contains_key(h.extras, "mks"@)
    &&& !contains_key(h.extras, "ks"@)
    &&& !contains_key(h.extras, "mkh"@)
    &&& !contains_key(h.extras, "kc"@)
}

/// Eight sequences joined from the left are the same as joined from the
/// right.
proof fn lemma_join_eight<T>(
    a: Seq<T>,
    b: Seq<T>,
    c: Seq<T>,
    d: Seq<T>,
    e: Seq<T>,
    f: Seq<T>,
    g: Seq<T>,
    x: Seq<T>,
)
    ensures
        a + b + c + d + e + f + g + x == a + (b + (c + (d + (e + (f + (g + x)))))),
{
    assert(a + b + c + d + e + f + g + x =~= a + (b + (c + (d + (e + (f + (g + x)))))));
}

/// The bytes of a header are its version and, behind it, the bytes of its
/// entries, each of which can be written.
pub proof fn lemma_header_bytes(h: HeaderView)
    requires
        header_fits(h),
    ensures
        header_bytes(h) == be32(h.version) + entries_bytes(header_entries(h)),
        entries_fit(header_entries(h)),
{
    lemma_field_names_fit();
    let e0 = text_entry("mkhf"@, h.master_key_hash_fn);
    let e1 = text_entry("khf"@, h.key_hash_fn);
    let e2 = public_entry("mks"@, h.master_key_salt);
    let e3 = public_entry("ks"@, h.key_salt);
    let e4 = public_entry("mkh"@, h.master_key_hash);
    let e5 = text_entry("kc"@, h.key_cipher);
    let r4 = seq![e5] + h.extras;
    let r3 = seq![e4] + r4;
    let r2 = seq![e3] + r3;
    let r1 = seq![e2] + r2;
    let r0 = seq![e1] + r1;
    lemma_entries_bytes_cons(e5, h.extras);
    lemma_entries_bytes_cons(e4, r4);
    lemma_entries_bytes_cons(e3, r3);
    lemma_entries_bytes_cons(e2, r2);
    lemma_entries_bytes_cons(e1, r1);
    lemma_entries_bytes_cons(e0, r0);
    lemma_join_eight(
        be32(h.version),
        entry_bytes(e0),
        entry_bytes(e1),
        entry_bytes(e2),
        entry_bytes(e3),
        entry_bytes(e4),
        entry_bytes(e5),
        entries_bytes(h.extras),
    );
}

/// The entries that are written for a header that can be stored make up
/// the header again.
pub proof fn lemma_header_from_its_entries(h: HeaderView)
    requires
        header_storable(h),
    ensures
        distinct_keys(header_entries(h)),
        header_from_entries(header_entries(h), h.version) == Ok::<HeaderView, ParseErrorView>(
            h.at_rest(),
        ),
{
    crate::entity::header::lemma_header_fields_differ();
    let e0 = text_entry("mkhf"@, h.master_key_hash_fn);
    let e1 = text_entry("khf"@, h.key_hash_fn);
    let e2 = public_entry("mks"@, h.master_key_salt);
    let e3 = public_entry("ks"@, h.key_salt);
    let e4 = public_entry("mkh"@, h.master_key_hash);
    let e5 = text_entry("kc"@, h.key_cipher);
    let r4 = seq![e5] + h.extras;
    let r3 = seq![e4] + r4;
    let r2 = seq![e3] + r3;
    let r1 = seq![e2] + r2;
    let r0 = seq![e1] + r1;
    let raw = seq![e0] + r0;
    lemma_entry_in_front(e5, h.extras);
    lemma_entry_in_front(e4, r4);
    lemma_entry_in_front(e3, r3);
    lemma_entry_in_front(e2, r2);
    lemma_entry_in_front(e1, r1);
    lemma_entry_in_front(e0, r0);
    assert(lookup(raw, "mkhf"@) == Some(e0.value));
    assert(lookup(raw, "khf"@) == Some(e1.value));
    assert(lookup(raw, "mks"@) == Some(e2.value));
    assert(lookup(raw, "ks"@) == Some(e3.value));
    assert(lookup(raw, "mkh"@) == Some(e4.value));
    assert(lookup(raw, "kc"@) == Some(e5.value));
    reveal_with_fuel(first_public_violation, 7);
    assert(first_public_violation(raw, crate::wire::decode::header_public_fields()) is None);
    encode_utf8_valid_utf8(h.master_key_hash_fn);
    encode_utf8_decode_utf8(h.master_key_hash_fn);
    encode_utf8_valid_utf8(h.key_hash_fn);
    encode_utf8_decode_utf8(h.key_hash_fn);
    encode_utf8_valid_utf8(h.key_cipher);
    encode_utf8_decode_utf8(h.key_cipher);
    assert(crate::wire::decode::header_extras(raw) == h.extras);
}

/// A header that can be stored is read back as it was written, without the
/// records' key, and the bytes behind it are left: provided that there are
/// such bytes and that they do not open with the starter byte of a key.
pub proof fn lemma_parse_header(h: HeaderView, tail: Seq<u8>)
    requires
        header_storable(h),
        tail.len() > 0,
        tail[0] != 0x00u8,
    ensures
        parse_header(header_bytes(h) + tail) == Ok::<(HeaderView, Seq<u8>), ParseErrorView>(
            (h.at_rest(), tail),
        ),
{
    lemma_header_bytes(h);
    lemma_header_from_its_entries(h);
    lemma_header_of_entries(h.version, header_entries(h), tail);
}

/// A collection that can be stored can be written.
pub proof fn lemma_storable_fits(c: CollectionView)
    requires
        collection_storable(c),
    ensures
        collection_fits(c),
    decreases c,
{
    assert forall|i: int| 0 <= i < c.children.len() implies collection_fits(
        #[trigger] c.children[i],
    ) by {
        lemma_storable_fits(c.children[i]);
    }
    assert forall|i: int| 0 <= i < c.records.len() implies record_fits(
        #[trigger] c.records[i],
    ) by {
        assert(record_storable(c.records[i]));
    }
}

/// Whether a container can be stored: its header and its root collection
/// can, and no more than [`MAX_DEPTH`] collections stand inside one
/// another.
pub open spec fn container_storable(header: HeaderView, root: CollectionView) -> bool {
    &&& header_storable(header)
    &&& collection_storable(root)
    &&& root.height() <= MAX_DEPTH
}

/// Reading undoes writing. A container that can be stored is read back
/// from its bytes as it was written: the same header fields, the same
/// tree with its collections and records in their order, the same labels
/// and stored secrets, the same extras with their secrecy. What is not
/// written, the records' key and the revealed secrets, is not there.
pub proof fn lemma_roundtrip(header: HeaderView, root: CollectionView)
    requires
        container_storable(header, root),
    ensures
        container_fits(header, root),
        parse_container(container_bytes(header, root)) == Ok::<
            ((HeaderView, CollectionView), Seq<u8>),
            ParseErrorView,
        >(((header.at_rest(), root.at_rest()), Seq::empty())),
{
    lemma_storable_fits(root);
    let tree = collection_bytes(root);
    let rest = header_bytes(header) + tree;
    lemma_concat_assoc(MAGIC_NUMBER@, header_bytes(header), tree);
    assert(parse_magic_number(MAGIC_NUMBER@ + rest) == Ok::<((), Seq<u8>), ParseErrorView>(
        ((), rest),
    )) by {
        assert((MAGIC_NUMBER@ + rest).subrange(0, 8) =~= MAGIC_NUMBER@);
        assert((MAGIC_NUMBER@ + rest).skip(8) =~= rest);
    }
    lemma_parse_collection(root, Seq::empty(), MAX_DEPTH as nat);
    lemma_concat_empty(tree);
    lemma_parse_header(header, tree);
}

/// Whether the collection `read` holds, everywhere below it, the extras
/// that `written` holds at the same place: the same names in the same
/// order, each with the same bytes and the same secrecy.
pub open spec fn same_extras(written: CollectionView, read: CollectionView) -> bool
    decreases written,
{
    &&& read.extras == written.extras
    &&& read.records.len() == written.records.len()
    &&& forall|i: int|
        0 <= i < written.records.len() ==> (#[trigger] read.records[i]).extras
            == written.records[i].extras
    &&& read.children.len() == written.children.len()
    &&& forall|i: int|
        0 <= i < written.children.len() ==> same_extras(
            #[trigger] written.children[i],
            read.children[i],
        )
}

/// A collection as a file holds it has the extras of the collection
/// itself, everywhere below it.
pub proof fn lemma_at_rest_keeps_extras(c: CollectionView)
    ensures
        same_extras(c, c.at_rest()),
    decreases c,
{
    assert forall|i: int| 0 <= i < c.children.len() implies same_extras(
        #[trigger] c.children[i],
        c.at_rest().children[i],
    ) by {
        lemma_at_rest_keeps_extras(c.children[i]);
    }
}

/// Secrecy survives. Every entry that is read back from the bytes of a
/// container that can be stored, in the header, in a collection or in a
/// record, is the entry that was written there, with the secrecy flag that
/// it was written with.
pub proof fn lemma_secrecy_survives(header: HeaderView, root: CollectionView)
    requires
        container_storable(header, root),
    ensures
        parse_container(container_bytes(header, root)) matches Ok(((read_header, read_root), _))
            && read_header.extras == header.extras && same_extras(root, read_root),
{
    lemma_roundtrip(header, root);
    lemma_at_rest_keeps_extras(root);
}

} // verus!
