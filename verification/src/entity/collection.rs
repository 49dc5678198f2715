//! An inner node of the tree: a named group of collections and records.
use vstd::prelude::*;
use crate::entity::entries::{
    distinct_keys, Entries, EntryView, insert, lookup, names_of, remove,
};
use crate::entity::record::{Record, RecordView};

use crate::entity::value::{Value, ValueView, write_text_field};
use crate::error::{ParseError, ParseErrorView, SerializeError};
use crate::util::MAX_PAYLOAD_LENGTH;
use crate::wire::roundtrip::{collection_storable, record_storable};
use crate::wire::encode::{
    collection_bytes, collection_fits, collections_bytes, entries_bytes,
    lemma_collections_bytes_push, lemma_field_names_fit, lemma_records_bytes_push, record_fits,
    records_bytes, text_field_bytes,
};
use crate::wire::decode::{
    collection_from_parts, collection_public_fields, lemma_public_fields_present,
};

verus! {

/// The byte that opens a collection.
pub const COLLECTION_STARTER_BYTE: u8 = 0x03;

/// The byte that closes a collection.
pub const COLLECTION_ENDER_BYTE: u8 = 0x04;

/// The fields that a collection must hold as public values.
pub const REQUIRED_COLLECTION_FIELDS: [&'static str; 1] = ["label"];

/// A [`Collection`] as a mathematical value.
pub struct CollectionView {
    /// The collection's name.
    pub label: Seq<char>,
    /// The collections inside it, in the order in which they were added.
    pub children: Seq<CollectionView>,
    /// The records inside it, in the order in which they were added.
    pub records: Seq<RecordView>,
    /// Whatever else is kept with the collection.
    pub extras: Seq<EntryView>,
}

impl CollectionView {
    /// The collection as a file holds it: no record anywhere below it shows
    /// its secret in the clear.
    pub open spec fn at_rest(self) -> CollectionView
        decreases self,
    {
        CollectionView {
            label: self.label,
            children: Seq::new(
                self.children.len(),
                |i: int|
                    if 0 <= i < self.children.len() {
                        self.children[i].at_rest()
                    } else {
                        self
                    },
            ),
            records: Seq::new(self.records.len(), |i: int| self.records[i].at_rest()),
            extras: self.extras,
        }
    }

    /// How many collections stand inside one another, this one counted, on
    /// the longest way down.
    pub open spec fn height(self) -> nat
        decreases self,
    {
        1 + tallest(self.children)
    }
}

/// The greatest [`CollectionView::height`] among `cs`; 0 if there is none.
pub open spec fn tallest(cs: Seq<CollectionView>) -> nat
    decreases cs,
{
    if cs.len() == 0 {
        0
    } else {
        let first = cs.first().height();
        let others = tallest(cs.drop_first());
        if first >= others {
            first
        } else {
            others
        }
    }
}

/// The greatest height among collections and one more is the greater of
/// what it was and the height of the one more.
pub proof fn lemma_tallest_push(cs: Seq<CollectionView>, c: CollectionView)
    ensures
        tallest(cs.push(c)) == if c.height() >= tallest(cs) {
            c.height()
        } else {
            tallest(cs)
        },
    decreases cs.len(),
{
    if cs.len() == 0 {
        assert(cs.push(c).drop_first() =~= Seq::<CollectionView>::empty());
        assert(tallest(Seq::<CollectionView>::empty()) == 0);
    } else {
        assert(cs.push(c).drop_first() =~= cs.drop_first().push(c));
        lemma_tallest_push(cs.drop_first(), c);
    }
}

/// The greatest height among the first `n` of `cs` is at most the greatest
/// height among all of them.
pub proof fn lemma_tallest_grows(cs: Seq<CollectionView>, n: int)
    requires
        0 <= n <= cs.len(),
    ensures
        tallest(cs.subrange(0, n)) <= tallest(cs),
    decreases cs.len() - n,
{
    if n < cs.len() {
        lemma_tallest_push(cs.subrange(0, n), cs[n]);
        assert(cs.subrange(0, n + 1) =~= cs.subrange(0, n).push(cs[n]));
        lemma_tallest_grows(cs, n + 1);
    } else {
        assert(cs.subrange(0, n) =~= cs);
    }
}

/// A named group of collections and records. It owns what is inside it and
/// knows nothing of what it is inside of.
#[derive(Debug)]
pub struct Collection {
    label: String,
    children: Vec<Collection>,
    records: Vec<Record>,
    extras: Entries,
}

impl View for Collection {
    type V = CollectionView;

    closed spec fn view(&self) -> CollectionView {
        self.tree()
    }
}

impl Collection {
    /// The collection and all that is below it, as a mathematical value.
    closed spec fn tree(&self) -> CollectionView
        decreases self,
    {
        CollectionView {
            label: self.label@,
            children: Seq::new(
                self.children@.len(),
                |i: int|
                    if 0 <= i < self.children.len() {
                        self.children[i].tree()
                    } else {
                        arbitrary()
                    },
            ),
            records: Seq::new(self.records@.len(), |i: int| self.records@[i]@),
            extras: self.extras@,
        }
    }

    /// An empty collection named `label`.
    pub fn new(label: String) -> (c: Self)
        ensures
            c@ == (CollectionView {
                label: label@,
                children: Seq::empty(),
                records: Seq::empty(),
                extras: Seq::empty(),
            }),
    {
        let c = Self { label, children: Vec::new(), records: Vec::new(), extras: Entries::new() };
        assert(c@.children =~= Seq::empty());
        assert(c@.records =~= Seq::empty());
        c
    }

    /// The collection's name.
    pub fn label(&self) -> (label: &String)
        ensures
            label@ == self@.label,
    {
        &self.label
    }

    /// The collections inside this one, in the order in which they were
    /// added.
    pub fn children(&self) -> (children: &Vec<Collection>)
        ensures
            collections_view(children@) == self@.children,
    {
        assert(collections_view(self.children@) =~= self@.children);
        &self.children
    }

    /// The records of this collection, in the order in which they were
    /// added.
    pub fn records(&self) -> (records: &Vec<Record>)
        ensures
            records_view(records@) == self@.records,
    {
        assert(records_view(self.records@) =~= self@.records);
        &self.records
    }

    /// The record at `index`, counted from 0 in the order in which the
    /// records were added.
    pub fn get_record(&self, index: usize) -> (record: Option<&Record>)
        ensures
            match record {
                Some(r) => index < self@.records.len() && r@ == self@.records[index as int],
                None => index >= self@.records.len(),
            },
    {
        if index < self.records.len() {
            Some(&self.records[index])
        } else {
            None
        }
    }

    /// The record at `index`, to be changed in place. Nothing else of the
    /// collection changes with it.
    pub fn get_record_mut(&mut self, index: usize) -> (record: Option<&mut Record>)
        ensures
            match record {
                Some(r) => index < old(self)@.records.len() && r@
                    == old(self)@.records[index as int] && final(self)@ == (CollectionView {
                    records: old(self)@.records.update(index as int, final(r)@),
                    ..old(self)@
                }),
                None => index >= old(self)@.records.len() && final(self)@ == old(self)@,
            },
    {
        if index < self.records.len() {
            let ghost before = self@;
            let record = &mut self.records[index];
            proof {
                let after = after_borrow(*self)@;
                assert(after.children =~= before.children);
                assert(after.records =~= before.records.update(index as int, final(record)@));
            }
            Some(record)
        } else {
            None
        }
    }

    /// The collection at `index`, counted from 0 in the order in which the
    /// collections were added.
    pub fn get_child(&self, index: usize) -> (child: Option<&Collection>)
        ensures
            match child {
                Some(c) => index < self@.children.len() && c@ == self@.children[index as int],
                None => index >= self@.children.len(),
            },
    {
        if index < self.children.len() {
            Some(&self.children[index])
        } else {
            None
        }
    }

    /// The collection at `index`, to be changed in place. Nothing else of
    /// this collection changes with it.
    pub fn get_child_mut(&mut self, index: usize) -> (child: Option<&mut Collection>)
        ensures
            match child {
                Some(c) => index < old(self)@.children.len() && c@
                    == old(self)@.children[index as int] && final(self)@ == (CollectionView {
                    children: old(self)@.children.update(index as int, final(c)@),
                    ..old(self)@
                }),
                None => index >= old(self)@.children.len() && final(self)@ == old(self)@,
            },
    {
        if index < self.children.len() {
            let ghost before = self@;
            let child = &mut self.children[index];
            proof {
                let after = after_borrow(*self)@;
                assert(after.records =~= before.records);
                assert(after.children =~= before.children.update(index as int, final(child)@));
            }
            Some(child)
        } else {
            None
        }
    }

    /// What is kept with the collection under `key`.
    pub fn get_extra(&self, key: &str) -> (found: Option<&Value>)
        ensures
            match found {
                Some(v) => lookup(self@.extras, key@) == Some(v@),
                None => lookup(self@.extras, key@) is None,
            },
    {
        self.extras.get(key)
    }

    /// Gives the collection another name.
    pub fn set_label(&mut self, label: &str)
        ensures
            final(self)@ == (CollectionView { label: label@, ..old(self)@ }),
    {
        self.label = label.to_owned();
        assert(self@.children =~= old(self)@.children);
        assert(self@.records =~= old(self)@.records);
    }

    /// Keeps `value` with the collection under `key`, in the place of what
    /// stood there before.
    pub fn add_extra(&mut self, key: &str, value: &[u8], is_secret: bool)
        ensures
            final(self)@ == (CollectionView {
                extras: insert(old(self)@.extras, key@, ValueView { bytes: value@, is_secret }),
                ..old(self)@
            }),
            distinct_keys(final(self)@.extras),
    {
        self.extras.insert(key.to_owned(), Value::new(value, is_secret));
        assert(self@.children =~= old(self)@.children);
        assert(self@.records =~= old(self)@.records);
    }

    /// Puts `record` behind the records that are there.
    pub fn add_record(&mut self, record: Record)
        ensures
            final(self)@ == (CollectionView {
                records: old(self)@.records.push(record@),
                ..old(self)@
            }),
    {
        self.records.push(record);
        assert(self@.children =~= old(self)@.children);
        assert(self@.records =~= old(self)@.records.push(record@));
    }

    /// Puts `child` behind the collections that are there.
    pub fn add_child(&mut self, child: Collection)
        ensures
            final(self)@ == (CollectionView {
                children: old(self)@.children.push(child@),
                ..old(self)@
            }),
    {
        self.children.push(child);
        assert(self@.children =~= old(self)@.children.push(child@));
        assert(self@.records =~= old(self)@.records);
    }
}

impl Collection {
    /// Whether the collection can be stored, with all that is below it:
    /// every label, secret, key and value can be written, and nowhere do
    /// extras hold a name that their owner writes itself.
    pub fn is_storable(&self) -> (storable: bool)
        ensures
            storable == collection_storable(self@),
        decreases self,
    {
        proof {
            assert(names_of(REQUIRED_COLLECTION_FIELDS@)[0] == "label"@);
        }
        let ghost view = self@;
        if self.label.as_str().as_bytes().len() > MAX_PAYLOAD_LENGTH {
            return false;
        }
        if !self.extras.is_storable_beside(REQUIRED_COLLECTION_FIELDS.as_slice()) {
            return false;
        }
        let mut i: usize = 0;
        while i < self.children.len()
            invariant
                0 <= i <= self.children@.len(),
                view == self@,
                view.children.len() == self.children@.len(),
                forall|j: int| 0 <= j < self.children@.len() ==> view.children[j] == (
                #[trigger] self.children@[j])@,
                forall|j: int| 0 <= j < i ==> collection_storable(#[trigger] view.children[j]),
            decreases self.children@.len() - i,
        {
            if !self.children[i].is_storable() {
                assert(!collection_storable(view.children[i as int]));
                return false;
            }
            i += 1;
        }
        let mut k: usize = 0;
        while k < self.records.len()
            invariant
                0 <= k <= self.records@.len(),
                view == self@,
                view.records.len() == self.records@.len(),
                forall|j: int| 0 <= j < self.records@.len() ==> view.records[j] == (
                #[trigger] self.records@[j])@,
                forall|j: int| 0 <= j < k ==> record_storable(#[trigger] view.records[j]),
            decreases self.records@.len() - k,
        {
            if !self.records[k].is_storable() {
                assert(!record_storable(view.records[k as int]));
                return false;
            }
            k += 1;
        }
        true
    }

    /// Whether no more than `limit` collections stand inside one another
    /// in this collection, the collection itself counted.
    pub fn is_at_most_deep(&self, limit: usize) -> (shallow: bool)
        ensures
            shallow == (self@.height() <= limit),
        decreases self,
    {
        if limit == 0 {
            return false;
        }
        let ghost view = self@;
        let mut i: usize = 0;
        proof {
            assert(view.children.subrange(0, 0) =~= Seq::<CollectionView>::empty());
        }
        while i < self.children.len()
            invariant
                0 <= i <= self.children@.len(),
                limit > 0,
                view == self@,
                view.children.len() == self.children@.len(),
                forall|j: int| 0 <= j < self.children@.len() ==> view.children[j] == (
                #[trigger] self.children@[j])@,
                tallest(view.children.subrange(0, i as int)) <= limit - 1,
            decreases self.children@.len() - i,
        {
            let shallow = self.children[i].is_at_most_deep(limit - 1);
            proof {
                lemma_tallest_push(view.children.subrange(0, i as int), view.children[i as int]);
                assert(view.children.subrange(0, i + 1) =~= view.children.subrange(
                    0,
                    i as int,
                ).push(view.children[i as int]));
            }
            if !shallow {
                proof {
                    lemma_tallest_grows(view.children, i + 1);
                }
                return false;
            }
            i += 1;
        }
        proof {
            assert(view.children.subrange(0, i as int) =~= view.children);
        }
        true
    }

    /// Appends the collection as it is written.
    pub(crate) fn write_to(&self, out: &mut Vec<u8>) -> (done: Result<(), SerializeError>)
        ensures
            match done {
                Ok(_) => collection_fits(self@) && final(out)@ == old(out)@ + collection_bytes(
                    self@,
                ),
                Err(_) => !collection_fits(self@),
            },
        decreases self,
    {
        proof {
            lemma_field_names_fit();
        }
        let ghost view = self@;
        out.push(COLLECTION_STARTER_BYTE);
        match write_text_field(out, "label", self.label.as_str()) {
            Ok(()) => {},
            Err(e) => {
                return Err(e);
            },
        }
        match self.extras.write_to(out) {
            Ok(()) => {},
            Err(e) => {
                return Err(e);
            },
        }
        let ghost head = old(out)@ + seq![COLLECTION_STARTER_BYTE] + text_field_bytes(
            "label"@,
            view.label,
        ) + entries_bytes(view.extras);
        assert(out@ =~= head);
        let mut i: usize = 0;
        proof {
            assert(view.children.subrange(0, 0) =~= Seq::<CollectionView>::empty());
            assert(head + collections_bytes(Seq::<CollectionView>::empty()) =~= head);
        }
        while i < self.children.len()
            invariant
                0 <= i <= self.children@.len(),
                view == self@,
                view.children.len() == self.children@.len(),
                forall|j: int| 0 <= j < self.children@.len() ==> view.children[j] == (
                #[trigger] self.children@[j])@,
                forall|j: int| 0 <= j < i ==> collection_fits(#[trigger] view.children[j]),
                out@ == head + collections_bytes(view.children.subrange(0, i as int)),
            decreases self.children@.len() - i,
        {
            let ghost before = view.children.subrange(0, i as int);
            let ghost written = out@;
            match self.children[i].write_to(out) {
                Ok(()) => {},
                Err(e) => {
                    assert(!collection_fits(view.children[i as int]));
                    return Err(e);
                },
            }
            proof {
                lemma_collections_bytes_push(before, view.children[i as int]);
                assert(view.children.subrange(0, i + 1) =~= before.push(view.children[i as int]));
                assert(out@ =~= head + collections_bytes(view.children.subrange(0, i + 1)));
            }
            i += 1;
        }
        let ghost middle = head + collections_bytes(view.children);
        proof {
            assert(view.children.subrange(0, i as int) =~= view.children);
            assert(view.records.subrange(0, 0) =~= Seq::<RecordView>::empty());
            assert(middle + records_bytes(Seq::<RecordView>::empty()) =~= middle);
        }
        let mut k: usize = 0;
        while k < self.records.len()
            invariant
                0 <= k <= self.records@.len(),
                view == self@,
                view.records.len() == self.records@.len(),
                forall|j: int| 0 <= j < self.records@.len() ==> view.records[j] == (
                #[trigger] self.records@[j])@,
                forall|j: int| 0 <= j < k ==> record_fits(#[trigger] view.records[j]),
                out@ == middle + records_bytes(view.records.subrange(0, k as int)),
            decreases self.records@.len() - k,
        {
            let ghost before = view.records.subrange(0, k as int);
            match self.records[k].write_to(out) {
                Ok(()) => {},
                Err(e) => {
                    assert(!record_fits(view.records[k as int]));
                    return Err(e);
                },
            }
            proof {
                lemma_records_bytes_push(before, view.records[k as int]);
                assert(view.records.subrange(0, k + 1) =~= before.push(view.records[k as int]));
                assert(out@ =~= middle + records_bytes(view.records.subrange(0, k + 1)));
            }
            k += 1;
        }
        proof {
            assert(view.records.subrange(0, k as int) =~= view.records);
        }
        out.push(COLLECTION_ENDER_BYTE);
        assert(out@ =~= old(out)@ + collection_bytes(view));
        Ok(())
    }

    /// The collection as it is written: its starter byte, its label, its
    /// extras, the collections inside it, its records, its ender byte. A
    /// label, a key or a value of more than 65,535 bytes anywhere in it
    /// cannot be written.
    pub fn to_bytes(&self) -> (out: Result<Vec<u8>, SerializeError>)
        ensures
            match out {
                Ok(bytes) => collection_fits(self@) && bytes@ == collection_bytes(self@),
                Err(_) => !collection_fits(self@),
            },
    {
        let mut bytes: Vec<u8> = Vec::new();
        match self.write_to(&mut bytes) {
            Ok(()) => {
                assert(Seq::<u8>::empty() + collection_bytes(self@) =~= collection_bytes(self@));
                Ok(bytes)
            },
            Err(e) => Err(e),
        }
    }
}

/// The views of the collections `cs`, in their order.
pub open spec fn collections_view(cs: Seq<Collection>) -> Seq<CollectionView> {
    Seq::new(cs.len(), |i: int| cs[i]@)
}

/// The views of the records `rs`, in their order.
pub open spec fn records_view(rs: Seq<Record>) -> Seq<RecordView> {
    Seq::new(rs.len(), |i: int| rs[i]@)
}

impl TryFrom<(Vec<Collection>, Vec<Record>, Entries)> for Collection {
    type Error = ParseError;

    /// The collection that its parts make up: `label` among the entries
    /// becomes the collection's own, the other entries its extras. A
    /// missing or secret `label` is the error.
    fn try_from(raw_collection: (Vec<Collection>, Vec<Record>, Entries)) -> (made: Result<
        Collection,
        ParseError,
    >)
        ensures
            match made {
                Ok(collection) => collection_from_parts(
                    collections_view(raw_collection.0@),
                    records_view(raw_collection.1@),
                    raw_collection.2@,
                ) == Ok::<CollectionView, ParseErrorView>(collection@),
                Err(e) => collection_from_parts(
                    collections_view(raw_collection.0@),
                    records_view(raw_collection.1@),
                    raw_collection.2@,
                ) == Err::<CollectionView, ParseErrorView>(e@),
            },
    {
        let (children, records, mut extras) = raw_collection;
        let ghost raw = extras@;
        proof {
            assert(names_of(REQUIRED_COLLECTION_FIELDS@) =~= collection_public_fields());
        }
        match extras.require_public(REQUIRED_COLLECTION_FIELDS.as_slice()) {
            Ok(()) => {},
            Err(e) => {
                return Err(e);
            },
        }
        proof {
            lemma_public_fields_present(raw, collection_public_fields(), 0);
        }
        let label = match extras.remove("label").unwrap().parse_string() {
            Ok(label) => label,
            Err(e) => {
                return Err(e);
            },
        };
        let made = Collection { label, children, records, extras };
        proof {
            assert(made@.children =~= collections_view(raw_collection.0@));
            assert(made@.records =~= records_view(raw_collection.1@));
        }
        Ok(made)
    }
}

impl vstd::std_specs::convert::TryFromSpecImpl<(Vec<Collection>, Vec<Record>, Entries)> for Collection {
    /// What `try_from` gives is stated in its own contract, over views.
    open spec fn obeys_try_from_spec() -> bool {
        false
    }

    open spec fn try_from_spec(raw_collection: (Vec<Collection>, Vec<Record>, Entries)) -> Result<
        Collection,
        ParseError,
    > {
        arbitrary()
    }
}

} // verus!
