//! Named values: the metadata of a header, a record or a collection.
use vstd::prelude::*;

use crate::entity::value::{Value, ValueView, write_payload};
use crate::error::{ParseError, SerializeError};
use crate::wire::decode::{first_public_violation, first_secret_violation};
use crate::util::{str_eq, MAX_PAYLOAD_LENGTH};
use crate::wire::encode::{
    entries_bytes, entries_fit, entry_bytes, entry_fits, lemma_entries_bytes_push,
};

verus! {

/// One named value, as a mathematical value.
pub struct EntryView {
    pub key: Seq<char>,
    pub value: ValueView,
}

/// Where the first entry named `key` stands in `es`; `es.len()` if there is
/// none.
pub open spec fn position(es: Seq<EntryView>, key: Seq<char>) -> int
    decreases es.len(),
{
    if es.len() == 0 {
        0
    } else if es.first().key == key {
        0
    } else {
        1 + position(es.drop_first(), key)
    }
}

/// Whether an entry of `es` is named `key`.
pub open spec fn contains_key(es: Seq<EntryView>, key: Seq<char>) -> bool {
    position(es, key) < es.len()
}

/// The value that `es` holds under `key`.
pub open spec fn lookup(es: Seq<EntryView>, key: Seq<char>) -> Option<ValueView> {
    if contains_key(es, key) {
        Some(es[position(es, key)].value)
    } else {
        None
    }
}

/// `es` with `value` under `key`: in the place of the entry of that name if
/// there is one, behind the others if not.
pub open spec fn insert(es: Seq<EntryView>, key: Seq<char>, value: ValueView) -> Seq<EntryView> {
    if contains_key(es, key) {
        es.update(position(es, key), EntryView { key, value })
    } else {
        es.push(EntryView { key, value })
    }
}

/// `es` without the entry named `key`; the others keep their order.
pub open spec fn remove(es: Seq<EntryView>, key: Seq<char>) -> Seq<EntryView> {
    if contains_key(es, key) {
        es.remove(position(es, key))
    } else {
        es
    }
}

/// No two entries of `es` share a name.
pub open spec fn distinct_keys(es: Seq<EntryView>) -> bool {
    forall|i: int, j: int|
        0 <= i < j < es.len() ==> (#[trigger] es[i]).key != (#[trigger] es[j]).key
}

/// [`position`] is the least index whose entry is named `key`.
pub proof fn lemma_position(es: Seq<EntryView>, key: Seq<char>)
    ensures
        0 <= position(es, key) <= es.len(),
        position(es, key) < es.len() ==> es[position(es, key)].key == key,
        forall|i: int| 0 <= i < position(es, key) ==> (#[trigger] es[i]).key != key,
    decreases es.len(),
{
    if es.len() != 0 && es.first().key != key {
        let rest = es.drop_first();
        lemma_position(rest, key);
        assert forall|i: int| 0 <= i < position(es, key) implies (#[trigger] es[i]).key != key by {
            if i > 0 {
                assert(es[i] == rest[i - 1]);
            }
        }
    }
}

/// An index whose entry is named `key` is [`position`] itself when names are
/// distinct, and bounds it in any case.
pub proof fn lemma_position_of(es: Seq<EntryView>, key: Seq<char>, i: int)
    requires
        0 <= i < es.len(),
        es[i].key == key,
    ensures
        position(es, key) <= i,
        distinct_keys(es) ==> position(es, key) == i,
{
    lemma_position(es, key);
    if position(es, key) > i {
        assert(es[i].key != key);
    }
}

/// Taking out one name leaves what stands under another.
pub proof fn lemma_lookup_remove_other(es: Seq<EntryView>, gone: Seq<char>, key: Seq<char>)
    requires
        gone != key,
    ensures
        lookup(remove(es, gone), key) == lookup(es, key),
{
    lemma_position(es, gone);
    lemma_position(es, key);
    let after = remove(es, gone);
    lemma_position(after, key);
    if contains_key(es, gone) {
        let g = position(es, gone);
        let k = position(es, key);
        let a = position(after, key);
        assert forall|i: int| 0 <= i < after.len() implies #[trigger] after[i] == es[if i < g {
            i
        } else {
            i + 1
        }] by {}
        if k < es.len() {
            let moved = if k < g {
                k
            } else {
                k - 1
            };
            assert(after[moved] == es[k]);
            lemma_position_of(after, key, moved);
            if a < moved {
                assert(es[if a < g {
                    a
                } else {
                    a + 1
                }].key != key);
            }
        } else if a < after.len() {
            assert(es[if a < g {
                a
            } else {
                a + 1
            }].key != key);
        }
    }
}

/// Taking out a name takes it out for good when no name occurs twice, and
/// leaves no name twice.
pub proof fn lemma_remove_distinct(es: Seq<EntryView>, gone: Seq<char>)
    requires
        distinct_keys(es),
    ensures
        distinct_keys(remove(es, gone)),
        !contains_key(remove(es, gone), gone),
{
    lemma_position(es, gone);
    let after = remove(es, gone);
    lemma_position(after, gone);
    if contains_key(es, gone) {
        let g = position(es, gone);
        assert forall|i: int| 0 <= i < after.len() implies #[trigger] after[i] == es[if i < g {
            i
        } else {
            i + 1
        }] by {}
        assert forall|i: int, j: int| 0 <= i < j < after.len() implies (#[trigger] after[i]).key
            != (#[trigger] after[j]).key by {
            let oi = if i < g { i } else { i + 1 };
            let oj = if j < g { j } else { j + 1 };
            assert(es[oi].key != es[oj].key);
        }
        let a = position(after, gone);
        if a < after.len() {
            let oa = if a < g { a } else { a + 1 };
            assert(es[oa].key == gone);
            if oa < g {
                assert(es[oa].key != es[g].key);
            } else {
                assert(es[g].key != es[oa].key);
            }
        }
    }
}

/// What was put under a name stands under it, and what stands under the
/// other names is what stood there before: whether or not a name occurs
/// twice.
pub proof fn lemma_lookup_insert(es: Seq<EntryView>, key: Seq<char>, value: ValueView)
    ensures
        lookup(insert(es, key, value), key) == Some(value),
        forall|other: Seq<char>|
            other != key ==> lookup(insert(es, key, value), other) == lookup(es, other),
{
    lemma_position(es, key);
    let after = insert(es, key, value);
    lemma_position(after, key);
    let at = if contains_key(es, key) { position(es, key) } else { es.len() as int };
    assert(after[at].key == key);
    lemma_position_of(after, key, at);
    if position(after, key) < at {
        assert(es[position(after, key)].key != key);
    }
    assert forall|other: Seq<char>| other != key implies lookup(after, other) == lookup(
        es,
        other,
    ) by {
        lemma_position(es, other);
        lemma_position(after, other);
        let p = position(es, other);
        let q = position(after, other);
        if p < es.len() {
            assert(after[p].key == other);
            lemma_position_of(after, other, p);
            if q < p {
                assert(es[q].key != other);
            }
        } else if q < after.len() {
            if q < es.len() {
                assert(es[q].key != other);
            }
        }
    }
}

/// Putting a value under a name leaves no name twice where none occurred
/// twice before.
pub proof fn lemma_insert_distinct(es: Seq<EntryView>, key: Seq<char>, value: ValueView)
    requires
        distinct_keys(es),
    ensures
        distinct_keys(insert(es, key, value)),
{
    lemma_position(es, key);
    let after = insert(es, key, value);
    assert forall|i: int, j: int| 0 <= i < j < after.len() implies (#[trigger] after[i]).key
        != (#[trigger] after[j]).key by {
        if i < es.len() && j < es.len() {
            assert(es[i].key != es[j].key);
        } else {
            assert(es[i].key != key);
        }
    }
}

/// The texts that `names` hold.
pub open spec fn names_of(names: Seq<&'static str>) -> Seq<Seq<char>> {
    Seq::new(names.len(), |i: int| names[i]@)
}

/// Named values, each name at most once, in the order in which the names
/// first came.
#[derive(Debug)]
pub struct Entries {
    entries: Vec<(String, Value)>,
}

impl View for Entries {
    type V = Seq<EntryView>;

    closed spec fn view(&self) -> Seq<EntryView> {
        Seq::new(
            self.entries@.len(),
            |i: int| EntryView { key: self.entries@[i].0@, value: self.entries@[i].1@ },
        )
    }
}

impl Entries {
    #[verifier::type_invariant]
    closed spec fn names_are_distinct(&self) -> bool {
        distinct_keys(self@)
    }

    /// No entries.
    pub fn new() -> (es: Self)
        ensures
            es@ == Seq::<EntryView>::empty(),
    {
        let es = Entries { entries: Vec::new() };
        assert(es@ =~= Seq::<EntryView>::empty());
        es
    }

    /// How many entries there are.
    pub fn len(&self) -> (n: usize)
        ensures
            n == self@.len(),
    {
        self.entries.len()
    }

    /// Whether there is no entry.
    pub fn is_empty(&self) -> (empty: bool)
        ensures
            empty == (self@.len() == 0),
    {
        self.entries.len() == 0
    }

    /// Where the entry named `key` stands; `len()` if there is none.
    fn find(&self, key: &str) -> (at: usize)
        ensures
            at == position(self@, key@),
            at <= self@.len(),
    {
        let mut i: usize = 0;
        while i < self.entries.len()
            invariant
                0 <= i <= self.entries@.len(),
                forall|j: int| 0 <= j < i ==> (#[trigger] self@[j]).key != key@,
            decreases self.entries@.len() - i,
        {
            if str_eq(self.entries[i].0.as_str(), key) {
                proof {
                    lemma_position(self@, key@);
                    lemma_position_of(self@, key@, i as int);
                    if position(self@, key@) < i {
                        assert(self@[position(self@, key@)].key != key@);
                    }
                }
                return i;
            }
            i += 1;
        }
        proof {
            lemma_position(self@, key@);
            if position(self@, key@) < self@.len() {
                assert(self@[position(self@, key@)].key != key@);
            }
        }
        i
    }

    /// Puts `value` under `key` and hands back what stood there before.
    pub fn insert(&mut self, key: String, value: Value) -> (before: Option<Value>)
        ensures
            final(self)@ == insert(old(self)@, key@, value@),
            distinct_keys(old(self)@),
            distinct_keys(final(self)@),
            match before {
                Some(v) => lookup(old(self)@, key@) == Some(v@),
                None => lookup(old(self)@, key@) is None,
            },
    {
        proof {
            use_type_invariant(&*self);
            lemma_position(self@, key@);
        }
        let at = self.find(key.as_str());
        let mut held: Vec<(String, Value)> = Vec::new();
        std::mem::swap(&mut self.entries, &mut held);
        let before = if at < held.len() {
            let mut pair = (key, value);
            std::mem::swap(&mut held[at], &mut pair);
            Some(pair.1)
        } else {
            held.push((key, value));
            None
        };
        proof {
            let now = Seq::new(
                held@.len(),
                |i: int| EntryView { key: held@[i].0@, value: held@[i].1@ },
            );
            assert(now =~= insert(old(self)@, key@, value@));
            assert(distinct_keys(now)) by {
                assert forall|i: int, j: int| 0 <= i < j < now.len() implies (#[trigger] now[i]).key
                    != (#[trigger] now[j]).key by {
                    if i < old(self)@.len() && j < old(self)@.len() {
                        assert(old(self)@[i].key != old(self)@[j].key);
                    }
                }
            }
        }
        std::mem::swap(&mut self.entries, &mut held);
        assert(self@ =~= insert(old(self)@, key@, value@));
        before
    }

    /// Takes out the value that stands under `key`, if there is one. The other
    /// entries keep their order.
    pub fn remove(&mut self, key: &str) -> (taken: Option<Value>)
        ensures
            final(self)@ == remove(old(self)@, key@),
            distinct_keys(old(self)@),
            distinct_keys(final(self)@),
            match taken {
                Some(v) => lookup(old(self)@, key@) == Some(v@),
                None => lookup(old(self)@, key@) is None,
            },
    {
        proof {
            use_type_invariant(&*self);
        }
        let at = self.find(key);
        if at >= self.entries.len() {
            return None;
        }
        let mut held: Vec<(String, Value)> = Vec::new();
        std::mem::swap(&mut self.entries, &mut held);
        let pair = held.remove(at);
        proof {
            let now = Seq::new(
                held@.len(),
                |i: int| EntryView { key: held@[i].0@, value: held@[i].1@ },
            );
            assert(now =~= remove(old(self)@, key@));
            assert(distinct_keys(now)) by {
                assert forall|i: int, j: int| 0 <= i < j < now.len() implies (#[trigger] now[i]).key
                    != (#[trigger] now[j]).key by {
                    let oi = if i < at { i } else { i + 1 };
                    let oj = if j < at { j } else { j + 1 };
                    assert(old(self)@[oi].key != old(self)@[oj].key);
                }
            }
        }
        std::mem::swap(&mut self.entries, &mut held);
        assert(self@ =~= remove(old(self)@, key@));
        Some(pair.1)
    }

    /// Whether the entries can be stored beside the fields named
    /// `reserved`, which their owner writes itself: each key and value can
    /// be written, and none of the reserved names is a key. That no key
    /// occurs twice holds of all entries.
    pub fn is_storable_beside(&self, reserved: &[&'static str]) -> (storable: bool)
        ensures
            distinct_keys(self@),
            storable == (entries_fit(self@) && forall|i: int|
                0 <= i < reserved@.len() ==> !contains_key(
                    self@,
                    #[trigger] names_of(reserved@)[i],
                )),
    {
        proof {
            use_type_invariant(self);
        }
        let mut r: usize = 0;
        while r < reserved.len()
            invariant
                0 <= r <= reserved@.len(),
                distinct_keys(self@),
                forall|i: int|
                    0 <= i < r ==> !contains_key(self@, #[trigger] names_of(reserved@)[i]),
            decreases reserved@.len() - r,
        {
            if self.contains_key(reserved[r]) {
                assert(contains_key(self@, names_of(reserved@)[r as int]));
                return false;
            }
            r += 1;
        }
        let mut i: usize = 0;
        while i < self.entries.len()
            invariant
                0 <= i <= self@.len(),
                self@.len() == self.entries@.len(),
                distinct_keys(self@),
                forall|j: int| 0 <= j < i ==> entry_fits(#[trigger] self@[j]),
            decreases self@.len() - i,
        {
            if self.entries[i].0.as_str().as_bytes().len() > MAX_PAYLOAD_LENGTH
                || self.entries[i].1.inner().len() > MAX_PAYLOAD_LENGTH {
                assert(!entry_fits(self@[i as int]));
                return false;
            }
            i += 1;
        }
        true
    }

    /// Looks for each of `names`, in their order, and stops at the first
    /// that is missing or stands for a secret value.
    pub fn require_public(&self, names: &[&'static str]) -> (checked: Result<(), ParseError>)
        ensures
            match checked {
                Ok(_) => first_public_violation(self@, names_of(names@)) is None,
                Err(e) => first_public_violation(self@, names_of(names@)) == Some(e@),
            },
    {
        let ghost all = names_of(names@);
        let mut i: usize = 0;
        proof {
            assert(all.skip(0) =~= all);
        }
        while i < names.len()
            invariant
                0 <= i <= names@.len(),
                all == names_of(names@),
                first_public_violation(self@, all) == first_public_violation(
                    self@,
                    all.skip(i as int),
                ),
            decreases names@.len() - i,
        {
            let name: &'static str = names[i];
            proof {
                assert(all.skip(i as int).first() == name@);
                assert(all.skip(i as int).drop_first() =~= all.skip(i + 1));
            }
            match self.get(name) {
                None => {
                    return Err(ParseError::MissingRequiredField(name.to_owned()));
                },
                Some(value) => {
                    if value.is_secret() {
                        return Err(ParseError::ForbiddenSecretField(name.to_owned()));
                    }
                },
            }
            i += 1;
        }
        Ok(())
    }

    /// Looks for each of `names`, in their order, and stops at the first
    /// that is missing or stands for a public value.
    pub fn require_secret(&self, names: &[&'static str]) -> (checked: Result<(), ParseError>)
        ensures
            match checked {
                Ok(_) => first_secret_violation(self@, names_of(names@)) is None,
                Err(e) => first_secret_violation(self@, names_of(names@)) == Some(e@),
            },
    {
        let ghost all = names_of(names@);
        let mut i: usize = 0;
        proof {
            assert(all.skip(0) =~= all);
        }
        while i < names.len()
            invariant
                0 <= i <= names@.len(),
                all == names_of(names@),
                first_secret_violation(self@, all) == first_secret_violation(
                    self@,
                    all.skip(i as int),
                ),
            decreases names@.len() - i,
        {
            let name: &'static str = names[i];
            proof {
                assert(all.skip(i as int).first() == name@);
                assert(all.skip(i as int).drop_first() =~= all.skip(i + 1));
            }
            match self.get(name) {
                None => {
                    return Err(ParseError::MissingRequiredField(name.to_owned()));
                },
                Some(value) => {
                    if !value.is_secret() {
                        return Err(ParseError::ForbiddenNonSecretField(name.to_owned()));
                    }
                },
            }
            i += 1;
        }
        Ok(())
    }

    /// The name of the entry at `index`, counted in the entries' order.
    pub fn key_at(&self, index: usize) -> (key: Option<&String>)
        ensures
            match key {
                Some(k) => index < self@.len() && k@ == self@[index as int].key,
                None => index >= self@.len(),
            },
    {
        if index < self.entries.len() {
            Some(&self.entries[index].0)
        } else {
            None
        }
    }

    /// The value of the entry at `index`, counted in the entries' order.
    pub fn value_at(&self, index: usize) -> (value: Option<&Value>)
        ensures
            match value {
                Some(v) => index < self@.len() && v@ == self@[index as int].value,
                None => index >= self@.len(),
            },
    {
        if index < self.entries.len() {
            Some(&self.entries[index].1)
        } else {
            None
        }
    }

    /// Appends the entries as they are written, one after the other. After a
    /// failure `out` holds what had been written until then.
    pub(crate) fn write_to(&self, out: &mut Vec<u8>) -> (done: Result<(), SerializeError>)
        ensures
            match done {
                Ok(_) => entries_fit(self@) && final(out)@ == old(out)@ + entries_bytes(self@),
                Err(_) => !entries_fit(self@),
            },
    {
        let mut i: usize = 0;
        proof {
            assert(self@.subrange(0, 0) =~= Seq::<EntryView>::empty());
            assert(old(out)@ + entries_bytes(Seq::<EntryView>::empty()) =~= old(out)@);
        }
        while i < self.entries.len()
            invariant
                0 <= i <= self@.len(),
                self@.len() == self.entries@.len(),
                entries_fit(self@.subrange(0, i as int)),
                out@ == old(out)@ + entries_bytes(self@.subrange(0, i as int)),
            decreases self@.len() - i,
        {
            let ghost done_before = self@.subrange(0, i as int);
            let ghost e = self@[i as int];
            let ghost written = out@;
            match write_payload(out, self.entries[i].0.as_str().as_bytes(), false) {
                Ok(()) => {},
                Err(err) => {
                    assert(!entry_fits(e));
                    return Err(err);
                },
            }
            match write_payload(out, self.entries[i].1.inner(), self.entries[i].1.is_secret()) {
                Ok(()) => {},
                Err(err) => {
                    assert(!entry_fits(e));
                    return Err(err);
                },
            }
            i += 1;
            proof {
                assert(self@.subrange(0, i as int) =~= done_before.push(e));
                lemma_entries_bytes_push(done_before, e);
                assert(out@ =~= written + entry_bytes(e));
                assert(out@ =~= old(out)@ + entries_bytes(self@.subrange(0, i as int)));
                assert(entries_fit(self@.subrange(0, i as int))) by {
                    assert forall|j: int| 0 <= j < i implies entry_fits(
                        #[trigger] self@.subrange(0, i as int)[j],
                    ) by {
                        if j < i - 1 {
                            assert(done_before[j] == self@.subrange(0, i as int)[j]);
                        }
                    }
                }
            }
        }
        assert(self@.subrange(0, i as int) =~= self@);
        Ok(())
    }

    /// The entries as they are written, one after the other.
    pub fn to_bytes(&self) -> (out: Result<Vec<u8>, SerializeError>)
        ensures
            match out {
                Ok(bytes) => entries_fit(self@) && bytes@ == entries_bytes(self@),
                Err(_) => !entries_fit(self@),
            },
    {
        let mut bytes: Vec<u8> = Vec::new();
        match self.write_to(&mut bytes) {
            Ok(()) => {
                assert(Seq::<u8>::empty() + entries_bytes(self@) =~= entries_bytes(self@));
                Ok(bytes)
            },
            Err(e) => Err(e),
        }
    }

    /// Whether a value stands under `key`.
    pub fn contains_key(&self, key: &str) -> (found: bool)
        ensures
            found == contains_key(self@, key@),
    {
        self.find(key) < self.entries.len()
    }

    /// The value that stands under `key`.
    pub fn get(&self, key: &str) -> (found: Option<&Value>)
        ensures
            match found {
                Some(v) => lookup(self@, key@) == Some(v@),
                None => lookup(self@, key@) is None,
            },
    {
        let at = self.find(key);
        if at < self.entries.len() {
            Some(&self.entries[at].1)
        } else {
            None
        }
    }
}

} // verus!
