//! Names bound to algorithms: what the registries of digests and ciphers
//! share.
use vstd::prelude::*;
use crate::util::str_eq;

verus! {

/// What `bindings` give for `name`: the algorithm bound to that name, and
/// that of the last binding where a name stands more than once.
pub open spec fn bound<F>(bindings: Seq<(Seq<char>, F)>, name: Seq<char>) -> Option<F>
    decreases bindings.len(),
{
    if bindings.len() == 0 {
        None
    } else if bindings.last().0 == name {
        Some(bindings.last().1)
    } else {
        bound(bindings.drop_last(), name)
    }
}

/// Where the first binding of `name` stands in `bindings`;
/// `bindings.len()` if there is none.
pub open spec fn index_of<F>(bindings: Seq<(Seq<char>, F)>, name: Seq<char>) -> int
    decreases bindings.len(),
{
    if bindings.len() == 0 {
        0
    } else if bindings.first().0 == name {
        0
    } else {
        1 + index_of(bindings.drop_first(), name)
    }
}

/// No name is bound twice in `bindings`.
pub open spec fn bound_once<F>(bindings: Seq<(Seq<char>, F)>) -> bool {
    forall|i: int, j: int|
        0 <= i < j < bindings.len() ==> (#[trigger] bindings[i]).0 != (#[trigger] bindings[j]).0
}

/// `bindings` with `name` bound to `f`: in the place of the binding of that
/// name if there is one, behind the others if not.
pub open spec fn rebind<F>(bindings: Seq<(Seq<char>, F)>, name: Seq<char>, f: F) -> Seq<
    (Seq<char>, F),
> {
    if index_of(bindings, name) < bindings.len() {
        bindings.update(index_of(bindings, name), (name, f))
    } else {
        bindings.push((name, f))
    }
}

/// [`index_of`] is the least index at which `name` is bound.
pub proof fn lemma_index_of<F>(bindings: Seq<(Seq<char>, F)>, name: Seq<char>)
    ensures
        0 <= index_of(bindings, name) <= bindings.len(),
        index_of(bindings, name) < bindings.len() ==> bindings[index_of(bindings, name)].0 == name,
        forall|i: int| 0 <= i < index_of(bindings, name) ==> (#[trigger] bindings[i]).0 != name,
    decreases bindings.len(),
{
    if bindings.len() != 0 && bindings.first().0 != name {
        let rest = bindings.drop_first();
        lemma_index_of(rest, name);
        assert forall|i: int| 0 <= i < index_of(bindings, name) implies (
        #[trigger] bindings[i]).0 != name by {
            if i > 0 {
                assert(bindings[i] == rest[i - 1]);
            }
        }
    }
}

/// What is bound to a name is the algorithm of the last binding of that
/// name, and nothing is bound to a name that has no binding.
pub proof fn lemma_bound<F>(bindings: Seq<(Seq<char>, F)>, name: Seq<char>)
    ensures
        match bound(bindings, name) {
            Some(f) => exists|i: int|
                0 <= i < bindings.len() && (#[trigger] bindings[i]) == (name, f) && forall|j: int|
                    i < j < bindings.len() ==> (#[trigger] bindings[j]).0 != name,
            None => forall|i: int| 0 <= i < bindings.len() ==> (#[trigger] bindings[i]).0 != name,
        },
    decreases bindings.len(),
{
    if bindings.len() != 0 {
        let front = bindings.drop_last();
        let last = bindings.len() - 1;
        if bindings.last().0 == name {
            assert(bindings[last] == (name, bindings.last().1));
        } else {
            lemma_bound(front, name);
            match bound(front, name) {
                Some(f) => {
                    let i = choose|i: int|
                        0 <= i < front.len() && (#[trigger] front[i]) == (name, f) && forall|j: int|
                            i < j < front.len() ==> (#[trigger] front[j]).0 != name;
                    assert(bindings[i] == (name, f));
                    assert forall|j: int| i < j < bindings.len() implies (
                    #[trigger] bindings[j]).0 != name by {
                        if j < last {
                            assert(front[j].0 != name);
                        }
                    }
                },
                None => {
                    assert forall|i: int| 0 <= i < bindings.len() implies (
                    #[trigger] bindings[i]).0 != name by {
                        if i < last {
                            assert(front[i].0 != name);
                        }
                    }
                },
            }
        }
    }
}

/// Binding a name anew keeps every name bound once, binds the name to the
/// new algorithm in the place of the one that was bound to it, and leaves
/// what is bound to the other names.
pub proof fn lemma_rebind<F>(bindings: Seq<(Seq<char>, F)>, name: Seq<char>, f: F)
    requires
        bound_once(bindings),
    ensures
        bound_once(rebind(bindings, name, f)),
        bound(rebind(bindings, name, f), name) == Some(f),
        forall|other: Seq<char>|
            other != name ==> bound(rebind(bindings, name, f), other) == bound(bindings, other),
        rebind(bindings, name, f).len() == if bound(bindings, name) is Some {
            bindings.len()
        } else {
            bindings.len() + 1
        },
{
    let after = rebind(bindings, name, f);
    lemma_index_of(bindings, name);
    let at = index_of(bindings, name);
    assert(after[at] == (name, f));
    assert forall|i: int| 0 <= i < after.len() && i != at implies (#[trigger] after[i])
        == bindings[i] && after[i].0 != name by {
        if at < bindings.len() {
            if i < at {
                assert(bindings[i].0 != bindings[at].0);
            } else {
                assert(bindings[at].0 != bindings[i].0);
            }
        }
    }
    assert(bound_once(after)) by {
        assert forall|i: int, j: int| 0 <= i < j < after.len() implies (#[trigger] after[i]).0 != (
        #[trigger] after[j]).0 by {
            if i != at && j != at {
                assert(bindings[i].0 != bindings[j].0);
            }
        }
    }
    lemma_bound(after, name);
    lemma_bound(bindings, name);
    if bound(bindings, name) is None && at < bindings.len() {
        assert(bindings[at].0 != name);
    }
    if bound(bindings, name) is Some && at >= bindings.len() {
        let g = bound(bindings, name).unwrap();
        let i = choose|i: int| 0 <= i < bindings.len() && (#[trigger] bindings[i]) == (name, g);
        assert(bindings[i].0 != name);
    }
    assert forall|other: Seq<char>| other != name implies bound(after, other) == bound(
        bindings,
        other,
    ) by {
        lemma_bound(after, other);
        lemma_bound(bindings, other);
        match bound(bindings, other) {
            Some(g) => {
                let i = choose|i: int|
                    0 <= i < bindings.len() && (#[trigger] bindings[i]) == (other, g) && forall|
                        j: int,
                    |
                        i < j < bindings.len() ==> (#[trigger] bindings[j]).0 != other;
                assert(after[i] == bindings[i]);
                match bound(after, other) {
                    Some(h) => {
                        let k = choose|k: int|
                            0 <= k < after.len() && (#[trigger] after[k]) == (other, h) && forall|
                                j: int,
                            |
                                k < j < after.len() ==> (#[trigger] after[j]).0 != other;
                        assert(after[k] == bindings[k]);
                        if k < i {
                            assert(after[i].0 != other);
                        } else if i < k {
                            assert(bindings[k].0 != other);
                        }
                    },
                    None => {
                        assert(after[i].0 != other);
                    },
                }
            },
            None => {
                if let Some(h) = bound(after, other) {
                    let k = choose|k: int|
                        0 <= k < after.len() && (#[trigger] after[k]) == (other, h);
                    assert(after[k] == bindings[k]);
                    assert(bindings[k].0 != other);
                }
            },
        }
    }
}

/// Bindings of names to algorithms, each name bound once, in the order in
/// which the names were first bound.
#[derive(Debug)]
pub struct Bindings<F> {
    bound: Vec<(String, F)>,
}

impl<F> View for Bindings<F> {
    type V = Seq<(Seq<char>, F)>;

    closed spec fn view(&self) -> Seq<(Seq<char>, F)> {
        Seq::new(self.bound@.len(), |i: int| (self.bound@[i].0@, self.bound@[i].1))
    }
}

impl<F> Bindings<F> {
    #[verifier::type_invariant]
    closed spec fn names_are_bound_once(&self) -> bool {
        bound_once(self@)
    }
}

impl<F: Copy> Bindings<F> {
    /// No bindings.
    pub fn new() -> (bindings: Self)
        ensures
            bindings@ == Seq::<(Seq<char>, F)>::empty(),
    {
        let bindings = Self { bound: Vec::new() };
        assert(bindings@ =~= Seq::<(Seq<char>, F)>::empty());
        bindings
    }

    /// Where the binding of `name` stands; as many as there are bindings if
    /// there is none.
    fn position(&self, name: &str) -> (at: usize)
        ensures
            at == index_of(self@, name@),
            at <= self@.len(),
    {
        let mut i: usize = 0;
        while i < self.bound.len()
            invariant
                0 <= i <= self.bound@.len(),
                forall|j: int| 0 <= j < i ==> (#[trigger] self@[j]).0 != name@,
            decreases self.bound@.len() - i,
        {
            if str_eq(self.bound[i].0.as_str(), name) {
                proof {
                    lemma_index_of(self@, name@);
                    if index_of(self@, name@) < i {
                        assert(self@[index_of(self@, name@)].0 != name@);
                    } else if index_of(self@, name@) > i {
                        assert(self@[i as int].0 != name@);
                    }
                }
                return i;
            }
            i += 1;
        }
        proof {
            lemma_index_of(self@, name@);
            if index_of(self@, name@) < self@.len() {
                assert(self@[index_of(self@, name@)].0 != name@);
            }
        }
        i
    }

    /// Binds `name` to `f`: in the place of what was bound to that name, or
    /// behind the bindings that are there.
    pub fn bind(&mut self, name: &str, f: F)
        ensures
            final(self)@ == rebind(old(self)@, name@, f),
            bound_once(final(self)@),
            bound(final(self)@, name@) == Some(f),
            forall|other: Seq<char>|
                other != name@ ==> bound(final(self)@, other) == bound(old(self)@, other),
    {
        proof {
            use_type_invariant(&*self);
            lemma_rebind(self@, name@, f);
        }
        let at = self.position(name);
        let mut held: Vec<(String, F)> = Vec::new();
        std::mem::swap(&mut self.bound, &mut held);
        if at < held.len() {
            let mut pair = (name.to_owned(), f);
            std::mem::swap(&mut held[at], &mut pair);
        } else {
            held.push((name.to_owned(), f));
        }
        proof {
            let now = Seq::new(held@.len(), |i: int| (held@[i].0@, held@[i].1));
            assert(now =~= rebind(old(self)@, name@, f));
        }
        std::mem::swap(&mut self.bound, &mut held);
        assert(self@ =~= rebind(old(self)@, name@, f));
    }

    /// The algorithm bound to `name`, if there is one.
    pub fn find(&self, name: &str) -> (found: Option<F>)
        ensures
            found == bound(self@, name@),
    {
        let mut i: usize = self.bound.len();
        proof {
            assert(self@.subrange(0, i as int) =~= self@);
        }
        while i > 0
            invariant
                0 <= i <= self@.len(),
                self@.len() == self.bound@.len(),
                bound(self@, name@) == bound(self@.subrange(0, i as int), name@),
            decreases i,
        {
            i -= 1;
            proof {
                assert(self@.subrange(0, i + 1).drop_last() =~= self@.subrange(0, i as int));
            }
            if str_eq(self.bound[i].0.as_str(), name) {
                return Some(self.bound[i].1);
            }
        }
        None
    }

    /// The names, each once, in the order in which they were first bound.
    pub fn names(&self) -> (names: Vec<&String>)
        ensures
            bound_once(self@),
            names@.len() == self@.len(),
            forall|i: int| 0 <= i < names@.len() ==> (#[trigger] names@[i])@ == self@[i].0,
            forall|i: int, j: int|
                0 <= i < j < names@.len() ==> (#[trigger] names@[i])@ != (#[trigger] names@[j])@,
    {
        proof {
            use_type_invariant(self);
        }
        let mut names: Vec<&String> = Vec::new();
        let mut i: usize = 0;
        while i < self.bound.len()
            invariant
                0 <= i <= self@.len(),
                self@.len() == self.bound@.len(),
                names@.len() == i,
                forall|j: int| 0 <= j < i ==> (#[trigger] names@[j])@ == self@[j].0,
            decreases self@.len() - i,
        {
            names.push(&self.bound[i].0);
            i += 1;
        }
        proof {
            assert forall|i: int, j: int| 0 <= i < j < names@.len() implies (#[trigger] names@[i])@
                != (#[trigger] names@[j])@ by {
                assert(self@[i].0 != self@[j].0);
            }
        }
        names
    }
}

} // verus!
