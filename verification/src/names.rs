//! A set of test names.

use vstd::prelude::*;
use vstd::hash_set::StringHashSet;
use crate::histogram::StatusHistogram;
use crate::model::not_test_of;

verus! {

/// The texts of a list of names.
pub open spec fn texts(names: Seq<String>) -> Seq<Seq<char>> {
    names.map_values(|s: String| s@)
}

/// A set of test names. The names are kept in the order in which they were
/// first inserted.
pub struct TestNameSet {
    names: Vec<String>,
    index: StringHashSet,
}

impl View for TestNameSet {
    type V = Set<Seq<char>>;

    closed spec fn view(&self) -> Set<Seq<char>> {
        self.index@
    }
}

impl TestNameSet {
    /// The list holds each name of the set once, and nothing else.
    pub closed spec fn wf(&self) -> bool {
        &&& texts(self.names@).no_duplicates()
        &&& forall|n: Seq<char>| self.index@.contains(n) <==> texts(self.names@).contains(n)
    }

    /// The names of the set in the order of insertion.
    pub closed spec fn listed(&self) -> Seq<Seq<char>> {
        texts(self.names@)
    }

    /// The list holds each name of the set once, so the set is finite.
    pub proof fn lemma_wf(&self)
        requires
            self.wf(),
        ensures
            self.listed().no_duplicates(),
            self.listed().to_set() == self@,
            self@.finite(),
            self@.len() == self.listed().len(),
    {
        let list = texts(self.names@);
        list.unique_seq_to_set();
    }

    /// The empty set.
    pub fn new() -> (r: Self)
        ensures
            r.wf(),
            r@ == Set::<Seq<char>>::empty(),
            r.listed() == Seq::<Seq<char>>::empty(),
    {
        TestNameSet { names: Vec::new(), index: StringHashSet::new() }
    }

    /// Adds `name` to the set. Returns whether it was new.
    pub fn insert(&mut self, name: String) -> (fresh: bool)
        requires
            old(self).wf(),
        ensures
            final(self).wf(),
            final(self)@ == old(self)@.insert(name@),
            fresh == !old(self)@.contains(name@),
            final(self).listed() == if fresh {
                old(self).listed().push(name@)
            } else {
                old(self).listed()
            },
    {
        if self.index.contains(name.as_str()) {
            false
        } else {
            let key = name.clone();
            self.index.insert(key);
            self.names.push(name);
            proof {
                let before = texts(old(self).names@);
                let after = texts(self.names@);
                assert(after =~= before.push(name@));
                assert forall|n: Seq<char>| self.index@.contains(n) <==> after.contains(
                    n,
                ) by {
                    if before.contains(n) {
                        let i = choose|i: int| 0 <= i < before.len() && before[i] == n;
                        assert(after[i] == n);
                    }
                    if n == name@ {
                        assert(after[before.len() as int] == n);
                    }
                }
            }
            true
        }
    }

    /// True when `name` is in the set.
    pub fn contains(&self, name: &str) -> (b: bool)
        ensures
            b == self@.contains(name@),
    {
        self.index.contains(name)
    }

    /// The number of names.
    pub fn len(&self) -> (n: usize)
        requires
            self.wf(),
        ensures
            n == self@.len(),
    {
        proof {
            self.lemma_wf();
        }
        self.names.len()
    }

    /// True when the set holds no name.
    pub fn is_empty(&self) -> (b: bool)
        requires
            self.wf(),
        ensures
            b == (self@ == Set::<Seq<char>>::empty()),
    {
        proof {
            self.lemma_wf();
            if self.names@.len() == 0 {
                assert(self@ =~= Set::<Seq<char>>::empty());
            }
        }
        self.names.len() == 0
    }

    /// The names of the set, each once, in the order of insertion.
    pub fn names(&self) -> (r: &Vec<String>)
        requires
            self.wf(),
        ensures
            texts(r@) == self.listed(),
            texts(r@).no_duplicates(),
            texts(r@).to_set() == self@,
    {
        &self.names
    }

    /// The names of the set that are no test of `hist`, in the order that
    /// they have in this set.
    pub fn without_tests_of(&self, hist: &StatusHistogram) -> (r: TestNameSet)
        requires
            self.wf(),
        ensures
            r.wf(),
            r@ == self@.difference(hist@.dom()),
            r.listed() == self.listed().filter(not_test_of(hist@)),
    {
        let mut out = TestNameSet::new();
        let mut k: usize = 0;
        proof {
            reveal(Seq::filter);
        }
        while k < self.names.len()
            invariant
                k <= self.names@.len(),
                self.wf(),
                out.wf(),
                forall|n: Seq<char>|
                    out@.contains(n) <==> !hist@.contains_key(n) && texts(self.names@).take(
                        k as int,
                    ).contains(n),
                out.listed() == texts(self.names@).take(k as int).filter(not_test_of(hist@)),
            decreases self.names@.len() - k,
        {
            let name = &self.names[k];
            let ghost list = texts(self.names@);
            if !hist.contains(name.as_str()) {
                out.insert(name.clone());
            }
            proof {
                assert(list.take(k + 1).drop_last() =~= list.take(k as int));
                reveal(Seq::filter);
                assert(out.listed() == list.take(k + 1).filter(not_test_of(hist@)));
                assert forall|n: Seq<char>|
                    out@.contains(n) <==> !hist@.contains_key(n) && list.take(k + 1).contains(
                        n,
                    ) by {
                    if list.take(k as int).contains(n) {
                        let i = choose|i: int|
                            0 <= i < list.take(k as int).len() && list.take(k as int)[i] == n;
                        assert(list.take(k + 1)[i] == n);
                    }
                }
            }
            k = k + 1;
        }
        proof {
            assert(texts(self.names@).take(k as int) =~= texts(self.names@));
        }
        out
    }
}

} // verus!
