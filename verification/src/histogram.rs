//! The executable histogram: a table from test name to status counts.

use vstd::prelude::*;
use vstd::hash_map::StringHashMap;
use crate::counts::{count_in, lemma_status_keys, TestStatusCounts};
use crate::error::AnalysisError;
use crate::lemmas::{lemma_column_sum_prefix, lemma_column_sum_step};
use crate::model::{
    column_sum,
    column_totals,
    count_at,
    entries_nonempty,
    first_empty,
    intermittent_entries,
    intermittent_in,
    is_intermittent,
    table_at,
    Histogram,
};
use crate::status::TestStatus;

verus! {

/// One test of a histogram with its count table.
#[derive(Debug, PartialEq, Eq)]
pub struct HistogramEntry {
    pub name: String,
    pub counts: TestStatusCounts,
}

/// A table from test name to status counts. The tests are kept in the order
/// in which they were first recorded.
pub struct StatusHistogram {
    entries: Vec<HistogramEntry>,
    index: StringHashMap<usize>,
}

impl View for StatusHistogram {
    type V = Histogram;

    closed spec fn view(&self) -> Histogram {
        Map::new(
            |n: Seq<char>| self.index@.contains_key(n),
            |n: Seq<char>| self.entries@[self.index@[n] as int].counts@,
        )
    }
}

impl StatusHistogram {
    /// The index finds each entry by its name, and nothing else.
    pub closed spec fn wf(&self) -> bool {
        &&& forall|i: int|
            #![trigger self.entries@[i]]
            0 <= i < self.entries@.len() ==> self.index@.contains_key(self.entries@[i].name@)
                && self.index@[self.entries@[i].name@] == i
        &&& forall|n: Seq<char>| #[trigger]
            self.index@.contains_key(n) ==> self.index@[n] < self.entries@.len()
                && self.entries@[self.index@[n] as int].name@ == n
    }

    /// The tests of the histogram in the order of their first recording.
    pub closed spec fn listed(&self) -> Seq<Seq<char>> {
        self.entries@.map_values(|e: HistogramEntry| e.name@)
    }

    /// The names list every key of the histogram once, and every count that
    /// the histogram holds is positive and fits the counter.
    pub proof fn lemma_wf(&self)
        requires
            self.wf(),
        ensures
            self.listed().no_duplicates(),
            forall|n: Seq<char>| self.listed().contains(n) <==> self@.contains_key(n),
            self@.dom().finite(),
            self@.dom().len() == self.listed().len(),
            forall|n: Seq<char>, s: TestStatus|
                self@.contains_key(n) && self@[n].contains_key(s) ==> 0 < #[trigger] self@[n][s]
                    <= u32::MAX,
            forall|n: Seq<char>, s: TestStatus| #[trigger] count_at(self@, n, s) <= u32::MAX,
    {
        let names = self.listed();
        assert forall|n: Seq<char>| names.contains(n) <==> self@.contains_key(n) by {
            if self@.contains_key(n) {
                assert(names[self.index@[n] as int] == n);
            }
        }
        assert(self@.dom() =~= names.to_set());
        names.unique_seq_to_set();
        assert forall|n: Seq<char>, s: TestStatus|
            self@.contains_key(n) && self@[n].contains_key(s) implies 0 < #[trigger] self@[n][s]
            <= u32::MAX by {
            self.entries@[self.index@[n] as int].counts.lemma_view();
        }
    }

    /// The histogram without any test.
    pub fn new() -> (r: Self)
        ensures
            r.wf(),
            r@ == Map::<Seq<char>, Map<TestStatus, nat>>::empty(),
            r.listed() == Seq::<Seq<char>>::empty(),
    {
        StatusHistogram { entries: Vec::new(), index: StringHashMap::new() }
    }

    /// The number of tests.
    pub fn len(&self) -> (n: usize)
        requires
            self.wf(),
        ensures
            n == self@.dom().len(),
            n == self.listed().len(),
    {
        proof {
            self.lemma_wf();
        }
        self.entries.len()
    }

    /// True when the histogram holds no test.
    pub fn is_empty(&self) -> (b: bool)
        requires
            self.wf(),
        ensures
            b == (self@ == Map::<Seq<char>, Map<TestStatus, nat>>::empty()),
    {
        proof {
            self.lemma_wf();
            if self.entries@.len() == 0 {
                assert(self@ =~= Map::<Seq<char>, Map<TestStatus, nat>>::empty());
            }
        }
        self.entries.len() == 0
    }

    /// True when `name` is a test of the histogram.
    pub fn contains(&self, name: &str) -> (b: bool)
        ensures
            b == self@.contains_key(name@),
    {
        self.index.contains_key(name)
    }

    /// The count table of `name`, where it is a test of the histogram.
    pub fn get(&self, name: &str) -> (r: Option<&TestStatusCounts>)
        requires
            self.wf(),
        ensures
            match r {
                Some(counts) => self@.contains_key(name@) && counts@ == self@[name@],
                None => !self@.contains_key(name@),
            },
    {
        match self.index.get(name) {
            Some(i) => Some(&self.entries[*i].counts),
            None => None,
        }
    }

    /// The tests with their count tables, in the order of `listed`.
    pub fn entries(&self) -> (r: &Vec<HistogramEntry>)
        requires
            self.wf(),
        ensures
            r@.len() == self.listed().len(),
            forall|i: int|
                0 <= i < r@.len() ==> (#[trigger] r@[i]).name@ == self.listed()[i]
                    && self@.contains_key(r@[i].name@) && self@[r@[i].name@] == r@[i].counts@,
    {
        &self.entries
    }

    /// Counts one more observation of `name` with `status`. A test that was
    /// no key becomes one, with `status` as its only status.
    pub fn record(&mut self, name: &str, status: TestStatus)
        requires
            old(self).wf(),
            count_at(old(self)@, name@, status) < u32::MAX,
        ensures
            final(self).wf(),
            final(self)@ == old(self)@.insert(
                name@,
                table_at(old(self)@, name@).insert(
                    status,
                    count_at(old(self)@, name@, status) + 1,
                ),
            ),
            final(self).listed() == if old(self)@.contains_key(name@) {
                old(self).listed()
            } else {
                old(self).listed().push(name@)
            },
            entries_nonempty(old(self)@) ==> entries_nonempty(final(self)@),
    {
        let found: Option<usize> = match self.index.get(name) {
            Some(i) => Some(*i),
            None => None,
        };
        match found {
            Some(i) => {
                self.entries[i].counts.increment(status);
            },
            None => {
                let i: usize = self.entries.len();
                let mut counts = TestStatusCounts::new();
                counts.increment(status);
                self.entries.push(HistogramEntry { name: name.to_owned(), counts });
                self.index.insert(name.to_owned(), i);
            },
        }
        proof {
            let grown = table_at(old(self)@, name@).insert(
                status,
                count_at(old(self)@, name@, status) + 1,
            );
            assert(self@ =~= old(self)@.insert(name@, grown));
            assert(grown.contains_key(status));
        }
    }

    /// Sets the count table of `name`, which becomes a test of the histogram
    /// if it was none.
    pub fn insert(&mut self, name: String, counts: TestStatusCounts)
        requires
            old(self).wf(),
        ensures
            final(self).wf(),
            final(self)@ == old(self)@.insert(name@, counts@),
            final(self).listed() == if old(self)@.contains_key(name@) {
                old(self).listed()
            } else {
                old(self).listed().push(name@)
            },
    {
        let found: Option<usize> = match self.index.get(name.as_str()) {
            Some(i) => Some(*i),
            None => None,
        };
        match found {
            Some(i) => {
                self.entries[i].counts = counts;
            },
            None => {
                let i: usize = self.entries.len();
                let key = name.clone();
                self.entries.push(HistogramEntry { name, counts });
                self.index.insert(key, i);
            },
        }
    }

    /// The intermittent tests with their count tables: those that were seen
    /// with more than one status. A test that was seen many times with one
    /// status is none. A test without any status is a defect of the
    /// histogram and is reported, not passed over.
    pub fn intermittents(&self) -> (r: Result<StatusHistogram, AnalysisError>)
        requires
            self.wf(),
        ensures
            r is Ok <==> entries_nonempty(self@),
            match r {
                Ok(h) => h.wf() && h@ == intermittent_entries(self@) && h.listed()
                    == self.listed().filter(intermittent_in(self@)),
                Err(e) => e matches AnalysisError::EmptyEntry { test_name } && first_empty(
                    self@,
                    self.listed(),
                    test_name@,
                ),
            },
    {
        let ghost names = self.listed();
        let mut out = StatusHistogram::new();
        proof {
            reveal(Seq::filter);
        }
        let mut k: usize = 0;
        while k < self.entries.len()
            invariant
                k <= self.entries@.len(),
                self.wf(),
                out.wf(),
                forall|i: int|
                    0 <= i < k ==> (#[trigger] self.entries@[i]).counts@ != Map::<
                        TestStatus,
                        nat,
                    >::empty(),
                forall|n: Seq<char>|
                    #[trigger] out@.contains_key(n) <==> self@.contains_key(n) && self.index@[n]
                        < k && is_intermittent(self@[n]),
                forall|n: Seq<char>| out@.contains_key(n) ==> #[trigger] out@[n] == self@[n],
                names == self.listed(),
                out.listed() == names.take(k as int).filter(intermittent_in(self@)),
            decreases self.entries@.len() - k,
        {
            let entry = &self.entries[k];
            let distinct: usize = entry.counts.len();
            proof {
                lemma_status_keys(entry.counts@);
                assert(self@[entry.name@] == entry.counts@);
                assert(names[k as int] == entry.name@);
            }
            if distinct == 0 {
                return Err(AnalysisError::EmptyEntry { test_name: entry.name.clone() });
            }
            if distinct > 1 {
                out.insert(entry.name.clone(), entry.counts);
            }
            proof {
                assert(names.take(k + 1).drop_last() =~= names.take(k as int));
                reveal(Seq::filter);
            }
            k = k + 1;
        }
        proof {
            assert(names.take(k as int) =~= names);
        }
        Ok(out)
    }

    /// The totals per status: for each status the sum of its counts over all
    /// tests. A test without any status is a defect of the histogram and is
    /// reported, not passed over.
    pub fn status_totals(&self) -> (r: Result<TestStatusCounts, AnalysisError>)
        requires
            self.wf(),
            forall|s: TestStatus| #[trigger] column_sum(self@, self.listed(), s) <= u32::MAX,
        ensures
            r is Ok <==> entries_nonempty(self@),
            match r {
                Ok(totals) => totals@ == column_totals(self@, self.listed()),
                Err(e) => e matches AnalysisError::EmptyEntry { test_name } && first_empty(
                    self@,
                    self.listed(),
                    test_name@,
                ),
            },
    {
        let ghost names = self.listed();
        let mut totals = TestStatusCounts::new();
        let mut k: usize = 0;
        while k < self.entries.len()
            invariant
                k <= self.entries@.len(),
                self.wf(),
                names == self.listed(),
                forall|s: TestStatus| #[trigger] column_sum(self@, names, s) <= u32::MAX,
                forall|i: int|
                    0 <= i < k ==> (#[trigger] self.entries@[i]).counts@ != Map::<
                        TestStatus,
                        nat,
                    >::empty(),
                forall|s: TestStatus| #[trigger]
                    count_in(totals@, s) == column_sum(self@, names.take(k as int), s),
            decreases self.entries@.len() - k,
        {
            let entry = &self.entries[k];
            proof {
                assert(self@[entry.name@] == entry.counts@);
                assert(names[k as int] == entry.name@);
            }
            if entry.counts.is_empty() {
                return Err(AnalysisError::EmptyEntry { test_name: entry.name.clone() });
            }
            proof {
                assert forall|s: TestStatus| #[trigger]
                    count_in(totals@, s) + count_in(entry.counts@, s) <= u32::MAX by {
                    lemma_column_sum_step(self@, names, k as int, s);
                    lemma_column_sum_prefix(self@, names, k + 1, s);
                }
            }
            totals.merge(&entry.counts);
            proof {
                assert forall|s: TestStatus| #[trigger]
                    count_in(totals@, s) == column_sum(self@, names.take(k + 1), s) by {
                    lemma_column_sum_step(self@, names, k as int, s);
                }
            }
            k = k + 1;
        }
        proof {
            assert(names.take(k as int) =~= names);
            totals.lemma_view();
            assert forall|s: TestStatus|
                totals@.contains_key(s) <==> column_sum(self@, names, s) > 0 by {
                assert(count_in(totals@, s) == column_sum(self@, names, s));
            }
            assert forall|s: TestStatus| totals@.contains_key(s) implies totals@[s]
                == column_sum(self@, names, s) by {
                assert(count_in(totals@, s) == column_sum(self@, names, s));
            }
        }
        Ok(totals)
    }
}

} // verus!
