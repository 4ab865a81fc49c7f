//! Occurrence counts per status: the inner table of a histogram.

use vstd::prelude::*;
use crate::status::{all_statuses, TestStatus};

verus! {

/// How often a status is recorded in a count table; zero when it is absent.
pub open spec fn count_in(table: Map<TestStatus, nat>, status: TestStatus) -> nat {
    if table.contains_key(status) {
        table[status]
    } else {
        0
    }
}

/// The table that holds, for every status, the sum of what two tables hold.
pub open spec fn merged(a: Map<TestStatus, nat>, b: Map<TestStatus, nat>) -> Map<
    TestStatus,
    nat,
> {
    Map::new(
        |s: TestStatus| count_in(a, s) + count_in(b, s) > 0,
        |s: TestStatus| count_in(a, s) + count_in(b, s),
    )
}

/// The sum of all counts of a table.
pub open spec fn count_sum(table: Map<TestStatus, nat>) -> nat {
    count_in(table, TestStatus::Pass) + count_in(table, TestStatus::Fail) + count_in(
        table,
        TestStatus::Skip,
    ) + count_in(table, TestStatus::Error) + count_in(table, TestStatus::Okay) + count_in(
        table,
        TestStatus::Timeout,
    ) + count_in(table, TestStatus::Crash) + count_in(table, TestStatus::NotRun) + count_in(
        table,
        TestStatus::PreconditionFailed,
    )
}

/// The statuses that are keys of a table.
pub open spec fn is_key(table: Map<TestStatus, nat>) -> spec_fn(TestStatus) -> bool {
    |s: TestStatus| table.contains_key(s)
}

/// The statuses that a table records, in declaration order.
pub open spec fn recorded(table: Map<TestStatus, nat>) -> Seq<TestStatus> {
    all_statuses().filter(is_key(table))
}

/// The number of keys of a table among the first `k` statuses of the
/// declaration order.
spec fn distinct_upto(table: Map<TestStatus, nat>, k: int) -> nat
    decreases k,
{
    if k <= 0 {
        0
    } else {
        distinct_upto(table, k - 1) + if table.contains_key(all_statuses()[k - 1]) {
            1nat
        } else {
            0nat
        }
    }
}

/// A table from status to the number of times it was seen. A status is a key
/// of the table from its first occurrence on, so no key has the count zero.
#[derive(Debug, Clone, Copy, PartialEq, Eq, Structural)]
pub struct TestStatusCounts {
    pass: u32,
    fail: u32,
    skip: u32,
    error: u32,
    okay: u32,
    timeout: u32,
    crash: u32,
    not_run: u32,
    precondition_failed: u32,
}

impl View for TestStatusCounts {
    type V = Map<TestStatus, nat>;

    closed spec fn view(&self) -> Map<TestStatus, nat> {
        Map::new(|s: TestStatus| self.slot(s) > 0, |s: TestStatus| self.slot(s) as nat)
    }
}

impl TestStatusCounts {
    #[verifier::opaque]
    spec fn slot(self, status: TestStatus) -> u32 {
        match status {
            TestStatus::Pass => self.pass,
            TestStatus::Fail => self.fail,
            TestStatus::Skip => self.skip,
            TestStatus::Error => self.error,
            TestStatus::Okay => self.okay,
            TestStatus::Timeout => self.timeout,
            TestStatus::Crash => self.crash,
            TestStatus::NotRun => self.not_run,
            TestStatus::PreconditionFailed => self.precondition_failed,
        }
    }

    fn set_slot(&mut self, status: TestStatus, value: u32)
        ensures
            final(self).slot(status) == value,
            forall|s: TestStatus| s != status ==> final(self).slot(s) == old(self).slot(s),
    {
        reveal(TestStatusCounts::slot);
        match status {
            TestStatus::Pass => {
                self.pass = value;
            },
            TestStatus::Fail => {
                self.fail = value;
            },
            TestStatus::Skip => {
                self.skip = value;
            },
            TestStatus::Error => {
                self.error = value;
            },
            TestStatus::Okay => {
                self.okay = value;
            },
            TestStatus::Timeout => {
                self.timeout = value;
            },
            TestStatus::Crash => {
                self.crash = value;
            },
            TestStatus::NotRun => {
                self.not_run = value;
            },
            TestStatus::PreconditionFailed => {
                self.precondition_failed = value;
            },
        }
    }

    /// What holds of the table of every value: each recorded count is
    /// positive and fits the counter.
    pub proof fn lemma_view(self)
        ensures
            forall|s: TestStatus| self@.contains_key(s) ==> 0 < #[trigger] self@[s] <= u32::MAX,
            forall|s: TestStatus| #[trigger] count_in(self@, s) <= u32::MAX,
    {
    }

    /// The table without any key.
    pub fn new() -> (r: Self)
        ensures
            r@ == Map::<TestStatus, nat>::empty(),
    {
        let r = TestStatusCounts {
            pass: 0,
            fail: 0,
            skip: 0,
            error: 0,
            okay: 0,
            timeout: 0,
            crash: 0,
            not_run: 0,
            precondition_failed: 0,
        };
        proof {
            reveal(TestStatusCounts::slot);
        }
        r
    }

    /// How often `status` was seen; zero when it is no key of the table.
    pub fn count(&self, status: TestStatus) -> (n: u32)
        ensures
            n == count_in(self@, status),
    {
        reveal(TestStatusCounts::slot);
        match status {
            TestStatus::Pass => self.pass,
            TestStatus::Fail => self.fail,
            TestStatus::Skip => self.skip,
            TestStatus::Error => self.error,
            TestStatus::Okay => self.okay,
            TestStatus::Timeout => self.timeout,
            TestStatus::Crash => self.crash,
            TestStatus::NotRun => self.not_run,
            TestStatus::PreconditionFailed => self.precondition_failed,
        }
    }

    /// The number of distinct statuses seen.
    pub fn len(&self) -> (n: usize)
        ensures
            n == self@.dom().len(),
            n <= 9,
    {
        proof {
            lemma_keys_upto(self@, 9);
            assert(self@.dom() =~= keys_upto(self@, 9));
        }
        let order = status_order();
        let mut n: usize = 0;
        let mut k: usize = 0;
        while k < 9
            invariant
                k <= 9,
                order@ == all_statuses(),
                n == distinct_upto(self@, k as int),
                n <= k,
            decreases 9 - k,
        {
            if self.count(order[k]) > 0 {
                n = n + 1;
            }
            k = k + 1;
        }
        n
    }

    /// True when no status was seen at all.
    pub fn is_empty(&self) -> (b: bool)
        ensures
            b == (self@ == Map::<TestStatus, nat>::empty()),
    {
        let n: usize = self.len();
        proof {
            lemma_status_keys(self@);
        }
        n == 0
    }

    /// Counts one more occurrence of `status`, which becomes a key of the
    /// table if it was none.
    pub fn increment(&mut self, status: TestStatus)
        requires
            count_in(old(self)@, status) < u32::MAX,
        ensures
            final(self)@ == old(self)@.insert(status, count_in(old(self)@, status) + 1),
    {
        let c: u32 = self.count(status);
        self.set_slot(status, c + 1);
    }

    /// Adds every count of `other` to the count of the same status here.
    pub fn merge(&mut self, other: &TestStatusCounts)
        requires
            forall|s: TestStatus|
                #[trigger] count_in(old(self)@, s) + count_in(other@, s) <= u32::MAX,
        ensures
            final(self)@ == merged(old(self)@, other@),
    {
        let order = status_order();
        let mut k: usize = 0;
        while k < 9
            invariant
                k <= 9,
                order@ == all_statuses(),
                forall|s: TestStatus|
                    #[trigger] count_in(old(self)@, s) + count_in(other@, s) <= u32::MAX,
                forall|s: TestStatus|
                    #[trigger] self.slot(s) == if s.ordinal() < k {
                        count_in(old(self)@, s) + count_in(other@, s)
                    } else {
                        count_in(old(self)@, s)
                    },
            decreases 9 - k,
        {
            let s = order[k];
            let c: u32 = self.count(s) + other.count(s);
            self.set_slot(s, c);
            k = k + 1;
        }
    }

    /// The statuses seen, in declaration order, each with its count.
    pub fn entries(&self) -> (r: Vec<(TestStatus, u32)>)
        ensures
            r@.len() == recorded(self@).len(),
            forall|i: int|
                0 <= i < r@.len() ==> (#[trigger] r@[i]).0 == recorded(self@)[i] && r@[i].1
                    == self@[r@[i].0],
    {
        let order = status_order();
        let ghost keys = is_key(self@);
        let mut r: Vec<(TestStatus, u32)> = Vec::new();
        let mut k: usize = 0;
        proof {
            reveal(Seq::filter);
        }
        while k < 9
            invariant
                k <= 9,
                order@ == all_statuses(),
                keys == is_key(self@),
                r@.len() == order@.take(k as int).filter(keys).len(),
                forall|i: int|
                    0 <= i < r@.len() ==> (#[trigger] r@[i]).0 == order@.take(k as int).filter(
                        keys,
                    )[i] && r@[i].1 == self@[r@[i].0],
            decreases 9 - k,
        {
            let s = order[k];
            let c: u32 = self.count(s);
            proof {
                reveal(Seq::filter);
                assert(order@.take(k + 1).drop_last() =~= order@.take(k as int));
            }
            if c > 0 {
                r.push((s, c));
            }
            k = k + 1;
        }
        proof {
            assert(order@.take(9) =~= order@);
        }
        r
    }
}

/// Every status, in the order of declaration.
pub fn status_order() -> (r: [TestStatus; 9])
    ensures
        r@ == all_statuses(),
{
    [
        TestStatus::Pass,
        TestStatus::Fail,
        TestStatus::Skip,
        TestStatus::Error,
        TestStatus::Okay,
        TestStatus::Timeout,
        TestStatus::Crash,
        TestStatus::NotRun,
        TestStatus::PreconditionFailed,
    ]
}

/// The keys of a table among the first `k` statuses of the declaration
/// order.
spec fn keys_upto(table: Map<TestStatus, nat>, k: int) -> Set<TestStatus>
    decreases k,
{
    if k <= 0 {
        Set::empty()
    } else {
        let earlier = keys_upto(table, k - 1);
        let s = all_statuses()[k - 1];
        if table.contains_key(s) {
            earlier.insert(s)
        } else {
            earlier
        }
    }
}

proof fn lemma_keys_upto(table: Map<TestStatus, nat>, k: int)
    requires
        0 <= k <= 9,
    ensures
        keys_upto(table, k).finite(),
        keys_upto(table, k).len() == distinct_upto(table, k),
        forall|s: TestStatus|
            #[trigger] keys_upto(table, k).contains(s) <==> table.contains_key(s) && s.ordinal()
                < k,
    decreases k,
{
    if k > 0 {
        lemma_keys_upto(table, k - 1);
    }
}

/// A table has finitely many keys, at most one for each status. It has none
/// exactly when it is the empty table, and more than one exactly when two
/// statuses that differ are keys.
pub proof fn lemma_status_keys(table: Map<TestStatus, nat>)
    ensures
        table.dom().finite(),
        table.dom().len() <= 9,
        table.dom().len() == 0 <==> table == Map::<TestStatus, nat>::empty(),
        table.dom().len() > 1 <==> exists|a: TestStatus, b: TestStatus|
            a != b && table.contains_key(a) && table.contains_key(b),
{
    lemma_keys_upto(table, 9);
    assert(table.dom() =~= keys_upto(table, 9));
    lemma_distinct_bound(table, 9);
    if table.dom().len() == 0 {
        assert(table =~= Map::<TestStatus, nat>::empty());
    }
    if table.dom().len() > 1 {
        let a = table.dom().choose();
        let rest = table.dom().remove(a);
        let b = rest.choose();
        assert(rest.contains(b));
    }
    if exists|a: TestStatus, b: TestStatus|
        a != b && table.contains_key(a) && table.contains_key(b) {
        let (a, b) = choose|a: TestStatus, b: TestStatus|
            a != b && table.contains_key(a) && table.contains_key(b);
        let pair = Set::<TestStatus>::empty().insert(a).insert(b);
        vstd::set_lib::lemma_len_subset(pair, table.dom());
    }
}

proof fn lemma_distinct_bound(table: Map<TestStatus, nat>, k: int)
    requires
        0 <= k,
    ensures
        distinct_upto(table, k) <= k,
    decreases k,
{
    if k > 0 {
        lemma_distinct_bound(table, k - 1);
    }
}

} // verus!
