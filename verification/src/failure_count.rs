//! A retry budget: counts consecutive failures and reports once more than
//! `max_count` of them have been seen.
use vstd::prelude::*;

use crate::text::{nat_decimal, push_decimal, push_str, to_owned_string};

verus! {

/// The error a [`FailureCount`] reports once its budget is spent.
#[derive(Clone, Copy, PartialEq, Eq, Structural, Debug)]
pub struct FailureCountError {
    pub max_count: usize,
}

/// `"Failed after retrying {max_count} times"`.
pub open spec fn failure_message(max_count: nat) -> Seq<char> {
    "Failed after retrying "@ + nat_decimal(max_count) + " times"@
}

impl FailureCountError {
    /// The text of the error, `Failed after retrying {max_count} times`.
    pub fn message(&self) -> (r: String)
        ensures
            r@ == failure_message(self.max_count as nat),
    {
        let mut s = to_owned_string("Failed after retrying ");
        push_decimal(&mut s, self.max_count as u64);
        push_str(&mut s, " times");
        s
    }
}

/// Counts failures against a fixed budget (`max_count`).
pub struct FailureCount {
    max_count: usize,
    counter: usize,
}

/// The outcome every operation reports for a count `c` seen against the
/// budget `max`: a failure once `c` exceeds it.
pub open spec fn budget_result(c: nat, max: nat) -> Result<(), FailureCountError> {
    if c > max {
        Err(FailureCountError { max_count: max as usize })
    } else {
        Ok(())
    }
}

impl FailureCount {
    /// The budget the counter was made with.
    pub closed spec fn max_count(&self) -> nat {
        self.max_count as nat
    }

    /// The number of failures counted so far.
    pub closed spec fn count(&self) -> nat {
        self.counter as nat
    }

    /// The budget and the count are `usize` values.
    pub proof fn lemma_counts_fit(&self)
        ensures
            self.max_count() <= usize::MAX,
            self.count() <= usize::MAX,
    {
    }

    /// A counter with budget `max_count` and no failures yet.
    pub fn new(max_count: usize) -> (r: Self)
        ensures
            r.max_count() == max_count,
            r.count() == 0,
    {
        Self { max_count, counter: 0 }
    }

    /// Fails when more than `max_count` failures have been counted.
    pub fn check(&self) -> (r: Result<(), FailureCountError>)
        ensures
            r == budget_result(self.count(), self.max_count()),
    {
        if self.counter > self.max_count {
            Err(FailureCountError { max_count: self.max_count })
        } else {
            Ok(())
        }
    }

    /// Sets the count back to zero; fails when the count it replaced was
    /// beyond the budget.
    pub fn reset(&mut self) -> (r: Result<(), FailureCountError>)
        ensures
            r == budget_result(old(self).count(), old(self).max_count()),
            final(self).count() == 0,
            final(self).max_count() == old(self).max_count(),
    {
        let previous = self.counter;
        self.counter = 0;
        if previous > self.max_count {
            Err(FailureCountError { max_count: self.max_count })
        } else {
            Ok(())
        }
    }

    /// Counts one more failure (the count wraps around at `usize::MAX + 1`,
    /// as an atomic `fetch_add` does); fails when the count before it was
    /// beyond the budget.
    pub fn increment(&mut self) -> (r: Result<(), FailureCountError>)
        ensures
            r == budget_result(old(self).count(), old(self).max_count()),
            final(self).count() == if old(self).count() == usize::MAX {
                0
            } else {
                old(self).count() + 1
            },
            final(self).max_count() == old(self).max_count(),
    {
        let previous = self.counter;
        self.counter = if previous == usize::MAX {
            0
        } else {
            previous + 1
        };
        if previous > self.max_count {
            Err(FailureCountError { max_count: self.max_count })
        } else {
            Ok(())
        }
    }
}


// ---------------------------------------------------------------------------
// Laws
// ---------------------------------------------------------------------------

/// A fresh counter with budget `max` tolerates `max + 1` failures: the
/// `k`-th increment after `new` (counting from one) succeeds exactly when
/// `k <= max + 1`, since it sees the `k - 1` failures counted before it.
pub proof fn law_fresh_counter_tolerates_budget(max: nat, k: nat)
    requires
        1 <= k <= usize::MAX + 1,
        max <= usize::MAX,
    ensures
        budget_result((k - 1) as nat, max) is Ok <==> k <= max + 1,
{
}

/// Right after a reset, a check succeeds, whatever the budget.
pub proof fn law_check_after_reset(c: FailureCount)
    ensures
        budget_result(0, c.max_count()) == Ok::<(), FailureCountError>(()),
{
}

/// Once the budget is spent, further failures keep it spent: a count past
/// the budget reports an error, and so does the count after one more
/// failure (while the counter has not wrapped around).
pub proof fn law_spent_budget_stays_spent(count: nat, max: nat)
    requires
        count > max,
        count < usize::MAX,
    ensures
        budget_result(count, max) is Err,
        budget_result(count + 1, max) is Err,
{
}

} // verus!
