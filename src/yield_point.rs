use vstd::prelude::*;

verus! {

/// The count left after one poll of a yield point holding `count`.
pub open spec fn yield_step(count: nat) -> nat {
    if count == 0 {
        0
    } else {
        (count - 1) as nat
    }
}

/// The count left after `polls` polls of a yield point that began at `count`.
pub open spec fn yields_after(count: nat, polls: nat) -> nat
    decreases polls,
{
    if polls == 0 {
        count
    } else {
        yield_step(yields_after(count, (polls - 1) as nat))
    }
}

/// A suspension point that reports "not ready" a fixed number of times
/// before it reports "ready".
pub struct YieldNow {
    count: usize,
}

impl View for YieldNow {
    type V = nat;

    closed spec fn view(&self) -> nat {
        self.count as nat
    }
}

impl YieldNow {
    pub fn new(count: usize) -> (r: Self)
        ensures
            r@ == count,
    {
        YieldNow { count }
    }

    /// How many more polls will report "not ready".
    pub fn remaining(&self) -> (r: usize)
        ensures
            r == self@,
    {
        self.count
    }

    /// One poll: ready once the count is spent; otherwise one is used up and
    /// the caller is to wake the task again at once.
    pub fn poll_ready(&mut self) -> (r: bool)
        ensures
            r == (old(self)@ == 0),
            final(self)@ == yield_step(old(self)@),
    {
        if self.count > 0 {
            self.count = self.count - 1;
            false
        } else {
            true
        }
    }
}

/// A yield point that began at `count` has `count - polls` polls left after
/// `polls` of them, and none once `polls` reaches `count`.
pub proof fn lemma_yields_after(count: nat, polls: nat)
    ensures
        yields_after(count, polls) == if polls <= count { (count - polls) as nat } else { 0nat },
    decreases polls,
{
    if polls > 0 {
        lemma_yields_after(count, (polls - 1) as nat);
    }
}

/// A yield point drawn with a count below ten reports "ready" at the poll
/// that follows exactly `count` polls that reported "not ready": never fewer,
/// and never more than nine.
pub proof fn lemma_random_yield_bound(count: nat, polls: nat)
    requires
        count < 10,
    ensures
        (yields_after(count, polls) == 0) == (polls >= count),
        polls >= 9 ==> yields_after(count, polls) == 0,
{
    lemma_yields_after(count, polls);
}

} // verus!
