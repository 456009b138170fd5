use vstd::prelude::*;

verus! {

/// Number of units across a sequence of FIFO queues.
pub open spec fn total_len<R>(qs: Seq<Seq<R>>) -> nat
    decreases qs.len(),
{
    if qs.len() == 0 {
        0
    } else {
        total_len(qs.drop_last()) + qs.last().len()
    }
}

/// Number of non-empty queues among the first `n` of `qs`.
pub open spec fn nonempty_before<R>(qs: Seq<Seq<R>>, n: int) -> nat
    decreases n,
{
    if n <= 0 {
        0
    } else {
        nonempty_before(qs, n - 1) + if qs[n - 1].len() > 0 { 1nat } else { 0nat }
    }
}

/// Number of non-empty queues in `qs`.
pub open spec fn nonempty_count<R>(qs: Seq<Seq<R>>) -> nat {
    nonempty_before(qs, qs.len() as int)
}

/// Timer entries are ordered by due-time, earliest first.
pub open spec fn sorted_by_due<R>(d: Seq<(u64, R)>) -> bool {
    forall|i: int, j: int| 0 <= i <= j < d.len() ==> d[i].0 <= d[j].0
}

/// Number of leading timer entries whose due-time is at most `t`.
pub open spec fn leading_due<R>(d: Seq<(u64, R)>, t: u64) -> nat
    decreases d.len(),
{
    if d.len() == 0 || d[0].0 > t {
        0
    } else {
        1 + leading_due(d.drop_first(), t)
    }
}

/// The units carried by a run of timer entries.
pub open spec fn units_of<R>(d: Seq<(u64, R)>) -> Seq<R> {
    d.map_values(|e: (u64, R)| e.1)
}

/// The abstract state of the scheduler.
pub struct SchedulerModel<R> {
    /// One FIFO queue per execution-context identity; the identity is the index.
    pub main_queues: Seq<Seq<R>>,
    /// Work with no ordering contract.
    pub background: Seq<R>,
    /// Timer entries, sorted ascending by due-time.
    pub delayed: Seq<(u64, R)>,
    /// Simulated elapsed time.
    pub now: u64,
    /// Whether the unit now executing runs on a main context.
    pub is_main: bool,
    pub allow_parking: bool,
    /// Whether a call-stack snapshot of a waiting caller is held.
    pub waiting: bool,
}

impl<R> SchedulerModel<R> {
    pub open spec fn next_identity(self) -> nat {
        self.main_queues.len()
    }

    pub open spec fn queued_main(self) -> nat {
        total_len(self.main_queues)
    }

    /// Units that may be selected now, timers not counted.
    pub open spec fn ready(self) -> nat {
        self.queued_main() + self.background.len()
    }

    /// Every unit held, timers included.
    pub open spec fn queued(self) -> nat {
        self.ready() + self.delayed.len()
    }

    pub open spec fn wf(self) -> bool {
        &&& sorted_by_due(self.delayed)
        &&& self.queued() <= usize::MAX
        &&& self.main_queues.len() <= usize::MAX
    }

    /// Moves every timer whose due-time has come to the background queue,
    /// in due-time order.
    pub open spec fn matured(self) -> Self {
        let k = leading_due(self.delayed, self.now) as int;
        SchedulerModel {
            background: self.background + units_of(self.delayed.take(k)),
            delayed: self.delayed.skip(k),
            ..self
        }
    }

    pub open spec fn enqueue_background(self, u: R) -> Self {
        SchedulerModel { background: self.background.push(u), ..self }
    }

    pub open spec fn enqueue_main(self, id: int, u: R) -> Self {
        SchedulerModel {
            main_queues: self.main_queues.update(id, self.main_queues[id].push(u)),
            ..self
        }
    }

    /// A timer due at `due` goes after every entry due no later than it.
    pub open spec fn enqueue_delayed(self, due: u64, u: R) -> Self {
        SchedulerModel {
            delayed: self.delayed.insert(leading_due(self.delayed, due) as int, (due, u)),
            ..self
        }
    }

    pub open spec fn mint_identity(self) -> Self {
        SchedulerModel { main_queues: self.main_queues.push(Seq::empty()), ..self }
    }

    /// The front unit of queue `id` is taken, to run on a main context.
    pub open spec fn take_main(self, id: int) -> Self {
        SchedulerModel {
            main_queues: self.main_queues.update(id, self.main_queues[id].drop_first()),
            is_main: true,
            ..self
        }
    }

    /// The background unit at `ix` is taken by swap-and-pop, to run off the
    /// main context.
    pub open spec fn take_background(self, ix: int) -> Self {
        SchedulerModel {
            background: self.background.update(ix, self.background.last()).drop_last(),
            is_main: false,
            ..self
        }
    }

    pub open spec fn with_main_flag(self, is_main: bool) -> Self {
        SchedulerModel { is_main, ..self }
    }

    /// Whether the earliest timer is due no later than `target`.
    pub open spec fn timer_due_by(self, target: u64) -> bool {
        self.delayed.len() > 0 && self.delayed[0].0 <= target
    }

    /// One move of the clock toward `target`: to the earliest timer if it
    /// is due by then, else to `target` itself.
    pub open spec fn clock_step(self, target: u64) -> Self {
        if self.timer_due_by(target) {
            let due = self.delayed[0].0;
            SchedulerModel { now: if due > self.now { due } else { self.now }, ..self }
        } else {
            SchedulerModel { now: target, ..self }
        }
    }
}

/// A prefix split of the timer entries at `t` is the one that `leading_due`
/// counts.
pub proof fn lemma_leading_due_split<R>(d: Seq<(u64, R)>, t: u64, k: int)
    requires
        0 <= k <= d.len(),
        forall|i: int| 0 <= i < k ==> d[i].0 <= t,
        forall|i: int| k <= i < d.len() ==> d[i].0 > t,
    ensures
        leading_due(d, t) == k,
    decreases d.len(),
{
    if k > 0 {
        assert forall|i: int| 0 <= i < k - 1 implies d.drop_first()[i].0 <= t by {
            assert(d.drop_first()[i] == d[i + 1]);
        }
        lemma_leading_due_split(d.drop_first(), t, k - 1);
    }
}

/// The entries that `leading_due` counts are due by `t`, the rest after it.
pub proof fn lemma_leading_due_bounds<R>(d: Seq<(u64, R)>, t: u64)
    requires
        sorted_by_due(d),
    ensures
        leading_due(d, t) <= d.len(),
        forall|i: int| 0 <= i < leading_due(d, t) ==> d[i].0 <= t,
        forall|i: int| leading_due(d, t) <= i < d.len() ==> d[i].0 > t,
    decreases d.len(),
{
    if d.len() > 0 && d[0].0 <= t {
        let r = d.drop_first();
        lemma_leading_due_bounds(r, t);
        assert forall|i: int| 0 <= i < leading_due(d, t) implies d[i].0 <= t by {
            if i > 0 {
                assert(d[i] == r[i - 1]);
            }
        }
        assert forall|i: int| leading_due(d, t) <= i < d.len() implies d[i].0 > t by {
            assert(d[i] == r[i - 1]);
        }
    }
}

pub proof fn lemma_total_len_update<R>(qs: Seq<Seq<R>>, i: int, q: Seq<R>)
    requires
        0 <= i < qs.len(),
    ensures
        total_len(qs.update(i, q)) + qs[i].len() == total_len(qs) + q.len(),
    decreases qs.len(),
{
    let u = qs.update(i, q);
    if i == qs.len() - 1 {
        assert(u.drop_last() =~= qs.drop_last());
    } else {
        assert(u.drop_last() =~= qs.drop_last().update(i, q));
        lemma_total_len_update(qs.drop_last(), i, q);
    }
}

pub proof fn lemma_nonempty_before_bounds<R>(qs: Seq<Seq<R>>, n: int)
    requires
        0 <= n <= qs.len(),
    ensures
        nonempty_before(qs, n) <= n,
        nonempty_before(qs, n) <= nonempty_count(qs),
    decreases qs.len() - n,
{
    lemma_nonempty_before_le(qs, n);
    if n < qs.len() {
        lemma_nonempty_before_bounds(qs, n + 1);
    }
}

proof fn lemma_nonempty_before_le<R>(qs: Seq<Seq<R>>, n: int)
    ensures
        n >= 0 ==> nonempty_before(qs, n) <= n,
    decreases n,
{
    if n > 0 {
        lemma_nonempty_before_le(qs, n - 1);
    }
}

/// Some queue holds work exactly when the units across all of them are not
/// zero in number.
pub proof fn lemma_nonempty_count_positive<R>(qs: Seq<Seq<R>>)
    ensures
        (nonempty_count(qs) > 0) == (total_len(qs) > 0),
    decreases qs.len(),
{
    if qs.len() > 0 {
        let p = qs.drop_last();
        lemma_nonempty_count_positive(p);
        assert forall|n: int| 0 <= n <= p.len() implies nonempty_before(p, n)
            == nonempty_before(qs, n) by {
            lemma_nonempty_before_prefix(qs, p, n);
        }
    }
}

proof fn lemma_nonempty_before_prefix<R>(qs: Seq<Seq<R>>, p: Seq<Seq<R>>, n: int)
    requires
        p.len() <= qs.len(),
        0 <= n <= p.len(),
        forall|i: int| 0 <= i < p.len() ==> p[i] == qs[i],
    ensures
        nonempty_before(p, n) == nonempty_before(qs, n),
    decreases n,
{
    if n > 0 {
        lemma_nonempty_before_prefix(qs, p, n - 1);
    }
}

/// Inserting a timer after every entry due no later than it keeps the
/// entries sorted.
pub proof fn lemma_insert_sorted<R>(d: Seq<(u64, R)>, due: u64, u: R)
    requires
        sorted_by_due(d),
    ensures
        sorted_by_due(d.insert(leading_due(d, due) as int, (due, u))),
{
    lemma_leading_due_bounds(d, due);
    let k = leading_due(d, due) as int;
    let e = d.insert(k, (due, u));
    assert forall|i: int, j: int| 0 <= i <= j < e.len() implies e[i].0 <= e[j].0 by {
        if i < k && j > k {
            assert(e[i] == d[i] && e[j] == d[j - 1]);
        } else if i > k {
            assert(e[i] == d[i - 1] && e[j] == d[j - 1]);
        } else if j < k {
            assert(e[i] == d[i] && e[j] == d[j]);
        } else if i == k && j > k {
            assert(e[j] == d[j - 1]);
        } else if j == k && i < k {
            assert(e[i] == d[i]);
        }
    }
}

/// Once a step has found nothing ready, a further step with nothing queued
/// in between finds nothing either: maturing timers again moves nothing.
pub proof fn lemma_quiescence<R>(m: SchedulerModel<R>)
    requires
        m.wf(),
        m.matured().ready() == 0,
    ensures
        m.matured().matured() == m.matured(),
        m.matured().matured().ready() == 0,
{
    let d = m.delayed;
    let k = leading_due(d, m.now) as int;
    lemma_leading_due_bounds(d, m.now);
    let rest = d.skip(k);
    if rest.len() > 0 {
        assert(rest[0] == d[k]);
    }
    assert(leading_due(rest, m.now) == 0);
    let mm = m.matured();
    assert(rest.skip(0) =~= rest);
    assert(units_of(rest.take(0)) =~= Seq::<R>::empty());
    assert(mm.background + Seq::<R>::empty() =~= mm.background);
}

/// Advancing the clock toward `target` from no later than it never moves it
/// past `target` and fires no timer; and a step at a time no later than
/// `target` leaves every timer due after `target` queued.
pub proof fn lemma_no_overshoot<R>(m: SchedulerModel<R>, target: u64)
    requires
        m.wf(),
        m.now <= target,
    ensures
        m.now <= m.clock_step(target).now <= target,
        m.clock_step(target).delayed == m.delayed,
        forall|e: (u64, R)| m.delayed.contains(e) && e.0 > target
            ==> m.matured().delayed.contains(e),
{
    let d = m.delayed;
    let k = leading_due(d, m.now) as int;
    lemma_leading_due_bounds(d, m.now);
    assert forall|e: (u64, R)| d.contains(e) && e.0 > target implies
        m.matured().delayed.contains(e) by {
        let i = choose|i: int| 0 <= i < d.len() && d[i] == e;
        assert(i >= k);
        assert(d.skip(k)[i - k] == e);
    }
}

/// Units queued to one identity keep their order: two enqueues put them at
/// the back, one after the other; a step that takes from that identity takes
/// the front; any other step or enqueue leaves the queue as it is. So the
/// earlier of the two always runs first.
pub proof fn lemma_fifo_per_identity<R>(m: SchedulerModel<R>, id: int, a: R, b: R, other: int, u: R)
    requires
        0 <= id < m.main_queues.len(),
        0 <= other < m.main_queues.len(),
        other != id,
    ensures
        m.enqueue_main(id, a).enqueue_main(id, b).main_queues[id]
            == m.main_queues[id] + seq![a, b],
        m.take_main(id).main_queues[id] == m.main_queues[id].drop_first(),
        m.take_main(other).main_queues[id] == m.main_queues[id],
        m.enqueue_main(other, u).main_queues[id] == m.main_queues[id],
        forall|ix: int| m.take_background(ix).main_queues == m.main_queues,
        m.enqueue_background(u).main_queues == m.main_queues,
        m.matured().main_queues == m.main_queues,
        forall|due: u64| m.enqueue_delayed(due, u).main_queues == m.main_queues,
{
    assert(m.main_queues[id].push(a).push(b) =~= m.main_queues[id] + seq![a, b]);
}

/// Whatever ran while a unit executed, putting back the flag that the step
/// handed out leaves the main-context flag as it was before the step, and
/// changes nothing else.
pub proof fn lemma_reentrancy<R>(before: SchedulerModel<R>, nested: SchedulerModel<R>)
    ensures
        nested.with_main_flag(before.is_main).is_main == before.is_main,
        nested.with_main_flag(before.is_main) == (SchedulerModel {
            is_main: before.is_main,
            ..nested
        }),
{
}

proof fn lemma_nonempty_before_grows<R>(qs: Seq<Seq<R>>, i: int, j: int)
    requires
        0 <= i < j <= qs.len(),
        qs[i].len() > 0,
    ensures
        nonempty_before(qs, j) >= nonempty_before(qs, i) + 1,
    decreases j,
{
    if j > i + 1 {
        lemma_nonempty_before_grows(qs, i, j - 1);
    }
}

/// The scheduling decision is a function of the state and the two draws:
/// the draws name one non-empty main queue, so two selections made on the
/// same state with the same draws take the same unit and leave the same
/// state.
pub proof fn lemma_selection_determined<R>(m: SchedulerModel<R>, pick: nat, i: int, j: int)
    requires
        0 <= i < m.main_queues.len(),
        0 <= j < m.main_queues.len(),
        m.main_queues[i].len() > 0,
        m.main_queues[j].len() > 0,
        nonempty_before(m.main_queues, i) == pick,
        nonempty_before(m.main_queues, j) == pick,
    ensures
        i == j,
        m.main_queues[i][0] == m.main_queues[j][0],
        m.take_main(i) == m.take_main(j),
{
    if i < j {
        lemma_nonempty_before_grows(m.main_queues, i, j);
    } else if j < i {
        lemma_nonempty_before_grows(m.main_queues, j, i);
    }
}

} // verus!
