use crate::diagnostics::{capture_unresolved, resolve};
use crate::model::{
    leading_due, lemma_insert_sorted, lemma_leading_due_bounds, lemma_leading_due_split,
    lemma_nonempty_before_bounds, lemma_nonempty_count_positive, lemma_total_len_update,
    nonempty_before, nonempty_count, sorted_by_due, total_len, units_of, SchedulerModel,
};
use crate::rng::gen_index;
use crate::yield_point::YieldNow;
use backtrace::Backtrace;
use rand::rngs::StdRng;
use vstd::prelude::*;

verus! {

/// Yield points draw their count from below this bound.
pub const RANDOM_DELAY_BOUND: usize = 10;

/// The state shared by every handle of one scheduler.
///
/// Each method is one critical section: a caller holds the state behind a
/// lock, and releases it while a unit returned by `take_next` runs.
pub struct TestDispatcherState<R> {
    random: StdRng,
    main_queues: Vec<Vec<R>>,
    main_len: usize,
    background: Vec<R>,
    delayed: Vec<(u64, R)>,
    now: u64,
    is_main: bool,
    allow_parking: bool,
    waiting_backtrace: Option<Backtrace>,
}

impl<R> View for TestDispatcherState<R> {
    type V = SchedulerModel<R>;

    closed spec fn view(&self) -> SchedulerModel<R> {
        SchedulerModel {
            main_queues: self.main_queues@.map_values(|q: Vec<R>| q@),
            background: self.background@,
            delayed: self.delayed@,
            now: self.now,
            is_main: self.is_main,
            allow_parking: self.allow_parking,
            waiting: self.waiting_backtrace is Some,
        }
    }
}

impl<R> TestDispatcherState<R> {
    pub closed spec fn wf(&self) -> bool {
        &&& self@.wf()
        &&& self.main_len == self@.queued_main()
    }

    /// A fresh scheduler: the handle made with it has identity 0, no work is
    /// queued, the clock reads 0 and the caller counts as the main context.
    pub fn new(random: StdRng) -> (r: Self)
        ensures
            r.wf(),
            r@.main_queues == seq![Seq::<R>::empty()],
            r@.queued() == 0,
            r@.background.len() == 0,
            r@.delayed.len() == 0,
            r@.now == 0,
            r@.is_main,
            !r@.allow_parking,
            !r@.waiting,
    {
        let r = TestDispatcherState {
            random,
            main_queues: vec![Vec::new()],
            main_len: 0,
            background: Vec::new(),
            delayed: Vec::new(),
            now: 0,
            is_main: true,
            allow_parking: false,
            waiting_backtrace: None,
        };
        proof {
            let qs = r@.main_queues;
            assert(qs.drop_last() =~= Seq::<Seq<R>>::empty());
            assert(qs =~= seq![Seq::<R>::empty()]);
            assert(total_len(qs.drop_last()) == 0);
            assert(total_len(qs) == 0);
        }
        r
    }

    /// Simulated elapsed time.
    pub fn now(&self) -> (r: u64)
        ensures
            r == self@.now,
    {
        self.now
    }

    /// Every unit held, timers included.
    pub fn queued_len(&self) -> (r: usize)
        requires
            self.wf(),
        ensures
            r == self@.queued(),
    {
        self.main_len + self.background.len() + self.delayed.len()
    }

    /// The identity that the next handle will get.
    pub fn next_identity(&self) -> (r: usize)
        ensures
            r == self@.next_identity(),
    {
        self.main_queues.len()
    }

    /// Mints the identity of a new handle, with an empty main queue.
    pub fn mint_identity(&mut self) -> (r: usize)
        requires
            old(self).wf(),
            old(self)@.next_identity() < usize::MAX,
        ensures
            final(self).wf(),
            r == old(self)@.next_identity(),
            final(self)@ == old(self)@.mint_identity(),
            final(self)@.queued() == old(self)@.queued(),
    {
        let r = self.main_queues.len();
        self.main_queues.push(Vec::new());
        proof {
            let qs = self@.main_queues;
            assert(qs.drop_last() =~= old(self)@.main_queues);
            assert(self@.main_queues =~= old(self)@.mint_identity().main_queues);
        }
        r
    }

    /// Whether the unit now executing runs on a main context.
    pub fn is_main_thread(&self) -> (r: bool)
        ensures
            r == self@.is_main,
    {
        self.is_main
    }

    /// Queues a unit with no ordering contract.
    pub fn dispatch(&mut self, runnable: R)
        requires
            old(self).wf(),
            old(self)@.queued() < usize::MAX,
        ensures
            final(self).wf(),
            final(self)@ == old(self)@.enqueue_background(runnable),
            final(self)@.queued() == old(self)@.queued() + 1,
    {
        self.background.push(runnable);
    }

    /// Queues a unit at the back of the main queue of identity `id`.
    pub fn dispatch_on_main_thread(&mut self, id: usize, runnable: R)
        requires
            old(self).wf(),
            old(self)@.queued() < usize::MAX,
            id < old(self)@.next_identity(),
        ensures
            final(self).wf(),
            final(self)@ == old(self)@.enqueue_main(id as int, runnable),
            final(self)@.queued() == old(self)@.queued() + 1,
    {
        let ghost old_qs = self@.main_queues;
        self.main_queues[id].push(runnable);
        self.main_len = self.main_len + 1;
        proof {
            lemma_total_len_update(old_qs, id as int, old_qs[id as int].push(runnable));
            assert(self@.main_queues =~= old_qs.update(id as int, old_qs[id as int].push(runnable)));
        }
    }

    pub fn parking_allowed(&self) -> (r: bool)
        ensures
            r == self@.allow_parking,
    {
        self.allow_parking
    }

    pub fn allow_parking(&mut self)
        ensures
            final(self)@ == (SchedulerModel { allow_parking: true, ..old(self)@ }),
            final(self).wf() == old(self).wf(),
    {
        self.allow_parking = true;
    }

    /// Records the call stack of a caller about to wait.
    pub fn start_waiting(&mut self)
        ensures
            final(self)@ == (SchedulerModel { waiting: true, ..old(self)@ }),
            final(self).wf() == old(self).wf(),
    {
        self.waiting_backtrace = Some(capture_unresolved());
    }

    /// Drops the recorded call stack, if any.
    pub fn finish_waiting(&mut self)
        ensures
            final(self)@ == (SchedulerModel { waiting: false, ..old(self)@ }),
            final(self).wf() == old(self).wf(),
    {
        self.waiting_backtrace = None;
    }

    /// Hands out the recorded call stack, with symbols resolved, and clears it.
    pub fn waiting_backtrace(&mut self) -> (r: Option<Backtrace>)
        ensures
            r is Some == old(self)@.waiting,
            final(self)@ == (SchedulerModel { waiting: false, ..old(self)@ }),
            final(self).wf() == old(self).wf(),
    {
        let taken = self.waiting_backtrace.take();
        match taken {
            Some(mut trace) => {
                resolve(&mut trace);
                Some(trace)
            },
            None => None,
        }
    }
    /// Moves every timer whose due-time has come to the background queue.
    fn mature_timers(&mut self)
        requires
            old(self).wf(),
        ensures
            final(self).wf(),
            final(self)@ == old(self)@.matured(),
            final(self)@.queued() == old(self)@.queued(),
    {
        let ghost d0 = self.delayed@;
        let ghost b0 = self.background@;
        let ghost t = self.now;
        let ghost mut n: int = 0;
        proof {
            lemma_leading_due_bounds(d0, t);
            assert(d0.skip(0) =~= d0);
            assert(units_of(d0.take(0)) =~= Seq::<R>::empty());
            assert(b0 + Seq::<R>::empty() =~= b0);
        }
        while self.delayed.len() > 0 && self.delayed[0].0 <= self.now
            invariant
                0 <= n <= d0.len(),
                self.delayed@ == d0.skip(n),
                self.background@ == b0 + units_of(d0.take(n)),
                leading_due(d0, t) == n + leading_due(d0.skip(n), t),
                sorted_by_due(d0),
                self.now == t,
                self.main_queues@ == old(self).main_queues@,
                self.main_len == old(self).main_len,
                self.is_main == old(self).is_main,
                self.allow_parking == old(self).allow_parking,
                self.waiting_backtrace is Some == old(self).waiting_backtrace is Some,
                old(self).wf(),
                old(self)@.delayed == d0,
                old(self)@.background == b0,
                old(self)@.now == t,
            decreases self.delayed.len(),
        {
            let (_due, unit) = self.delayed.remove(0);
            self.background.push(unit);
            proof {
                let rest = d0.skip(n);
                assert(rest.drop_first() =~= d0.skip(n + 1));
                assert(units_of(d0.take(n + 1)) =~= units_of(d0.take(n)).push(d0[n].1));
                assert(b0 + units_of(d0.take(n + 1)) =~= (b0 + units_of(d0.take(n))).push(d0[n].1));
                n = n + 1;
            }
        }
        proof {
            assert(leading_due(d0.skip(n), t) == 0);
            let m = old(self)@.matured();
            assert(self@.main_queues =~= m.main_queues);
            let k = leading_due(d0, t) as int;
            assert(units_of(d0.take(k)).len() == k);
            assert forall|i: int, j: int| 0 <= i <= j < d0.skip(n).len() implies
                d0.skip(n)[i].0 <= d0.skip(n)[j].0 by {
                assert(d0.skip(n)[i] == d0[i + n]);
                assert(d0.skip(n)[j] == d0[j + n]);
            }
        }
    }

    /// Number of identities whose main queue holds work.
    fn count_nonempty(&self) -> (r: usize)
        requires
            self@.main_queues.len() <= usize::MAX,
        ensures
            r == nonempty_count(self@.main_queues),
    {
        let ghost qs = self@.main_queues;
        let mut i: usize = 0;
        let mut c: usize = 0;
        while i < self.main_queues.len()
            invariant
                qs == self@.main_queues,
                0 <= i <= qs.len(),
                c == nonempty_before(qs, i as int),
                c <= i,
            decreases qs.len() - i,
        {
            proof {
                lemma_nonempty_before_bounds(qs, i as int);
            }
            if self.main_queues[i].len() > 0 {
                c = c + 1;
            }
            i = i + 1;
        }
        c
    }

    /// Takes the unit that the draws `draw` and `pick` select, and marks the
    /// main-context flag for it; returns the unit and the flag's earlier
    /// value.
    ///
    /// `draw` below the number of main-queue units selects main work: `pick`
    /// then names the non-empty main queue to take the front of, counting
    /// non-empty queues only, by identity. Otherwise `pick` indexes the
    /// background queue, whose unit is taken by swap-and-pop.
    pub fn choose_unit(&mut self, draw: usize, pick: usize) -> (r: (R, bool))
        requires
            old(self).wf(),
            draw < old(self)@.ready(),
            draw < old(self)@.queued_main() ==> pick < nonempty_count(old(self)@.main_queues),
            draw >= old(self)@.queued_main() ==> pick < old(self)@.background.len(),
        ensures
            final(self).wf(),
            r.1 == old(self)@.is_main,
            final(self)@.queued() == old(self)@.queued() - 1,
            draw < old(self)@.queued_main() ==> exists|i: int|
                0 <= i < old(self)@.main_queues.len()
                && old(self)@.main_queues[i].len() > 0
                && nonempty_before(old(self)@.main_queues, i) == pick
                && r.0 == old(self)@.main_queues[i][0]
                && final(self)@ == old(self)@.take_main(i),
            draw >= old(self)@.queued_main() ==> r.0 == old(self)@.background[pick as int]
                && final(self)@ == old(self)@.take_background(pick as int),
    {
        let was = self.is_main;
        if draw < self.main_len {
            let ghost qs = self@.main_queues;
            let mut i: usize = 0;
            let mut c: usize = 0;
            loop
                invariant
                    qs == self@.main_queues,
                    qs.len() <= usize::MAX,
                    0 <= i < qs.len(),
                    c == nonempty_before(qs, i as int),
                    c <= pick,
                    pick < nonempty_count(qs),
                ensures
                    0 <= i < qs.len(),
                    qs[i as int].len() > 0,
                    nonempty_before(qs, i as int) == pick,
                decreases qs.len() - i,
            {
                if self.main_queues[i].len() > 0 {
                    if c == pick {
                        break;
                    }
                    c = c + 1;
                }
                i = i + 1;
                proof {
                    if i as int == qs.len() {
                        assert(nonempty_count(qs) == nonempty_before(qs, i as int));
                    }
                }
            }
            let unit = self.main_queues[i].remove(0);
            proof {
                lemma_total_len_update(qs, i as int, qs[i as int].drop_first());
                assert(self@.main_queues =~= qs.update(i as int, qs[i as int].drop_first()));
            }
            self.main_len = self.main_len - 1;
            self.is_main = true;
            proof {
                let t = old(self)@.take_main(i as int);
                assert(self@.main_queues =~= t.main_queues);
                assert(self@ == t);
            }
            (unit, was)
        } else {
            let unit = self.background.swap_remove(pick);
            self.is_main = false;
            (unit, was)
        }
    }

    /// One scheduling step: matures due timers, then, if any unit is ready,
    /// selects one at random and takes it; returns the unit and the
    /// main-context flag's earlier value, to be put back by
    /// `restore_main_thread` once the unit has run.
    ///
    /// Main work is chosen with probability proportional to the number of
    /// main-queue units; a main unit is the front of a uniformly chosen
    /// non-empty main queue, a background unit a uniformly chosen one.
    pub fn take_next(&mut self) -> (r: Option<(R, bool)>)
        requires
            old(self).wf(),
        ensures
            final(self).wf(),
            r is None <==> old(self)@.matured().ready() == 0,
            r is None ==> final(self)@ == old(self)@.matured(),
            final(self)@.queued() == old(self)@.queued() - if r is Some { 1int } else { 0int },
            r matches Some((unit, was)) ==> {
                let m = old(self)@.matured();
                &&& was == old(self)@.is_main
                &&& (exists|i: int|
                    0 <= i < m.main_queues.len() && m.main_queues[i].len() > 0
                    && unit == m.main_queues[i][0] && final(self)@ == m.take_main(i))
                    || (exists|ix: int|
                    0 <= ix < m.background.len() && unit == m.background[ix]
                    && final(self)@ == m.take_background(ix))
            },
    {
        self.mature_timers();
        let f = self.main_len;
        let b = self.background.len();
        if f + b == 0 {
            return None;
        }
        let draw = gen_index(&mut self.random, f + b);
        let pick = if draw < f {
            let k = self.count_nonempty();
            proof {
                lemma_nonempty_count_positive(self@.main_queues);
            }
            gen_index(&mut self.random, k)
        } else {
            gen_index(&mut self.random, b)
        };
        let chosen = self.choose_unit(draw, pick);
        Some(chosen)
    }

    /// Position after every timer entry due no later than `due`, found by
    /// binary search.
    fn insertion_index(&self, due: u64) -> (r: usize)
        requires
            sorted_by_due(self@.delayed),
        ensures
            r == leading_due(self@.delayed, due),
    {
        let ghost d = self@.delayed;
        let mut lo: usize = 0;
        let mut hi: usize = self.delayed.len();
        while lo < hi
            invariant
                d == self@.delayed,
                sorted_by_due(d),
                0 <= lo <= hi <= d.len(),
                forall|i: int| 0 <= i < lo ==> d[i].0 <= due,
                forall|i: int| hi <= i < d.len() ==> d[i].0 > due,
            decreases hi - lo,
        {
            let mid = lo + (hi - lo) / 2;
            if self.delayed[mid].0 <= due {
                lo = mid + 1;
            } else {
                hi = mid;
            }
        }
        proof {
            lemma_leading_due_split(d, due, lo as int);
        }
        lo
    }

    /// Queues a unit to become background work once `duration` has passed on
    /// the simulated clock; among timers due at the same time, it goes last.
    pub fn dispatch_after(&mut self, duration: u64, runnable: R)
        requires
            old(self).wf(),
            old(self)@.queued() < usize::MAX,
            old(self)@.now + duration <= u64::MAX,
        ensures
            final(self).wf(),
            final(self)@ == old(self)@.enqueue_delayed((old(self)@.now + duration) as u64, runnable),
            final(self)@.queued() == old(self)@.queued() + 1,
    {
        let due = self.now + duration;
        let ix = self.insertion_index(due);
        proof {
            lemma_insert_sorted(self@.delayed, due, runnable);
            lemma_leading_due_bounds(self@.delayed, due);
        }
        self.delayed.insert(ix, (due, runnable));
        proof {
            assert(self@.main_queues =~= old(self)@.main_queues);
        }
    }

    /// The time that advancing the clock by `by` aims at.
    pub fn clock_target(&self, by: u64) -> (r: u64)
        requires
            self@.now + by <= u64::MAX,
        ensures
            r == self@.now + by,
    {
        self.now + by
    }

    /// One move of the clock toward `target`, to be made once all ready work
    /// has run: to the earliest timer if it is due by `target`, which then
    /// matures on the next step (returns true, to go on), else to `target`
    /// itself (returns false, the advance is done). The clock never moves
    /// back.
    pub fn advance_clock_step(&mut self, target: u64) -> (r: bool)
        requires
            old(self).wf(),
            old(self)@.now <= target,
        ensures
            final(self).wf(),
            r == old(self)@.timer_due_by(target),
            final(self)@ == old(self)@.clock_step(target),
            old(self)@.now <= final(self)@.now <= target,
    {
        if self.delayed.len() > 0 && self.delayed[0].0 <= target {
            let due = self.delayed[0].0;
            if due > self.now {
                self.now = due;
            }
            true
        } else {
            self.now = target;
            false
        }
    }

    /// A yield point whose count is drawn uniformly from `0..10`.
    pub fn simulate_random_delay(&mut self) -> (r: YieldNow)
        ensures
            r@ < RANDOM_DELAY_BOUND,
            final(self)@ == old(self)@,
            final(self).wf() == old(self).wf(),
    {
        YieldNow::new(gen_index(&mut self.random, RANDOM_DELAY_BOUND))
    }

    /// Puts back the main-context flag once a unit has run.
    pub fn restore_main_thread(&mut self, was: bool)
        ensures
            final(self)@ == old(self)@.with_main_flag(was),
            final(self).wf() == old(self).wf(),
    {
        self.is_main = was;
    }
}

} // verus!
