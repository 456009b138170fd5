use rand::rngs::StdRng;
use rand::SeedableRng;
use test_dispatcher::TestDispatcherState;

fn state(seed: u64) -> TestDispatcherState<u32> {
    TestDispatcherState::new(StdRng::seed_from_u64(seed))
}

fn run_until_parked(s: &mut TestDispatcherState<u32>, log: &mut Vec<u32>) {
    while let Some((unit, was)) = s.take_next() {
        log.push(unit);
        s.restore_main_thread(was);
    }
}

fn advance_clock(s: &mut TestDispatcherState<u32>, by: u64, log: &mut Vec<u32>) {
    let target = s.clock_target(by);
    loop {
        run_until_parked(s, log);
        if !s.advance_clock_step(target) {
            break;
        }
    }
}

fn mixed_run(seed: u64) -> Vec<u32> {
    let mut s = state(seed);
    let other = s.mint_identity();
    for i in 0..10 {
        s.dispatch(i);
        s.dispatch_on_main_thread(0, 100 + i);
        s.dispatch_on_main_thread(other, 200 + i);
        s.dispatch_after(u64::from(i % 3), 300 + i);
    }
    let mut log = Vec::new();
    advance_clock(&mut s, 5, &mut log);
    log
}

#[test]
fn same_seed_same_schedule() {
    for seed in 0..20 {
        assert_eq!(mixed_run(seed), mixed_run(seed));
    }
    assert_ne!(mixed_run(1), mixed_run(2));
}

#[test]
fn main_queue_runs_in_submission_order() {
    for seed in 0..50 {
        let log = mixed_run(seed);
        assert_eq!(log.len(), 40);
        let first: Vec<u32> = log.iter().copied().filter(|u| (100..110).contains(u)).collect();
        let second: Vec<u32> = log.iter().copied().filter(|u| (200..210).contains(u)).collect();
        assert_eq!(first, (100..110).collect::<Vec<u32>>());
        assert_eq!(second, (200..210).collect::<Vec<u32>>());
    }
}

#[test]
fn identities_have_no_mutual_order() {
    let mut a_first = false;
    let mut b_first = false;
    for seed in 0..200 {
        let mut s = state(seed);
        let b = s.mint_identity();
        s.dispatch_on_main_thread(0, 1);
        s.dispatch_on_main_thread(b, 2);
        let mut log = Vec::new();
        run_until_parked(&mut s, &mut log);
        match log.as_slice() {
            [1, 2] => a_first = true,
            [2, 1] => b_first = true,
            other => panic!("unexpected schedule {:?}", other),
        }
    }
    assert!(a_first && b_first);
}

#[test]
fn timers_fire_in_due_order() {
    let mut s = state(7);
    s.dispatch_after(10, 10);
    s.dispatch_after(5, 5);
    s.dispatch_after(20, 20);
    let mut log = Vec::new();
    advance_clock(&mut s, 25, &mut log);
    assert_eq!(log, vec![5, 10, 20]);
    assert_eq!(s.now(), 25);
}

#[test]
fn timers_due_together_keep_insertion_order() {
    let mut s = state(3);
    s.dispatch_after(4, 1);
    s.dispatch_after(4, 2);
    s.dispatch_after(4, 3);
    let mut log = Vec::new();
    advance_clock(&mut s, 4, &mut log);
    assert_eq!(log.len(), 3);
    let mut sorted = log.clone();
    sorted.sort();
    assert_eq!(sorted, vec![1, 2, 3]);
}

#[test]
fn advance_stops_at_target() {
    let mut s = state(0);
    s.dispatch_after(20, 1);
    s.dispatch_after(8, 2);
    let mut log = Vec::new();
    advance_clock(&mut s, 15, &mut log);
    assert_eq!(log, vec![2]);
    assert_eq!(s.now(), 15);
    assert_eq!(s.queued_len(), 1);
    advance_clock(&mut s, 5, &mut log);
    assert_eq!(log, vec![2, 1]);
    assert_eq!(s.now(), 20);
    assert_eq!(s.queued_len(), 0);
}

#[test]
fn clock_target_adds_duration() {
    let mut s = state(0);
    assert_eq!(s.clock_target(9), 9);
    let mut log = Vec::new();
    advance_clock(&mut s, 9, &mut log);
    assert_eq!(s.clock_target(3), 12);
}

#[test]
fn clock_step_moves_to_earliest_timer() {
    let mut s = state(0);
    s.dispatch_after(6, 1);
    assert!(s.advance_clock_step(10));
    assert_eq!(s.now(), 6);
    let mut log = Vec::new();
    run_until_parked(&mut s, &mut log);
    assert_eq!(log, vec![1]);
    assert!(!s.advance_clock_step(10));
    assert_eq!(s.now(), 10);
}

#[test]
fn timer_waits_for_its_time() {
    let mut s = state(0);
    s.dispatch_after(1, 1);
    assert!(s.take_next().is_none());
    assert_eq!(s.queued_len(), 1);
}

#[test]
fn parked_scheduler_makes_no_progress() {
    let mut s = state(11);
    s.dispatch(1);
    s.dispatch_on_main_thread(0, 2);
    s.dispatch_after(0, 3);
    let mut log = Vec::new();
    run_until_parked(&mut s, &mut log);
    assert_eq!(log.len(), 3);
    assert!(s.take_next().is_none());
    assert!(s.take_next().is_none());
}

#[test]
fn empty_scheduler_makes_no_progress() {
    let mut s = state(0);
    assert!(s.take_next().is_none());
    assert_eq!(s.queued_len(), 0);
}

#[test]
fn nested_drive_restores_outer_flag() {
    let mut s = state(5);
    assert!(s.is_main_thread());
    s.dispatch(1);
    let (outer, was_outer) = s.take_next().unwrap();
    assert_eq!(outer, 1);
    assert!(was_outer);
    assert!(!s.is_main_thread());
    // the outer unit drives the scheduler again, which runs main work
    s.dispatch_on_main_thread(0, 2);
    let (inner, was_inner) = s.take_next().unwrap();
    assert_eq!(inner, 2);
    assert!(!was_inner);
    assert!(s.is_main_thread());
    s.restore_main_thread(was_inner);
    assert!(!s.is_main_thread());
    assert!(s.take_next().is_none());
    assert!(!s.is_main_thread());
    s.restore_main_thread(was_outer);
    assert!(s.is_main_thread());
}

#[test]
fn background_unit_clears_main_flag() {
    let mut s = state(5);
    s.dispatch(4);
    let (unit, was) = s.take_next().unwrap();
    assert_eq!(unit, 4);
    assert!(was);
    assert!(!s.is_main_thread());
    s.restore_main_thread(was);
    assert!(s.is_main_thread());
}

#[test]
fn choose_unit_follows_draws() {
    let mut s = state(0);
    let b = s.mint_identity();
    let c = s.mint_identity();
    s.dispatch_on_main_thread(b, 10);
    s.dispatch_on_main_thread(b, 11);
    s.dispatch_on_main_thread(c, 20);
    s.dispatch(30);
    s.dispatch(31);
    s.dispatch(32);
    // main work: the second non-empty queue is identity `c`
    assert_eq!(s.choose_unit(0, 1), (20, true));
    assert!(s.is_main_thread());
    // the first non-empty queue is now identity `b`
    assert_eq!(s.choose_unit(1, 0), (10, true));
    // background: swap-and-pop at index 0
    assert_eq!(s.choose_unit(1, 0), (30, true));
    assert!(!s.is_main_thread());
    assert_eq!(s.choose_unit(2, 0), (32, false));
    assert_eq!(s.choose_unit(0, 0), (11, false));
    assert_eq!(s.choose_unit(0, 0), (31, true));
    assert_eq!(s.queued_len(), 0);
}

#[test]
fn identities_are_minted_in_order() {
    let mut s = state(0);
    assert_eq!(s.next_identity(), 1);
    assert_eq!(s.mint_identity(), 1);
    assert_eq!(s.mint_identity(), 2);
    assert_eq!(s.next_identity(), 3);
}

#[test]
fn random_delay_draws_below_ten() {
    let mut seen = [false; 10];
    for seed in 0..300 {
        let mut s = state(seed);
        let mut y = s.simulate_random_delay();
        let count = y.remaining();
        assert!(count < 10);
        seen[count] = true;
        let mut pending = 0;
        while !y.poll_ready() {
            pending += 1;
        }
        assert_eq!(pending, count);
        assert!(y.poll_ready());
    }
    assert!(seen.iter().all(|s| *s));
}

#[test]
fn yield_point_counts_down() {
    let mut y = test_dispatcher::YieldNow::new(2);
    assert!(!y.poll_ready());
    assert_eq!(y.remaining(), 1);
    assert!(!y.poll_ready());
    assert!(y.poll_ready());
    assert_eq!(y.remaining(), 0);
}

#[test]
fn parking_flag() {
    let mut s = state(0);
    assert!(!s.parking_allowed());
    s.allow_parking();
    assert!(s.parking_allowed());
}

#[test]
fn waiting_backtrace_is_taken_once() {
    let mut s = state(0);
    assert!(s.waiting_backtrace().is_none());
    s.start_waiting();
    assert!(s.waiting_backtrace().is_some());
    assert!(s.waiting_backtrace().is_none());
    s.start_waiting();
    s.finish_waiting();
    assert!(s.waiting_backtrace().is_none());
}
