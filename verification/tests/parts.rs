use uchan::bench::{fewest, latencies, most, plan, total};
use uchan::bounded::{
    Array, BoundedRecv, BoundedSend, Collect, Entry, Pending, SendEvent, SendStage,
};
use uchan::{Backoff, ParkState, Parker, TimedWait, TryParkResult, WaitAction};

#[test]
fn backoff_spins_a_random_but_bounded_number_of_times() {
    let mut backoff = Backoff::new(1, false);
    assert_eq!(backoff.yield_now(), 31);
    assert_eq!(backoff.seed, 1103527590);
    assert_eq!(backoff.yield_now(), 95);
    for _ in 0..100 {
        let spins = backoff.yield_now();
        assert!(31 <= spins && spins <= 127);
    }
    Backoff::spin_loop_hint();
}

#[test]
fn backoff_gives_one_hint_where_one_is_enough() {
    let mut backoff = Backoff::new(1103527590, true);
    assert_eq!(backoff.next_pause(), 1);
    assert_eq!(backoff.yield_now(), 1);
    assert_eq!(backoff.seed, 1103527590);
    backoff.single = false;
    assert_eq!(backoff.next_pause(), 95);
    assert_eq!(backoff.seed, 1103527590usize.wrapping_mul(1103515245).wrapping_add(12345));
}

#[test]
fn a_parker_that_was_notified_does_not_sleep() {
    let mut parker = Parker::new();
    parker.unpark();
    parker.unpark();
    assert!(!parker.park());
    assert!(parker.park());
    assert_eq!(parker.state, ParkState::Parked);
    assert!(parker.park());
    assert_eq!(parker.state, ParkState::Parked);
}

#[test]
fn a_parker_that_sleeps_is_woken_once() {
    let mut parker = Parker::new();
    assert!(parker.park());
    parker.unpark();
    assert!(parker.take_wake());
    assert!(!parker.take_wake());
    assert_eq!(parker.resume::<u8>(), TryParkResult::Unparked);
    assert_eq!(parker, Parker::new());
}

#[test]
fn a_timed_park_ends_in_one_of_three_ways() {
    let mut parker = Parker::new();
    assert_eq!(parker.try_park_for(3u8), Err(3));
    assert_eq!(parker.resume::<u8>(), TryParkResult::Timeout);
    parker.unpark();
    assert_eq!(parker.try_park_for(3u8), Ok(TryParkResult::Interrupted(3)));
    assert_eq!(parker.try_park_for(4u8), Err(4));
    parker.unpark();
    assert_eq!(parker.resume::<u8>(), TryParkResult::Unparked);
}

#[test]
fn a_parker_that_is_shut_down_never_sleeps() {
    let mut parker = Parker::new();
    assert!(parker.park());
    parker.shutdown();
    assert!(parker.take_wake());
    assert_eq!(parker.resume::<u8>(), TryParkResult::Unparked);
    assert!(!parker.park());
    assert!(!parker.park());
    parker.unpark();
    assert_eq!(parker.state, ParkState::Closed);
}

#[test]
fn a_timed_wait_sleeps_for_what_is_left() {
    let mut wait = TimedWait::new(100);
    assert_eq!(wait.step(false, 1000), WaitAction::Sleep(100));
    assert_eq!(wait.step(false, 1040), WaitAction::Sleep(60));
    assert_eq!(wait.step(false, 990), WaitAction::Sleep(100));
    assert_eq!(wait.step(false, 1100), WaitAction::Sleep(0));
    assert_eq!(wait.step(false, 1101), WaitAction::TimedOut);
    assert_eq!(wait.step(true, 5000), WaitAction::Woken);
    assert_eq!(TimedWait::new(0).step(true, 0), WaitAction::Woken);
    assert_eq!(wait.left(1040), Some(60));
    assert_eq!(wait.left(1101), None);
    assert_eq!(TimedWait::new(5).left(7), Some(5));
}

#[test]
fn the_plan_follows_the_processors() {
    let runs: Vec<(&str, usize)> = plan(4).iter().map(|run| (run.name, run.threads)).collect();
    assert_eq!(
        runs,
        vec![
            ("spsc", 2),
            ("micro_contention", 3),
            ("high_contention", 4),
            ("over_subscribed", 8)
        ]
    );
    let threads: Vec<usize> = plan(8).iter().map(|run| run.threads).collect();
    assert_eq!(threads, vec![2, 3, 5, 8, 16]);
    let threads: Vec<usize> = plan(1).iter().map(|run| run.threads).collect();
    assert_eq!(threads, vec![2, 1, 2]);
}

#[test]
fn counts_are_summed_up() {
    assert_eq!(total(&vec![3, 4, usize::MAX]), usize::MAX as u128 + 7);
    assert_eq!(total(&vec![]), 0);
    assert_eq!(fewest(&vec![3, 1, 2]), Some(1));
    assert_eq!(fewest(&vec![]), None);
    assert_eq!(most(&vec![3, 1, 2]), 3);
    assert_eq!(most(&vec![]), 0);
}

#[test]
fn percentiles_are_picked_from_the_sorted_times() {
    let (sorted, picked) = latencies(vec![40, 10, 30, 20], &vec![50, 99, 0]);
    assert_eq!(sorted, vec![10, 20, 30, 40]);
    assert_eq!(picked, vec![Some(20), Some(40), None]);
    let (_, picked) = latencies(vec![5, 3, 1], &vec![50]);
    assert_eq!(picked, vec![Some(3)]);
    let (_, picked) = latencies((0..50).rev().collect(), &vec![99]);
    assert_eq!(picked, vec![Some(49)]);
    assert_eq!(latencies(vec![], &vec![50]).1, vec![None]);
}

#[test]
fn a_buffer_numbers_its_places() {
    let array: Array<char> = Array::allocate(3);
    assert_eq!(array.stamps, vec![0, 1, 2]);
    assert_eq!(array.slot(2), (&2, &None));
    assert_eq!(Array::<u8>::stamp_offset(1, 1, 5), Some(8));
    assert_eq!(Array::<u64>::stamp_offset(8, 8, 5), Some(40));
    assert_eq!(Array::<u64>::stamp_offset(8, 8, usize::MAX), None);
    assert_eq!(Array::<u8>::layout(1, 1, 5), Some((28, 4)));
    assert_eq!(Array::<u64>::layout(8, 8, 5), Some((60, 8)));
    assert_eq!(Array::<u64>::layout(8, 8, usize::MAX / 12), None);
}

#[test]
fn a_bounded_send_decides_by_what_came_of_each_attempt() {
    let tried = |outcome| BoundedSend::next(SendStage::Try, SendEvent::Tried(outcome));
    assert!(matches!(tried(Ok(())), BoundedSend::Done(Ok(()))));
    assert!(matches!(tried(Err(Ok(1))), BoundedSend::Load(1)));
    assert!(matches!(tried(Err(Err(1))), BoundedSend::Done(Err(1))));
    let loaded = |value, pending| {
        BoundedSend::next(SendStage::Load, SendEvent::Loaded { value, pending })
    };
    assert!(matches!(loaded(1, Pending::Closed), BoundedSend::Done(Err(1))));
    assert!(matches!(
        loaded(1, Pending::Waiter(64)),
        BoundedSend::Publish { next: Pending::Waiter(64), entry: Entry::Full(1) }
    ));
    assert!(matches!(
        loaded(1, Pending::Nobody),
        BoundedSend::Publish { next: Pending::Nobody, entry: Entry::Full(1) }
    ));
    let published = |entry, linked| {
        BoundedSend::next(SendStage::Publish, SendEvent::Published { entry, linked })
    };
    assert!(matches!(published(Entry::Full(1), false), BoundedSend::Rest(1)));
    assert!(matches!(published(Entry::Full(1), true), BoundedSend::Wait));
    assert!(matches!(
        BoundedSend::next(SendStage::Rest, SendEvent::Rested(1)),
        BoundedSend::Try(1)
    ));
    let waited = |entry| BoundedSend::next(SendStage::Wait, SendEvent::Waited(entry));
    assert!(matches!(waited(Entry::Empty), BoundedSend::Done(Ok(()))));
    assert!(matches!(waited(Entry::Disconnected(1)), BoundedSend::Done(Err(1))));
}

/// Runs a send to a full buffer: it fails to link up twice, then links up, and the receiver
/// leaves the entry that `leave` makes of what was shown.
fn send_to_a_full_buffer(value: u8, leave: fn(u8) -> Entry<u8>) -> (Vec<SendStage>, Result<(), u8>) {
    let mut stages = Vec::new();
    let mut failures = 2;
    let mut shown = 0;
    let mut send = BoundedSend::new(value);
    loop {
        let stage = send.stage();
        stages.push(stage);
        let event = match send {
            BoundedSend::Try(value) => SendEvent::Tried(Err(Ok(value))),
            BoundedSend::Load(value) => SendEvent::Loaded { value, pending: Pending::Nobody },
            BoundedSend::Publish { entry, .. } => {
                if let Entry::Full(value) = &entry {
                    shown = *value;
                }
                let linked = failures == 0;
                failures -= if linked { 0 } else { 1 };
                SendEvent::Published { entry, linked }
            }
            BoundedSend::Rest(value) => SendEvent::Rested(value),
            BoundedSend::Wait => SendEvent::Waited(leave(shown)),
            BoundedSend::Done(result) => return (stages, result),
        };
        send = BoundedSend::next(stage, event);
    }
}

#[test]
fn a_bounded_send_to_a_full_buffer_waits_for_the_receiver() {
    let (stages, result) = send_to_a_full_buffer(7, |_| Entry::Empty);
    assert_eq!(
        stages,
        vec![
            SendStage::Try,
            SendStage::Load,
            SendStage::Publish,
            SendStage::Rest,
            SendStage::Try,
            SendStage::Load,
            SendStage::Publish,
            SendStage::Rest,
            SendStage::Try,
            SendStage::Load,
            SendStage::Publish,
            SendStage::Wait,
            SendStage::Done
        ]
    );
    assert_eq!(result, Ok(()));
}

#[test]
fn a_bounded_send_gives_its_message_back_when_the_receiver_hangs_up() {
    let (_, result) = send_to_a_full_buffer(7, Entry::Disconnected);
    assert_eq!(result, Err(7));
}

#[test]
fn a_bounded_receive_waits_until_the_time_has_run_out() {
    assert!(matches!(BoundedRecv::<u8>::polled(Ok(None), false), BoundedRecv::Wait));
    assert!(matches!(BoundedRecv::<u8>::polled(Ok(None), true), BoundedRecv::Done(Ok(None))));
    assert!(matches!(BoundedRecv::polled(Ok(Some(1)), true), BoundedRecv::Done(Ok(Some(1)))));
    assert!(matches!(BoundedRecv::<u8>::polled(Err(()), false), BoundedRecv::Done(Err(()))));
}

#[test]
fn a_bounded_receiver_takes_over_those_who_wait() {
    assert_eq!(Collect::of(Some(64), Pending::Nobody), Collect::Next(64));
    assert_eq!(Collect::of(None, Pending::Nobody), Collect::Nobody);
    assert_eq!(Collect::of(None, Pending::Waiter(128)), Collect::Swap);
    assert_eq!(Collect::swapped(Pending::Waiter(128)), Collect::Next(128));
    assert_eq!(Collect::swapped(Pending::Nobody), Collect::Nobody);
}

#[test]
fn a_bounded_receiver_keeps_those_behind_the_next_one() {
    assert_eq!(Collect::Next(64).kept(Pending::Waiter(128)), Some(128));
    assert_eq!(Collect::Next(64).kept(Pending::Nobody), None);
    assert_eq!(Collect::Nobody.kept(Pending::Waiter(128)), None);
    let kept = Collect::swapped(Pending::Waiter(64)).kept(Pending::Waiter(128));
    assert_eq!(Collect::of(kept, Pending::Waiter(256)), Collect::Next(128));
}
