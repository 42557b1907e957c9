use uchan::{Queue, RecvOp, RecvRound, SendOp, Signal, TimedRound, TimedWaiting, Waiting};

fn finish<T>(op: &mut SendOp<T>, queue: &mut Queue<T>) -> Vec<Signal> {
    let mut signals = Vec::new();
    loop {
        let signal = op.step(queue);
        signals.push(signal);
        if signal == Signal::Done {
            return signals;
        }
    }
}

#[test]
fn messages_come_out_in_the_order_they_went_in() {
    let mut queue = Queue::new();
    for i in 0..1000u32 {
        assert!(queue.has_room());
        assert_eq!(queue.send(i), Ok(()));
    }
    for i in 0..1000u32 {
        assert_eq!(queue.try_recv(), Ok(Some(i)));
    }
    assert_eq!(queue.try_recv(), Ok(None));
}

#[test]
fn sends_and_receives_can_alternate_across_blocks() {
    let mut queue = Queue::new();
    let mut next = 0u32;
    for i in 0..700u32 {
        assert_eq!(queue.send(i), Ok(()));
        if i % 3 != 0 {
            assert_eq!(queue.try_recv(), Ok(Some(next)));
            next += 1;
        }
    }
    while next < 700 {
        assert_eq!(queue.try_recv(), Ok(Some(next)));
        next += 1;
    }
    assert_eq!(queue.try_recv(), Ok(None));
}

#[test]
fn a_full_block_is_left_for_the_next_one() {
    let mut queue = Queue::new();
    for i in 0..256u32 {
        assert_eq!(queue.send(i), Ok(()));
    }
    for i in 0..256u32 {
        assert_eq!(queue.try_recv(), Ok(Some(i)));
    }
    assert_eq!(queue.try_recv(), Ok(None));
    assert_eq!(queue.send(256), Ok(()));
    assert_eq!(queue.try_recv(), Ok(Some(256)));
    assert_eq!(queue.try_recv(), Ok(None));
}

#[test]
fn a_send_fails_after_the_receiver_hung_up() {
    let mut queue = Queue::new();
    assert_eq!(queue.send(1), Ok(()));
    queue.disconnect(false);
    for i in 2..5000 {
        assert_eq!(queue.send(i), Err(i));
    }
    assert_eq!(queue.drop(), vec![1]);
}

#[test]
fn messages_sent_before_the_senders_hung_up_are_received() {
    let mut queue = Queue::new();
    assert_eq!(queue.send('a'), Ok(()));
    assert_eq!(queue.send('b'), Ok(()));
    queue.disconnect(true);
    assert_eq!(queue.try_recv(), Ok(Some('a')));
    assert_eq!(queue.try_recv(), Ok(Some('b')));
    assert_eq!(queue.try_recv(), Err(()));
    assert_eq!(queue.try_recv(), Err(()));
}

#[test]
fn drop_hands_out_what_is_left() {
    let empty: Queue<String> = Queue::new();
    assert!(empty.drop().is_empty());

    let mut queue = Queue::new();
    for i in 0..600 {
        assert_eq!(queue.send(i), Ok(()));
    }
    for i in 0..300 {
        assert_eq!(queue.try_recv(), Ok(Some(i)));
    }
    let left: Vec<i32> = (300..600).collect();
    assert_eq!(queue.drop(), left);
}

#[test]
fn drop_stops_in_each_block_at_a_message_that_was_not_written() {
    let mut queue = Queue::new();
    assert_eq!(queue.send(0), Ok(()));
    let mut late = SendOp::new(1);
    assert_eq!(late.step(&mut queue), Signal::Continue);
    for i in 2..258 {
        assert_eq!(queue.send(i), Ok(()));
    }
    assert_eq!(queue.drop(), vec![0, 256, 257]);
}

#[test]
fn the_first_send_takes_eight_accesses_and_the_second_three() {
    let mut queue = Queue::new();
    let mut first = SendOp::new(1);
    assert_eq!(finish(&mut first, &mut queue).len(), 8);
    assert_eq!(first.finish(), Ok(()));
    let mut second = SendOp::new(2);
    assert_eq!(
        finish(&mut second, &mut queue),
        vec![Signal::Continue, Signal::Continue, Signal::Done]
    );
}

#[test]
fn two_sends_that_race_for_the_first_block_both_arrive() {
    let mut queue = Queue::new();
    let mut a = SendOp::new('a');
    let mut b = SendOp::new('b');
    for _ in 0..3 {
        a.step(&mut queue);
        b.step(&mut queue);
    }
    a.step(&mut queue);
    b.step(&mut queue);
    // Both have seen the tail; only one of them can move it.
    assert_eq!(b.step(&mut queue), Signal::Continue);
    assert_eq!(a.step(&mut queue), Signal::Yield);
    assert_eq!(a.step(&mut queue), Signal::Spin);
    finish(&mut a, &mut queue);
    finish(&mut b, &mut queue);
    assert_eq!(a.finish(), Ok(()));
    assert_eq!(b.finish(), Ok(()));
    assert_eq!(queue.try_recv(), Ok(Some('b')));
    assert_eq!(queue.try_recv(), Ok(Some('a')));
}

#[test]
fn a_send_that_loses_a_used_up_block_tries_again() {
    let mut queue = Queue::new();
    for i in 0..256 {
        assert_eq!(queue.send(i), Ok(()));
    }
    let mut slow = SendOp::new(1000);
    assert_eq!(slow.step(&mut queue), Signal::Continue);
    assert_eq!(queue.send(256), Ok(()));
    let signals = finish(&mut slow, &mut queue);
    // The link, the tail, the count of the lost block, then a new claim.
    assert_eq!(
        signals,
        vec![
            Signal::Continue,
            Signal::Continue,
            Signal::Spin,
            Signal::Continue,
            Signal::Continue,
            Signal::Done
        ]
    );
    for i in 0..257 {
        assert_eq!(queue.try_recv(), Ok(Some(i)));
    }
    assert_eq!(queue.try_recv(), Ok(Some(1000)));
}

#[test]
fn a_message_behind_one_that_is_not_written_waits_for_it() {
    let mut queue = Queue::new();
    assert_eq!(queue.send(0), Ok(()));
    assert_eq!(queue.try_recv(), Ok(Some(0)));
    let mut slow = SendOp::new(1);
    assert_eq!(slow.step(&mut queue), Signal::Continue);
    assert_eq!(queue.send(2), Ok(()));
    assert_eq!(queue.try_recv(), Ok(None));
    finish(&mut slow, &mut queue);
    assert_eq!(queue.try_recv(), Ok(Some(1)));
    assert_eq!(queue.try_recv(), Ok(Some(2)));
}

#[test]
fn a_send_under_way_fails_if_it_has_no_slot_when_the_receiver_hangs_up() {
    let mut queue = Queue::new();
    let mut op = SendOp::new(1);
    op.step(&mut queue);
    op.step(&mut queue);
    op.step(&mut queue);
    queue.disconnect(false);
    assert_eq!(op.step(&mut queue), Signal::Done);
    assert_eq!(op.finish(), Err(1));
    assert!(queue.drop().is_empty());
}

#[test]
fn a_send_under_way_succeeds_if_it_has_a_slot_when_the_receiver_hangs_up() {
    let mut queue = Queue::new();
    assert_eq!(queue.send(0), Ok(()));
    let mut op = SendOp::new(1);
    op.step(&mut queue);
    queue.disconnect(false);
    finish(&mut op, &mut queue);
    assert_eq!(op.finish(), Ok(()));
    assert_eq!(queue.drop(), vec![0, 1]);
}

#[test]
fn a_receive_that_began_before_the_hang_up_reports_no_loss() {
    let mut queue = Queue::new();
    assert_eq!(queue.send(1), Ok(()));
    assert_eq!(queue.try_recv(), Ok(Some(1)));
    let mut op = RecvOp::new();
    op.step(&mut queue);
    op.step(&mut queue);
    op.step(&mut queue);
    assert!(op.is_over());
    assert_eq!(queue.send(2), Ok(()));
    queue.disconnect(true);
    // The slot was empty and the senders had not hung up when the receive looked.
    assert_eq!(op.finish(), Ok(None));
    assert_eq!(queue.try_recv(), Ok(Some(2)));
    assert_eq!(queue.try_recv(), Err(()));
}

#[test]
fn many_sends_at_once_all_find_a_place() {
    let mut queue = Queue::new();
    let mut ops: Vec<SendOp<usize>> = (0..600).map(SendOp::new).collect();
    let mut open = vec![true; 600];
    while open.iter().any(|o| *o) {
        for (op, open) in ops.iter_mut().zip(open.iter_mut()) {
            if *open {
                assert!(queue.has_room());
                *open = op.step(&mut queue) != Signal::Done;
            }
        }
    }
    for op in ops {
        assert_eq!(op.finish(), Ok(()));
    }
    let mut got = queue.drop();
    assert_eq!(got.len(), 600);
    got.sort();
    assert_eq!(got, (0..600).collect::<Vec<usize>>());
}

#[test]
fn a_send_notifies_the_receiver() {
    let mut queue = Queue::new();
    assert!(queue.park());
    assert!(!queue.take_wake());
    assert_eq!(queue.send(1), Ok(()));
    assert!(queue.take_wake());
    assert!(!queue.take_wake());
    assert_eq!(queue.resume::<u8>(), uchan::TryParkResult::Unparked);
    assert_eq!(queue.send(2), Ok(()));
    assert!(!queue.park());
    assert_eq!(queue.try_park_for(5u8), Err(5));
    assert_eq!(queue.resume::<u8>(), uchan::TryParkResult::Timeout);
}

#[test]
fn sends_succeed_however_much_is_queued() {
    let mut queue = Queue::new();
    for i in 0..50_000u32 {
        assert!(queue.has_room());
        assert_eq!(queue.send(i), Ok(()));
    }
    assert_eq!(queue.try_recv(), Ok(Some(0)));
    assert_eq!(queue.drop().len(), 49_999);
}

#[test]
fn the_receiving_side_stays_as_it_is_when_the_receiver_hangs_up() {
    for closed in [false, true] {
        let mut queue = Queue::new();
        for i in 0..3 {
            assert_eq!(queue.send(i), Ok(()));
        }
        if closed {
            queue.disconnect(true);
        }
        queue.disconnect(false);
        assert!(queue.has_room());
        assert_eq!(queue.send(9), Err(9));
        for i in 0..3 {
            assert_eq!(queue.try_recv(), Ok(Some(i)));
        }
        assert_eq!(queue.try_recv(), if closed { Err(()) } else { Ok(None) });
    }
}

#[test]
fn a_receive_that_waits_returns_at_once_where_there_is_something_to_return() {
    let mut queue = Queue::new();
    let mut waiting = Waiting { spins: 0 };
    let mut timed = TimedWaiting::new(0u8);
    assert_eq!(queue.send('a'), Ok(()));
    assert_eq!(queue.send('b'), Ok(()));
    queue.disconnect(true);
    assert!(matches!(queue.recv(&mut waiting), RecvRound::Done(Ok('a'))));
    assert!(matches!(queue.recv_timeout(&mut timed), TimedRound::Done(Ok(Some('b')))));
    assert!(matches!(queue.recv(&mut waiting), RecvRound::Done(Err(()))));
    assert!(matches!(queue.recv_timeout(&mut timed), TimedRound::Done(Err(()))));
    assert_eq!(timed.timeout, Some(0));
}

#[test]
fn a_timed_receive_on_a_queue_says_that_the_time_has_run_out() {
    let mut queue: Queue<u8> = Queue::new();
    let mut timed = TimedWaiting::new(5u8);
    assert!(matches!(queue.recv_timeout(&mut timed), TimedRound::Sleep(5)));
    queue.resume_timeout(&mut timed, Some(2));
    assert_eq!(timed.timeout, None);
    assert!(matches!(queue.recv_timeout(&mut timed), TimedRound::Done(Ok(None))));
}

#[test]
fn what_many_threads_sent_is_received_once_each_and_in_the_order_of_each_thread() {
    const THREADS: usize = 5;
    const EACH: usize = 150;
    let mut queue = Queue::new();
    let mut ops: Vec<SendOp<(usize, usize)>> = (0..THREADS).map(|t| SendOp::new((t, 0))).collect();
    let mut sent = vec![0; THREADS];
    let mut turn = 0;
    while sent.iter().any(|n| *n < EACH) {
        turn = (turn * 7 + 3) % 11;
        let t = turn % THREADS;
        if sent[t] < EACH && ops[t].step(&mut queue) == Signal::Done {
            sent[t] += 1;
            let next = SendOp::new((t, sent[t]));
            assert_eq!(std::mem::replace(&mut ops[t], next).finish(), Ok(()));
        }
        for t in 0..THREADS {
            if sent[t] < EACH && ops[t].step(&mut queue) == Signal::Done {
                sent[t] += 1;
                let next = SendOp::new((t, sent[t]));
                assert_eq!(std::mem::replace(&mut ops[t], next).finish(), Ok(()));
            }
        }
    }
    queue.disconnect(true);
    let mut seen = vec![0; THREADS];
    while let Ok(Some((t, n))) = queue.try_recv() {
        assert_eq!(n, seen[t]);
        seen[t] += 1;
    }
    assert_eq!(seen, vec![EACH; THREADS]);
    assert_eq!(queue.try_recv(), Err(()));
}
