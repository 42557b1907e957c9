use uchan::{
    raw_channel, Event, RawReceiver, RawSender, RecvError, RecvRound, RecvTimeoutError, SendError,
    SendOp, Shared, Signal, TimedEvent, TimedRound, TimedWaiting, TryRecvError, Waiting,
};

struct Never;

impl Event for Never {
    fn with<F: FnOnce(&Self)>(f: F) {
        f(&Never)
    }
    fn wait(&self) {}
    fn set(&self) {}
}

impl TimedEvent for Never {
    type Duration = u32;
    fn try_wait_for(&self, _timeout: u32) -> bool {
        false
    }
}

fn channel<T>() -> (Shared<T>, RawSender<T>, RawReceiver<Never, T>) {
    raw_channel()
}

fn recv<T>(rx: &RawReceiver<Never, T>, shared: &mut Shared<T>) -> Result<T, RecvError> {
    let mut waiting = Waiting::new();
    match rx.recv(shared, &mut waiting) {
        RecvRound::Done(result) => result,
        _ => panic!("nothing to receive"),
    }
}

#[test]
fn simple_usage() {
    let (mut shared, tx, rx) = channel();
    assert!(tx.send(&mut shared, 10) == Ok(()));
    assert_eq!(recv(&rx, &mut shared), Ok(10));
}

#[test]
fn shared_usage() {
    let (mut shared, tx, rx) = channel();
    let mut senders = Vec::new();
    for _ in 0..10 {
        senders.push(tx.clone(&mut shared));
    }
    for (i, tx) in senders.into_iter().enumerate() {
        assert!(tx.send(&mut shared, i).is_ok());
        tx.drop(&mut shared);
    }
    for i in 0..10 {
        assert_eq!(rx.try_recv(&mut shared), Ok(i));
    }
    assert_eq!(rx.try_recv(&mut shared), Err(TryRecvError::Empty));
}

#[test]
fn receiving_fails_when_the_sender_is_gone() {
    let (mut shared, tx, rx) = channel::<i32>();
    tx.drop(&mut shared);
    assert_eq!(recv(&rx, &mut shared), Err(RecvError));
    assert_eq!(rx.try_recv(&mut shared), Err(TryRecvError::Disconnected));
}

#[test]
fn sending_fails_when_the_receiver_is_gone() {
    let (mut shared, tx, rx) = channel();
    assert!(tx.send(&mut shared, 1) == Ok(()));
    rx.drop(&mut shared);
    assert!(tx.send(&mut shared, 1) == Err(SendError(1)));
    let other = tx.clone(&mut shared);
    assert!(other.send(&mut shared, 2) == Err(SendError(2)));
}

#[test]
fn an_empty_channel_has_nothing() {
    let (mut shared, _tx, rx) = channel::<i32>();
    assert_eq!(rx.try_recv(&mut shared), Err(TryRecvError::Empty));
}

#[test]
fn buffering() {
    let (mut shared, tx, rx) = channel();
    for value in [1u8, 2, 3] {
        assert!(tx.send(&mut shared, value).is_ok());
    }
    tx.drop(&mut shared);
    assert_eq!(Ok(1), recv(&rx, &mut shared));
    assert_eq!(Ok(2), recv(&rx, &mut shared));
    assert_eq!(Ok(3), recv(&rx, &mut shared));
    assert_eq!(Err(RecvError), recv(&rx, &mut shared));
}

#[test]
fn the_channel_closes_with_the_last_sender() {
    let (mut shared, tx, rx) = channel();
    let second = tx.clone(&mut shared);
    tx.drop(&mut shared);
    assert_eq!(rx.try_recv(&mut shared), Err(TryRecvError::Empty));
    assert!(second.send(&mut shared, 'x').is_ok());
    second.drop(&mut shared);
    assert_eq!(rx.try_recv(&mut shared), Ok('x'));
    assert_eq!(rx.try_recv(&mut shared), Err(TryRecvError::Disconnected));
}

#[test]
fn a_receive_looks_sixteen_times_before_it_sleeps() {
    let (mut shared, tx, rx) = channel();
    let mut waiting = Waiting::new();
    for _ in 0..15 {
        assert!(matches!(rx.recv(&mut shared, &mut waiting), RecvRound::Spin));
    }
    assert!(matches!(rx.recv(&mut shared, &mut waiting), RecvRound::Sleep));
    assert!(!shared.take_wake());
    assert!(tx.send(&mut shared, 5).is_ok());
    assert!(shared.take_wake());
    rx.resume(&mut shared);
    assert!(matches!(rx.recv(&mut shared, &mut waiting), RecvRound::Done(Ok(5))));
    assert!(matches!(rx.recv(&mut shared, &mut waiting), RecvRound::Sleep));
    tx.drop(&mut shared);
    assert!(shared.take_wake());
    rx.resume(&mut shared);
    assert!(matches!(rx.recv(&mut shared, &mut waiting), RecvRound::Done(Err(RecvError))));
}

#[test]
fn a_notification_that_came_before_keeps_the_receiver_awake() {
    let (mut shared, tx, rx) = channel();
    assert!(tx.send(&mut shared, 1).is_ok());
    assert_eq!(rx.try_recv(&mut shared), Ok(1));
    let mut waiting = Waiting { spins: 0 };
    assert!(matches!(rx.recv(&mut shared, &mut waiting), RecvRound::Again));
    assert!(matches!(rx.recv(&mut shared, &mut waiting), RecvRound::Sleep));
}

#[test]
fn a_timed_receive_finds_a_message_that_is_there() {
    let (mut shared, tx, rx) = channel();
    assert!(tx.send(&mut shared, 'a').is_ok());
    let mut waiting = TimedWaiting::new(400u32);
    assert!(matches!(rx.recv_timeout(&mut shared, &mut waiting), TimedRound::Done(Ok('a'))));
}

#[test]
fn a_timed_receive_gives_up_when_the_time_has_run_out() {
    let (mut shared, _tx, rx) = channel::<char>();
    let mut waiting = TimedWaiting::new(400u32);
    assert!(matches!(rx.recv_timeout(&mut shared, &mut waiting), TimedRound::Sleep(400)));
    rx.resume_timeout(&mut shared, &mut waiting, None);
    assert!(matches!(
        rx.recv_timeout(&mut shared, &mut waiting),
        TimedRound::Done(Err(RecvTimeoutError::Timeout))
    ));
}

#[test]
fn a_timed_receive_that_was_woken_goes_on_with_the_time_that_is_left() {
    let (mut shared, tx, rx) = channel();
    let mut waiting = TimedWaiting::new(400u32);
    assert!(matches!(rx.recv_timeout(&mut shared, &mut waiting), TimedRound::Sleep(400)));
    assert!(tx.send(&mut shared, 1).is_ok());
    rx.resume_timeout(&mut shared, &mut waiting, Some(150));
    assert_eq!(waiting.timeout, Some(150));
    assert!(matches!(rx.recv_timeout(&mut shared, &mut waiting), TimedRound::Done(Ok(1))));
    assert!(matches!(rx.recv_timeout(&mut shared, &mut waiting), TimedRound::Sleep(150)));
}

#[test]
fn a_timed_receive_that_was_notified_before_keeps_its_time() {
    let (mut shared, tx, rx) = channel();
    assert!(tx.send(&mut shared, 1).is_ok());
    assert_eq!(rx.try_recv(&mut shared), Ok(1));
    let mut waiting = TimedWaiting::new(7u32);
    assert!(matches!(rx.recv_timeout(&mut shared, &mut waiting), TimedRound::Again));
    assert!(matches!(rx.recv_timeout(&mut shared, &mut waiting), TimedRound::Sleep(7)));
}

#[test]
fn a_timed_receive_tells_that_the_senders_are_gone() {
    let (mut shared, tx, rx) = channel::<u8>();
    tx.drop(&mut shared);
    let mut waiting = TimedWaiting::new(1u32);
    assert!(matches!(
        rx.recv_timeout(&mut shared, &mut waiting),
        TimedRound::Done(Err(RecvTimeoutError::Disconnected))
    ));
}

#[test]
fn sends_can_be_made_access_by_access() {
    let (mut shared, tx, rx) = channel();
    let mut op = SendOp::new(9);
    assert!(tx.can_step(&shared, &op));
    while tx.step(&mut shared, &mut op) != Signal::Done {
        assert!(shared.has_room());
    }
    assert_eq!(op.finish(), Ok(()));
    assert_eq!(rx.try_recv(&mut shared), Ok(9));
}

#[test]
fn errors_in_words() {
    assert_eq!(SendError(3).message(), "sending on a closed channel");
    assert_eq!(RecvError.message(), "receiving on a closed channel");
    assert_eq!(TryRecvError::Empty.message(), "receiving on an empty channel");
    assert_eq!(TryRecvError::Disconnected.message(), "receiving on a closed channel");
    assert_eq!(RecvTimeoutError::Timeout.message(), "timed out waiting on channel");
    assert_eq!(
        RecvTimeoutError::Disconnected.message(),
        "channel is empty and sending half is closed"
    );
}

#[test]
fn a_send_error_does_not_show_its_message() {
    struct Secret;
    assert_eq!(SendError(Secret).message(), SendError("text").message());
    assert_eq!(SendError(Secret).debug_message(), "SendError { .. }");
    assert_eq!(SendError("text").debug_message(), "SendError { .. }");
}

#[test]
fn a_timed_receive_that_sleeps_is_woken_by_the_last_hang_up() {
    let (mut shared, tx, rx) = channel::<u8>();
    let mut waiting = TimedWaiting::new(3u32);
    assert!(matches!(rx.recv_timeout(&mut shared, &mut waiting), TimedRound::Sleep(3)));
    tx.drop(&mut shared);
    assert!(shared.take_wake());
    rx.resume_timeout(&mut shared, &mut waiting, None);
    assert!(matches!(
        rx.recv_timeout(&mut shared, &mut waiting),
        TimedRound::Done(Err(RecvTimeoutError::Disconnected))
    ));
}

#[test]
fn clones_send_to_one_channel_in_one_order() {
    let (mut shared, tx, rx) = channel();
    assert!(tx.send(&mut shared, 0).is_ok());
    let other = tx.clone(&mut shared);
    for i in 0..4 {
        assert!(tx.send(&mut shared, 2 * i + 1).is_ok());
        assert!(other.send(&mut shared, 2 * i + 2).is_ok());
    }
    tx.drop(&mut shared);
    for i in 0..9 {
        assert_eq!(rx.try_recv(&mut shared), Ok(i));
    }
    assert_eq!(rx.try_recv(&mut shared), Err(TryRecvError::Empty));
    other.drop(&mut shared);
    assert_eq!(rx.try_recv(&mut shared), Err(TryRecvError::Disconnected));
}

#[test]
fn every_sender_is_refused_for_ever_once_the_receiver_is_gone() {
    let (mut shared, tx, rx) = channel();
    assert!(tx.send(&mut shared, 1).is_ok());
    rx.drop(&mut shared);
    for i in 0..3000 {
        assert!(shared.has_room());
        assert!(tx.send(&mut shared, i) == Err(SendError(i)));
    }
    let other = tx.clone(&mut shared);
    tx.drop(&mut shared);
    assert!(other.send(&mut shared, 7) == Err(SendError(7)));
    other.drop(&mut shared);
    assert_eq!(shared.drop(), vec![1]);
}

#[test]
fn a_sender_that_hangs_up_leaves_the_send_of_another_one_alone() {
    for slot in [true, false] {
        let (mut shared, tx, rx) = channel();
        if slot {
            assert!(tx.send(&mut shared, 0).is_ok());
        }
        let other = tx.clone(&mut shared);
        let mut op = SendOp::new(1);
        assert_eq!(tx.step(&mut shared, &mut op), Signal::Continue);
        rx.drop(&mut shared);
        other.drop(&mut shared);
        while tx.step(&mut shared, &mut op) != Signal::Done {}
        assert_eq!(op.finish(), if slot { Ok(()) } else { Err(1) });
        assert!(tx.send(&mut shared, 2) == Err(SendError(2)));
        tx.drop(&mut shared);
        assert_eq!(shared.drop(), if slot { vec![0, 1] } else { vec![] });
    }
}

#[test]
fn a_hang_up_is_a_hang_up_for_every_receive() {
    assert_eq!(TryRecvError::from(RecvError), TryRecvError::Disconnected);
    assert_eq!(RecvTimeoutError::from(RecvError), RecvTimeoutError::Disconnected);
}

#[test]
fn messages_that_nobody_received_are_left() {
    let (mut shared, tx, rx) = channel();
    for i in 0..5 {
        assert!(tx.send(&mut shared, i).is_ok());
    }
    assert_eq!(rx.try_recv(&mut shared), Ok(0));
    rx.drop(&mut shared);
    assert!(tx.send(&mut shared, 5).is_err());
    tx.drop(&mut shared);
    assert_eq!(shared.drop(), vec![1, 2, 3, 4]);
}
