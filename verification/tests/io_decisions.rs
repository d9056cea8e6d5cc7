use noobkio::dispatch::{request_delay_millis, SLOW_REQUEST};
use noobkio::mio_runtime::{
    accept_answer, read_action, AcceptOutcome, MyFuture, Noobkio, ReadAction, ReadOutcome, Turn,
};
use noobkio::simple::MyPoll;

struct Countdown {
    left: u32,
    name: &'static str,
}

impl MyFuture for Countdown {
    fn poll(&mut self) -> MyPoll {
        if self.left == 0 {
            MyPoll::Ready(self.name.to_string())
        } else {
            self.left -= 1;
            MyPoll::Pending
        }
    }
}

fn cd(left: u32, name: &'static str) -> Countdown {
    Countdown { left, name }
}

#[test]
fn accept_outcomes() {
    assert!(matches!(accept_answer(AcceptOutcome::WouldBlock), MyPoll::Pending));
    match accept_answer(AcceptOutcome::Connected("127.0.0.1:4000".to_string())) {
        MyPoll::Ready(s) => assert_eq!(s, "Connected to 127.0.0.1:4000"),
        MyPoll::Pending => panic!("expected an answer"),
    }
    match accept_answer(AcceptOutcome::Failed("boom".to_string())) {
        MyPoll::Ready(s) => assert_eq!(s, "boom"),
        MyPoll::Pending => panic!("expected an answer"),
    }
}

#[test]
fn read_outcomes() {
    assert_eq!(read_action(ReadOutcome::Bytes(0)), ReadAction::Stop);
    assert_eq!(read_action(ReadOutcome::Bytes(12)), ReadAction::Show(12));
    assert_eq!(read_action(ReadOutcome::WouldBlock), ReadAction::Stop);
    assert_eq!(read_action(ReadOutcome::Interrupted), ReadAction::Stop);
    assert_eq!(read_action(ReadOutcome::Failed), ReadAction::Fail);
}

#[test]
fn tokens_count_up() {
    let mut rt: Noobkio<Countdown> = Noobkio::new();
    assert_eq!(rt.next_token(), 0);
    assert_eq!(rt.next_token(), 1);
    assert_eq!(rt.next_token(), 2);
}

#[test]
fn events_wake_parked_futures_in_event_order() {
    let mut rt: Noobkio<Countdown> = Noobkio::new();
    assert!(rt.is_idle());
    rt.park(3, cd(0, "three"));
    rt.park(5, cd(0, "five"));
    assert!(rt.has_waiting());
    assert!(!rt.has_ready());
    rt.wake(&vec![5, 9, 5, 3]);
    assert!(!rt.has_waiting());
    let outputs = rt.poll_round();
    assert_eq!(outputs, vec!["five".to_string(), "three".to_string()]);
    assert!(rt.is_idle());
}

#[test]
fn unwoken_futures_keep_waiting() {
    let mut rt: Noobkio<Countdown> = Noobkio::new();
    rt.park(1, cd(0, "one"));
    rt.park(2, cd(0, "two"));
    rt.wake(&vec![2]);
    assert!(rt.has_waiting());
    assert_eq!(rt.poll_round(), vec!["two".to_string()]);
    assert!(!rt.is_idle());
}

#[test]
fn round_keeps_pending_futures() {
    let mut rt: Noobkio<Countdown> = Noobkio::new();
    rt.spawn(cd(1, "a"));
    rt.spawn(cd(0, "b"));
    assert_eq!(rt.poll_round(), vec!["b".to_string()]);
    assert!(rt.has_ready());
    assert_eq!(rt.poll_round(), vec!["a".to_string()]);
    assert!(rt.is_idle());
}

#[test]
fn slow_request_takes_three_seconds() {
    assert_eq!(request_delay_millis(SLOW_REQUEST), 3000);
    assert_eq!(request_delay_millis(5), 3000);
    assert_eq!(request_delay_millis(0), 200);
    assert_eq!(request_delay_millis(4), 200);
    assert_eq!(request_delay_millis(6), 200);
}

#[test]
fn event_loop_turns() {
    let mut rt: Noobkio<Countdown> = Noobkio::new();
    let (turn, out) = rt.execute_step();
    assert_eq!(turn, Turn::Done);
    assert!(out.is_empty());
    rt.spawn(cd(1, "a"));
    rt.park(4, cd(0, "parked"));
    let (turn, out) = rt.execute_step();
    assert_eq!(turn, Turn::Again);
    assert!(out.is_empty());
    let (turn, out) = rt.execute_step();
    assert_eq!(turn, Turn::AwaitEvents { poll_os: true });
    assert_eq!(out, vec!["a".to_string()]);
    rt.wake(&vec![4]);
    let (turn, out) = rt.execute_step();
    assert_eq!(turn, Turn::AwaitEvents { poll_os: false });
    assert_eq!(out, vec!["parked".to_string()]);
    let (turn, _) = rt.execute_step();
    assert_eq!(turn, Turn::Done);
}
