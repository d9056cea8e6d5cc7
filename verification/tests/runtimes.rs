use std::time::Duration;

use noobkio::basic_runtime;
use noobkio::full_runtime::{self, NoobkioHandle, RawFuture};
use noobkio::pinning::Writer;
use noobkio::simple::{MyFuture as _, MyPoll, RandomNumber, Sleep};
use noobkio::simple_runtime::{join_answer, Handle, Noobkio};
use noobkio::slot::Slot;
use noobkio::type_erased::{self, Poll};
use noobkio::waker_runtime::{self, NoobkioWaker, Step, QUEUE_CAPACITY};

#[test]
fn spawn_of_a_ready_future_does_not_queue_it() {
    let mut rt: Noobkio<Sleep> = Noobkio::new();
    let mut h = rt.spawn(Sleep::from_nanos(0));
    assert!(rt.is_idle());
    assert_eq!(h.try_join(&mut rt), Some(String::new()));
    assert_eq!(h.try_join(&mut rt), None);
}

#[test]
fn handle_receives_the_result_once() {
    let mut rt: Noobkio<Box<Writer>> = Noobkio::new();
    let mut h = rt.spawn(Box::new(Writer::new()));
    assert!(!rt.is_idle());
    assert_eq!(h.try_join(&mut rt), None);
    let mut rounds = 0;
    while !rt.is_idle() {
        rt.poll_round();
        rounds += 1;
    }
    assert!(rounds >= 4);
    assert_eq!(h.try_join(&mut rt), Some("My String says: hello world".to_string()));
    assert_eq!(h.try_join(&mut rt), None);
}

#[test]
fn round_counts_finished_futures() {
    let mut rt: Noobkio<Sleep> = Noobkio::new();
    let _a = rt.spawn(Sleep::from_millis(5));
    let _b = rt.spawn(Sleep::new(Duration::from_secs(3600)));
    let start = std::time::Instant::now();
    while start.elapsed() < Duration::from_millis(10) {}
    assert_eq!(rt.poll_round(), 1);
    assert!(!rt.is_idle());
    assert_eq!(rt.poll_round(), 0);
}

#[test]
fn handle_polls_like_try_join() {
    let mut rt: Noobkio<RandomNumber> = Noobkio::new();
    let mut h: Handle = rt.spawn(RandomNumber::from(1));
    assert!(matches!(h.poll(&mut rt), MyPoll::Pending));
    assert!(!rt.is_idle());
    assert_eq!(rt.poll_round(), 1);
    assert!(rt.is_idle());
    assert!(matches!(h.poll(&mut rt), MyPoll::Ready(_)));
    assert!(matches!(h.poll(&mut rt), MyPoll::Pending));
}

#[test]
fn join_answer_maps_the_result() {
    assert!(matches!(join_answer(None), MyPoll::Pending));
    match join_answer(Some("x".to_string())) {
        MyPoll::Ready(s) => assert_eq!(s, "x"),
        MyPoll::Pending => panic!("expected a result"),
    }
}

#[test]
fn basic_runtime_runs_until_idle() {
    let mut rt: basic_runtime::Noobkio<Sleep> = basic_runtime::Noobkio::new();
    rt.spawn(Sleep::from_millis(5));
    rt.spawn(Sleep::from_nanos(0));
    assert!(!rt.is_idle());
    let mut finished = 0;
    while !rt.is_idle() {
        finished += rt.poll_round();
    }
    assert_eq!(finished, 2);
}

#[test]
fn waker_runtime_polls_what_was_woken() {
    let mut rt: waker_runtime::Noobkio<Sleep> = waker_runtime::Noobkio::new();
    assert_eq!(rt.execute_step(), Step::Idle);
    rt.spawn(Sleep::from_millis(5));
    assert_eq!(rt.queued(), 1);
    let mut steps = 0;
    loop {
        let s = rt.execute_step();
        steps += 1;
        if s == Step::Finished {
            break;
        }
        assert_eq!(s, Step::Continue);
        assert_eq!(rt.queued(), 1);
    }
    assert!(steps >= 1);
    assert_eq!(rt.queued(), 0);
    assert_eq!(rt.execute_step(), Step::Idle);
}

#[test]
fn waker_runtime_two_futures() {
    let mut rt: waker_runtime::Noobkio<Sleep> = waker_runtime::Noobkio::new();
    rt.spawn(Sleep::from_nanos(0));
    rt.spawn(Sleep::from_nanos(0));
    assert_eq!(rt.queued(), 2);
    assert_eq!(rt.execute_step(), Step::Continue);
    assert_eq!(rt.execute_step(), Step::Finished);
    assert_eq!(rt.execute_step(), Step::Idle);
}

#[test]
fn pending_sleep_asks_for_another_poll() {
    let mut rt: waker_runtime::Noobkio<Sleep> = waker_runtime::Noobkio::new();
    rt.spawn(Sleep::new(Duration::from_secs(3600)));
    assert_eq!(rt.execute_step(), Step::Continue);
    assert_eq!(rt.queued(), 1);
    assert_eq!(rt.execute_step(), Step::Continue);
    assert_eq!(rt.queued(), 1);
}

#[test]
fn type_erased_runtime_delivers_outputs() {
    let mut rt: type_erased::Noobkio<type_erased::RandomNumber> = type_erased::Noobkio::new();
    let mut h1 = rt.spawn(type_erased::RandomNumber::from(2));
    let mut h2 = rt.spawn(type_erased::RandomNumber::from(0));
    assert!(matches!(h1.poll(&mut rt), Poll::Pending));
    assert!(matches!(h2.poll(&mut rt), Poll::Pending));
    assert_eq!(rt.poll_round(), 1);
    assert!(matches!(h2.poll(&mut rt), Poll::Ready(0)));
    assert!(matches!(h2.poll(&mut rt), Poll::Pending));
    assert!(h2.rcv.is_none());
    while !rt.is_idle() {
        rt.poll_round();
    }
    assert!(matches!(h1.poll(&mut rt), Poll::Ready(_)));
}

#[test]
fn raw_future_reports_finish_once() {
    let (mut raw, h) = type_erased::RawFuture::new(type_erased::RandomNumber::from(1), 7);
    assert_eq!(h.rcv, Some(7));
    assert!(!raw.poll());
    assert!(raw.poll());
    assert!(raw.poll());
    assert!(raw.take_output().is_some());
    assert!(raw.take_output().is_none());
}

#[test]
fn unchecked_rcv_takes_the_stored_output() {
    let mut rt: type_erased::Noobkio<type_erased::RandomNumber> = type_erased::Noobkio::new();
    let h = rt.spawn(type_erased::RandomNumber::from(0));
    rt.poll_round();
    assert_eq!(h.unchecked_rcv(&mut rt), Some(0));
}

#[test]
fn handle_from_slot() {
    let slot: Slot<u8> = Slot::empty();
    let mut h = NoobkioHandle::from(slot.share());
    assert!(matches!(h.poll(), Poll::Pending));
    slot.put(4);
    assert!(matches!(h.poll(), Poll::Ready(4)));
    assert!(h.rcv.is_none());
}

#[test]
fn full_raw_future_life_cycle() {
    let (mut raw, h): (RawFuture<u32, String>, _) = RawFuture::new(1u32);
    assert!(!raw.is_finished());
    *raw.future_mut() += 1;
    assert_eq!(*raw.future_mut(), 2);
    raw.finish("done".to_string());
    assert!(raw.is_finished());
    assert_eq!(h.unchecked_rcv(), Some("done".to_string()));
}

#[test]
fn full_sleep() {
    let mut s = full_runtime::Sleep::new(Duration::from_secs(0));
    assert!(s.elapsed_enough());
    let mut s = full_runtime::Sleep::new(Duration::from_secs(3600));
    assert!(!s.elapsed_enough());
}

struct WakesTwice;

impl waker_runtime::MyFuture for WakesTwice {
    fn poll(&mut self, waker: &mut NoobkioWaker) -> MyPoll {
        waker.wake_by_ref();
        waker.wake_by_ref();
        MyPoll::Pending
    }
}

#[test]
fn full_ready_queue_stalls_the_executor() {
    let mut rt: waker_runtime::Noobkio<WakesTwice> = waker_runtime::Noobkio::new();
    for _ in 0..QUEUE_CAPACITY {
        rt.spawn(WakesTwice);
    }
    assert_eq!(rt.queued(), QUEUE_CAPACITY);
    assert_eq!(rt.execute_step(), Step::Stalled);
    assert_eq!(rt.queued(), QUEUE_CAPACITY);
}

#[test]
fn wakes_are_queued_behind_waiting_ids() {
    let mut rt: waker_runtime::Noobkio<WakesTwice> = waker_runtime::Noobkio::new();
    rt.spawn(WakesTwice);
    assert_eq!(rt.execute_step(), Step::Continue);
    assert_eq!(rt.queued(), 2);
    assert_eq!(rt.execute_step(), Step::Continue);
    assert_eq!(rt.queued(), 3);
}

#[test]
fn slot_hands_a_value_to_its_shares() {
    let a: Slot<String> = Slot::new(Some("first".to_string()));
    let b = a.share();
    assert_eq!(b.take(), Some("first".to_string()));
    assert_eq!(a.take(), None);
    assert_eq!(b.take(), None);
}

#[test]
fn empty_slot_takes_any_value() {
    let a: Slot<String> = Slot::empty();
    let b = a.share();
    assert_eq!(a.take(), None);
    b.put("second".to_string());
    assert_eq!(a.take(), Some("second".to_string()));
    assert_eq!(b.take(), None);
}

#[test]
fn full_runtime_runs_a_sleep_to_its_handle() {
    let mut rt = full_runtime::Noobkio::new();
    let (raw, h) = RawFuture::new(full_runtime::Sleep::new(Duration::ZERO));
    rt.spawn(raw);
    assert!(!rt.is_idle());
    while !rt.is_idle() {
        rt.poll_round();
    }
    assert_eq!(h.unchecked_rcv(), Some(()));
}

#[test]
fn full_runtime_keeps_a_long_sleep() {
    let mut rt = full_runtime::Noobkio::new();
    let (short, mut h1) = RawFuture::new(full_runtime::Sleep::new(Duration::ZERO));
    let (long, mut h2) = RawFuture::new(full_runtime::Sleep::new(Duration::from_secs(3600)));
    rt.spawn(long);
    rt.spawn(short);
    assert_eq!(rt.poll_round(), 1);
    assert!(!rt.is_idle());
    assert!(matches!(h1.poll(), Poll::Ready(())));
    assert!(matches!(h2.poll(), Poll::Pending));
    assert_eq!(rt.poll_round(), 0);
}

#[test]
fn type_erased_handle_gets_its_own_output_after_an_earlier_one_finished() {
    let mut rt: type_erased::Noobkio<type_erased::RandomNumber> = type_erased::Noobkio::new();
    let mut h1 = rt.spawn(type_erased::RandomNumber::from(0));
    assert_eq!(rt.poll_round(), 1);
    let mut h2 = rt.spawn(type_erased::RandomNumber::from(1));
    assert!(matches!(h2.poll(&mut rt), Poll::Pending));
    assert_eq!(rt.poll_round(), 0);
    assert!(matches!(h2.poll(&mut rt), Poll::Pending));
    assert_eq!(rt.poll_round(), 1);
    assert!(matches!(h1.poll(&mut rt), Poll::Ready(0)));
    assert!(matches!(h2.poll(&mut rt), Poll::Ready(_)));
    assert!(matches!(h2.poll(&mut rt), Poll::Pending));
}
