use std::time::Duration;

use noobkio::composition::{wrap_value_exec, MainFuture};
use noobkio::pinning::Writer;
use noobkio::simple::{MyFuture, MyPoll, RandomNumber, Sleep, SlowRandomNumber};
use noobkio::state_machine;
use noobkio::state_machine::MyFuture as _;
use noobkio::type_erased::MyFuture as _;
use noobkio::text::u32_to_string;
use noobkio::type_erased;

fn ready_text(p: MyPoll) -> Option<String> {
    match p {
        MyPoll::Ready(s) => Some(s),
        MyPoll::Pending => None,
    }
}

fn run_to_end<F: MyFuture>(f: &mut F) -> (String, usize) {
    let mut pending = 0;
    loop {
        match f.poll() {
            MyPoll::Ready(s) => return (s, pending),
            MyPoll::Pending => pending += 1,
        }
    }
}

#[test]
fn decimal_text_of_numbers() {
    assert_eq!(u32_to_string(0), "0");
    assert_eq!(u32_to_string(7), "7");
    assert_eq!(u32_to_string(10), "10");
    assert_eq!(u32_to_string(1203), "1203");
    assert_eq!(u32_to_string(u32::MAX), "4294967295");
}

#[test]
fn zero_sleep_is_ready_at_first_poll() {
    let mut s = Sleep::new(Duration::from_secs(0));
    assert_eq!(ready_text(s.poll()), Some(String::new()));
    let mut s = Sleep::from_nanos(0);
    assert_eq!(ready_text(s.poll()), Some(String::new()));
}

#[test]
fn long_sleep_stays_pending() {
    let mut s = Sleep::new(Duration::from_secs(3600));
    assert!(matches!(s.poll(), MyPoll::Pending));
    assert!(matches!(s.poll(), MyPoll::Pending));
}

#[test]
fn short_sleep_becomes_ready_and_stays_ready() {
    let mut s = Sleep::from_millis(20);
    let start = std::time::Instant::now();
    let (out, _) = run_to_end(&mut s);
    assert_eq!(out, "");
    assert!(start.elapsed() >= Duration::from_millis(20));
    assert!(matches!(s.poll(), MyPoll::Ready(_)));
}

#[test]
fn sleep_answer_follows_elapsed_time() {
    let s = Sleep::from_nanos(100);
    assert!(matches!(s.answer(99), MyPoll::Pending));
    assert!(matches!(s.answer(100), MyPoll::Ready(_)));
    assert!(matches!(s.answer(1000), MyPoll::Ready(_)));
}

#[test]
fn random_number_without_rounds_answers_zero() {
    let mut r = RandomNumber::from(0);
    assert_eq!(ready_text(r.poll()), Some("0".to_string()));
    assert_eq!(ready_text(r.poll()), Some("0".to_string()));
}

#[test]
fn random_number_draws_once_per_poll() {
    let mut r = RandomNumber::from(3);
    let (out, pending) = run_to_end(&mut r);
    assert_eq!(pending, 3);
    assert!(out.parse::<u32>().is_ok());
    assert!(!out.starts_with('0') || out == "0");
}

#[test]
fn absorb_keeps_the_largest_draw() {
    let mut r = RandomNumber::from(3);
    r.absorb(5);
    r.absorb(2);
    r.absorb(9);
    assert_eq!(ready_text(r.poll()), Some("9".to_string()));
}

#[test]
fn slow_random_number_answers_after_its_pause() {
    let start = std::time::Instant::now();
    let mut r = SlowRandomNumber::from(0);
    let (out, _) = run_to_end(&mut r);
    assert_eq!(out, "0");
    assert!(start.elapsed() >= Duration::from_millis(100));
}

#[test]
fn main_future_wraps_the_number() {
    let mut f = MainFuture::new(Sleep::from_nanos(0), SlowRandomNumber::from(0));
    let (out, pending) = run_to_end(&mut f);
    assert_eq!(out, "{ value: 0 }");
    assert!(pending >= 1);
    assert!(matches!(f.poll(), MyPoll::Pending));
}

#[test]
fn main_future_with_draws() {
    let mut f = MainFuture::new(Sleep::from_millis(10), SlowRandomNumber::from(2));
    let (out, _) = run_to_end(&mut f);
    assert!(out.starts_with("{ value: "));
    assert!(out.ends_with(" }"));
    let inner = &out["{ value: ".len()..out.len() - 2];
    assert!(inner.parse::<u32>().is_ok());
}

#[test]
fn wrap_value_formats_like_the_braces() {
    assert_eq!(wrap_value_exec(&"42".to_string()), "{ value: 42 }");
    assert_eq!(wrap_value_exec(&String::new()), "{ value:  }");
}

#[test]
fn writer_writes_the_whole_sentence() {
    let mut w = Writer::new();
    let (out, pending) = run_to_end(&mut w);
    assert_eq!(out, "My String says: hello world");
    assert!(pending >= 4);
}

#[test]
fn writer_default_is_a_fresh_writer() {
    let mut w = Writer::default();
    assert!(matches!(w.poll(), MyPoll::Pending));
}

#[test]
fn state_machine_sleep() {
    let mut s = state_machine::Sleep::new(Duration::from_secs(0));
    assert_eq!(s.poll(), state_machine::MyPoll::Ready);
    let mut s = state_machine::Sleep::new(Duration::from_secs(3600));
    assert_eq!(s.poll(), state_machine::MyPoll::Pending);
    let mut s = state_machine::Sleep::from_nanos(0);
    assert_eq!(s.poll(), state_machine::MyPoll::Ready);
}

#[test]
fn typed_random_number_answers_its_maximum() {
    let mut r = type_erased::RandomNumber::from(2);
    r.absorb(7);
    r.absorb(3);
    assert!(matches!(r.poll(), type_erased::Poll::Ready(7)));
    let mut r = type_erased::RandomNumber::from(0);
    assert!(matches!(r.poll(), type_erased::Poll::Ready(0)));
}

#[test]
fn typed_sleep() {
    let mut s = type_erased::Sleep::new(Duration::from_secs(0));
    assert!(matches!(s.poll(), type_erased::Poll::Ready(())));
    let mut s = type_erased::Sleep::from_nanos(u128::MAX);
    assert!(matches!(s.poll(), type_erased::Poll::Pending));
}

#[test]
fn typed_random_number_is_pending_once_per_draw() {
    let mut r = type_erased::RandomNumber::from(3);
    for _ in 0..3 {
        assert!(matches!(r.poll(), type_erased::Poll::Pending));
    }
    let first = match r.poll() {
        type_erased::Poll::Ready(v) => v,
        type_erased::Poll::Pending => panic!("expected the maximum after three draws"),
    };
    assert!(matches!(r.poll(), type_erased::Poll::Ready(v) if v == first));
}

#[test]
fn slow_random_number_draws_after_each_pause() {
    let start = std::time::Instant::now();
    let mut r = SlowRandomNumber::from(2);
    let (out, pending) = run_to_end(&mut r);
    assert!(out.parse::<u32>().is_ok());
    assert!(pending >= 2);
    assert!(start.elapsed() >= Duration::from_millis(300));
}
