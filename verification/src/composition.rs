//! A future built from two others: first wait, then fetch a number.

use vstd::prelude::*;
use crate::simple::{MyFuture, MyPoll, Sleep, SlowRandomNumber};
use crate::text::decimal;

verus! {

/// Where a `MainFuture` stands.
pub enum MainState {
    /// Waiting for the sleep; the number is not asked for yet.
    State1(Sleep, SlowRandomNumber),
    /// Waiting for the number.
    State2(SlowRandomNumber),
}

/// The text that wraps the number: `{ value: <number> }`.
pub open spec fn wrap_value(out: Seq<char>) -> Seq<char> {
    "{ value: "@ + out + " }"@
}

/// Formats `out` as `{ value: <out> }`.
pub fn wrap_value_exec(out: &String) -> (s: String)
    ensures
        s@ == wrap_value(out@),
{
    let mut s = "{ value: ".to_owned();
    s.push_str(out.as_str());
    s.push_str(" }");
    s
}

/// Sleeps first, then waits for a slow random number and answers with it,
/// wrapped as `{ value: <number> }`. Once it has answered it stays pending.
pub struct MainFuture {
    inner: Option<MainState>,
}

impl MainFuture {
    pub closed spec fn state(&self) -> Option<MainState> {
        self.inner
    }

    pub fn new(sleep: Sleep, other: SlowRandomNumber) -> (f: MainFuture)
        ensures
            f.state() == Some(MainState::State1(sleep, other)),
    {
        MainFuture { inner: Some(MainState::State1(sleep, other)) }
    }
}

impl MyFuture for MainFuture {
    open spec fn pollable(&self) -> bool {
        true
    }

    /// While the sleep runs, only the sleep moves on; the poll in which it
    /// is over moves on to the number, which that poll does not ask for; the
    /// number's answer comes back wrapped, after which the future stays
    /// pending.
    open spec fn poll_step(&self, next: &Self, answer: &MyPoll) -> bool {
        match self.state() {
            None => *answer is Pending && next.state() is None,
            Some(MainState::State1(sleep, other)) => {
                &&& *answer is Pending
                &&& exists|s: Sleep, sa: MyPoll|
                    {
                        &&& #[trigger] sleep.poll_step(&s, &sa)
                        &&& sa is Pending ==> next.state() == Some(MainState::State1(s, other))
                        &&& sa is Ready ==> next.state() == Some(MainState::State2(other))
                    }
            },
            Some(MainState::State2(other)) => {
                exists|o: SlowRandomNumber, oa: MyPoll|
                    {
                        &&& #[trigger] other.poll_step(&o, &oa)
                        &&& oa is Pending ==> *answer is Pending && next.state() == Some(MainState::State2(o))
                        &&& oa matches MyPoll::Ready(v) ==> (*answer matches MyPoll::Ready(s) && s@ == wrap_value(v@))
                            && next.state() is None
                    }
            },
        }
    }

    fn poll(&mut self) -> (r: MyPoll) {
        let mut taken: Option<MainState> = None;
        std::mem::swap(&mut taken, &mut self.inner);
        let inner = match taken {
            Some(inner) => inner,
            None => {
                return MyPoll::Pending;
            },
        };
        match inner {
            MainState::State1(sleep, other) => {
                let ghost sleep0 = sleep;
                let mut sleep = sleep;
                let sa = sleep.poll();
                assert(sleep0.poll_step(&sleep, &sa));
                if let MyPoll::Pending = sa {
                    self.inner = Some(MainState::State1(sleep, other));
                    return MyPoll::Pending;
                }
                self.inner = Some(MainState::State2(other));
                MyPoll::Pending
            },
            MainState::State2(other) => {
                let ghost other0 = other;
                let mut other = other;
                let oa = other.poll();
                assert(other0.poll_step(&other, &oa));
                match oa {
                    MyPoll::Pending => {
                        self.inner = Some(MainState::State2(other));
                        MyPoll::Pending
                    },
                    MyPoll::Ready(out) => {
                        MyPoll::Ready(wrap_value_exec(&out))
                    },
                }
            },
        }
    }
}

/// The number is asked for only once the sleep is over: a poll in the first
/// stage answers pending and keeps the number untouched; it stays in the
/// first stage, with the sleep as that poll left it, exactly when the
/// sleep's poll read less time than the sleep waits for, and it moves on to
/// the number only at a poll whose reading reached the wait.
pub proof fn lemma_main_future_waits_for_sleep(
    pre: MainFuture,
    post: MainFuture,
    answer: MyPoll,
    sleep: Sleep,
    other: SlowRandomNumber,
)
    requires
        pre.state() == Some(MainState::State1(sleep, other)),
        pre.poll_step(&post, &answer),
    ensures
        answer is Pending,
        post.state() is Some,
        post.state() matches Some(MainState::State1(s, o)) ==> {
            &&& o == other
            &&& s.last_reading() is Some
            &&& !s.wait_over()
            &&& s.wait_nanos() == sleep.wait_nanos()
            &&& sleep.started() ==> s.start() == sleep.start()
        },
        post.state() matches Some(MainState::State2(o)) ==> {
            &&& o == other
            &&& exists|s: Sleep|
                {
                    &&& #[trigger] s.wait_over()
                    &&& s.wait_nanos() == sleep.wait_nanos()
                    &&& sleep.started() ==> s.start() == sleep.start()
                }
        },
{
    let (s, sa) = choose|s: Sleep, sa: MyPoll|
        {
            &&& #[trigger] sleep.poll_step(&s, &sa)
            &&& sa is Pending ==> post.state() == Some(MainState::State1(s, other))
            &&& sa is Ready ==> post.state() == Some(MainState::State2(other))
        };
    assert(sleep.poll_step(&s, &sa));
    if sa is Ready {
        assert(s.wait_over());
    }
}

} // verus!
