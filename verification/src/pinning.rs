//! A future that keeps a string across its pauses and writes into it in
//! steps, as the state machine of an `async` block would.

use vstd::prelude::*;
use crate::simple::{MyFuture, MyPoll, Sleep};

verus! {

/// What the future keeps between polls: the string being written.
pub struct Stack {
    buffer: Option<String>,
}

impl Stack {
    pub closed spec fn text(&self) -> Option<Seq<char>> {
        match self.buffer {
            Some(s) => Some(s@),
            None => None,
        }
    }
}

impl Default for Stack {
    fn default() -> (s: Stack)
        ensures
            s.text() is None,
    {
        Stack { buffer: None }
    }
}

/// The steps of a `Writer`.
pub enum State {
    /// Not started.
    S0,
    /// First pause.
    Wait1(Sleep),
    /// About to write `hello`.
    S1,
    /// Second pause.
    Wait2(Sleep),
    /// About to write ` world` and answer.
    S2,
}

impl Default for State {
    fn default() -> (s: State)
        ensures
            s is S0,
    {
        State::S0
    }
}

/// Nanoseconds of each pause of a writer.
pub open spec fn writer_pause() -> u128 {
    100_000_000
}

/// Writes `My String says: `, pauses, writes `hello`, pauses, writes
/// ` world` and answers with the whole string.
pub struct Writer {
    stack: Stack,
    state: State,
}

impl Writer {
    pub closed spec fn text(&self) -> Option<Seq<char>> {
        self.stack.text()
    }

    pub closed spec fn state(&self) -> State {
        self.state
    }

    /// The future has answered.
    pub open spec fn finished(&self) -> bool {
        self.state() is S2 && self.text() is None
    }

    /// The string exists exactly from the first poll until the answer.
    pub open spec fn wf(&self) -> bool {
        if self.state() is S0 {
            self.text() is None
        } else {
            self.text() is Some || self.finished()
        }
    }

    /// The string written so far is the one the steps taken so far wrote.
    pub open spec fn on_track(&self) -> bool {
        self.finished() || self.text() == match self.state() {
            State::S0 => None,
            State::Wait1(_) => Some("My String says: "@),
            State::S1 => Some("My String says: "@),
            State::Wait2(_) => Some("My String says: "@ + "hello"@),
            State::S2 => Some("My String says: "@ + "hello"@),
        }
    }

    pub fn new() -> (w: Writer)
        ensures
            w.wf(),
            w.on_track(),
            w.state() is S0,
            w.text() is None,
    {
        Writer { stack: Stack::default(), state: State::default() }
    }
}

impl Default for Writer {
    fn default() -> (w: Writer)
        ensures
            w.wf(),
            w.state() is S0,
    {
        Writer::new()
    }
}

impl MyFuture for Writer {
    open spec fn pollable(&self) -> bool {
        self.wf() && !self.finished()
    }

    /// Each poll takes one step of the writer; on its track, the answer is
    /// the whole sentence.
    open spec fn poll_step(&self, next: &Self, answer: &MyPoll) -> bool {
        &&& next.wf()
        &&& self.on_track() ==> next.on_track()
        &&& self.on_track() ==> (*answer matches MyPoll::Ready(s) ==> s@ == "My String says: "@ + "hello"@
            + " world"@)
        &&& match self.state() {
            State::S0 => {
                &&& *answer is Pending
                &&& next.text() == Some("My String says: "@)
                &&& next.state() matches State::Wait1(s) && !s.started()
                    && s.wait_nanos() == writer_pause()
            },
            State::Wait1(sleep) => {
                &&& *answer is Pending
                &&& next.text() == self.text()
                &&& exists|s: Sleep, sa: MyPoll|
                    {
                        &&& #[trigger] sleep.poll_step(&s, &sa)
                        &&& sa is Pending ==> next.state() == State::Wait1(s)
                        &&& sa is Ready ==> next.state() is S1
                    }
            },
            State::S1 => {
                &&& *answer is Pending
                &&& next.text() == Some(self.text().unwrap() + "hello"@)
                &&& next.state() matches State::Wait2(s) && !s.started()
                    && s.wait_nanos() == writer_pause()
            },
            State::Wait2(sleep) => {
                &&& *answer is Pending
                &&& next.text() == self.text()
                &&& exists|s: Sleep, sa: MyPoll|
                    {
                        &&& #[trigger] sleep.poll_step(&s, &sa)
                        &&& sa is Pending ==> next.state() == State::Wait2(s)
                        &&& sa is Ready ==> next.state() is S2
                    }
            },
            State::S2 => {
                &&& *answer matches MyPoll::Ready(s) && s@ == self.text().unwrap() + " world"@
                &&& next.finished()
            },
        }
    }

    fn poll(&mut self) -> (r: MyPoll) {
        let mut state = State::S0;
        std::mem::swap(&mut state, &mut self.state);
        match state {
            State::S0 => {
                self.stack.buffer = Some("My String says: ".to_owned());
                self.state = State::Wait1(Sleep::from_millis(100));
                MyPoll::Pending
            },
            State::Wait1(sleep) => {
                let ghost sleep0 = sleep;
                let mut sleep = sleep;
                let sa = sleep.poll();
                assert(sleep0.poll_step(&sleep, &sa));
                match sa {
                    MyPoll::Pending => {
                        self.state = State::Wait1(sleep);
                        MyPoll::Pending
                    },
                    MyPoll::Ready(_) => {
                        self.state = State::S1;
                        MyPoll::Pending
                    },
                }
            },
            State::S1 => {
                let mut buffer: Option<String> = None;
                std::mem::swap(&mut buffer, &mut self.stack.buffer);
                let mut string = buffer.unwrap();
                string.push_str("hello");
                self.stack.buffer = Some(string);
                self.state = State::Wait2(Sleep::from_millis(100));
                MyPoll::Pending
            },
            State::Wait2(sleep) => {
                let ghost sleep0 = sleep;
                let mut sleep = sleep;
                let sa = sleep.poll();
                assert(sleep0.poll_step(&sleep, &sa));
                match sa {
                    MyPoll::Pending => {
                        self.state = State::Wait2(sleep);
                        MyPoll::Pending
                    },
                    MyPoll::Ready(_) => {
                        self.state = State::S2;
                        MyPoll::Pending
                    },
                }
            },
            State::S2 => {
                let mut buffer: Option<String> = None;
                std::mem::swap(&mut buffer, &mut self.stack.buffer);
                let mut string = buffer.unwrap();
                string.push_str(" world");
                self.state = State::S2;
                MyPoll::Ready(string)
            },
        }
    }
}

/// How many steps of a writer lie behind a state.
pub open spec fn steps_taken(s: State) -> int {
    match s {
        State::S0 => 0,
        State::Wait1(_) => 1,
        State::S1 => 2,
        State::Wait2(_) => 3,
        State::S2 => 4,
    }
}

/// A poll moves a writer on by one step at most.
proof fn lemma_writer_step(pre: Writer, post: Writer, answer: MyPoll)
    requires
        pre.poll_step(&post, &answer),
    ensures
        steps_taken(post.state()) <= steps_taken(pre.state()) + 1,
        answer is Ready ==> pre.state() is S2,
{
    match pre.state() {
        State::Wait1(sleep) => {
            let (s, sa) = choose|s: Sleep, sa: MyPoll|
                {
                    &&& #[trigger] sleep.poll_step(&s, &sa)
                    &&& sa is Pending ==> post.state() == State::Wait1(s)
                    &&& sa is Ready ==> post.state() is S1
                };
        },
        State::Wait2(sleep) => {
            let (s, sa) = choose|s: Sleep, sa: MyPoll|
                {
                    &&& #[trigger] sleep.poll_step(&s, &sa)
                    &&& sa is Pending ==> post.state() == State::Wait2(s)
                    &&& sa is Ready ==> post.state() is S2
                };
        },
        _ => {},
    }
}

proof fn lemma_writer_steps_at(states: Seq<Writer>, answers: Seq<MyPoll>, k: int)
    requires
        states.len() == answers.len() + 1,
        states[0].state() is S0,
        forall|i: int| 0 <= i < answers.len() ==> #[trigger] states[i].poll_step(&states[i + 1], &answers[i]),
        0 <= k < states.len(),
    ensures
        steps_taken(states[k].state()) <= k,
        states[0].on_track() ==> states[k].on_track(),
    decreases k,
{
    if k > 0 {
        let j = k - 1;
        lemma_writer_steps_at(states, answers, j);
        assert(states[j].poll_step(&states[j + 1], &answers[j]));
        lemma_writer_step(states[j], states[j + 1], answers[j]);
    }
}

/// A fresh writer answers pending at its first four polls at least (it
/// writes, waits, writes, waits), and whenever it answers, its answer is the
/// whole sentence `My String says: hello world`.
pub proof fn lemma_writer_answers_last(states: Seq<Writer>, answers: Seq<MyPoll>)
    requires
        states.len() == answers.len() + 1,
        states[0].state() is S0,
        states[0].text() is None,
        forall|i: int| 0 <= i < answers.len() ==> #[trigger] states[i].poll_step(&states[i + 1], &answers[i]),
    ensures
        forall|k: int| 0 <= k < answers.len() && k < 4 ==> #[trigger] answers[k] is Pending,
        forall|k: int|
            0 <= k < answers.len() ==> (#[trigger] answers[k] matches MyPoll::Ready(s) ==> s@ == "My String says: "@
                + "hello"@ + " world"@),
{
    assert forall|k: int| 0 <= k < answers.len() implies (#[trigger] answers[k] is Ready ==> k >= 4) && (answers[k] matches MyPoll::Ready(s) ==> s@ == "My String says: "@
                + "hello"@ + " world"@) by {
        lemma_writer_steps_at(states, answers, k);
        assert(states[k].poll_step(&states[k + 1], &answers[k]));
        lemma_writer_step(states[k], states[k + 1], answers[k]);
    }
}

/// A writer leaves a pause only once it is over: a poll during a pause
/// answers pending and keeps the text; it stays in the pause, with the sleep
/// as that poll left it, exactly when the sleep's poll read less time than
/// the pause lasts, and it moves on to the next step only at a poll whose
/// reading reached the pause's length.
pub proof fn lemma_writer_waits_out_pauses(pre: Writer, post: Writer, answer: MyPoll, sleep: Sleep)
    requires
        pre.state() == State::Wait1(sleep) || pre.state() == State::Wait2(sleep),
        pre.poll_step(&post, &answer),
    ensures
        answer is Pending,
        post.text() == pre.text(),
        post.state() matches State::Wait1(s) ==> pre.state() is Wait1 && !s.wait_over() && s.wait_nanos()
            == sleep.wait_nanos(),
        post.state() matches State::Wait2(s) ==> pre.state() is Wait2 && !s.wait_over() && s.wait_nanos()
            == sleep.wait_nanos(),
        post.state() is S1 || post.state() is S2 ==> exists|s: Sleep|
            #[trigger] s.wait_over() && s.wait_nanos() == sleep.wait_nanos(),
        pre.state() is Wait1 ==> post.state() is Wait1 || post.state() is S1,
        pre.state() is Wait2 ==> post.state() is Wait2 || post.state() is S2,
{
    let (s, sa) = choose|s: Sleep, sa: MyPoll|
        {
            &&& #[trigger] sleep.poll_step(&s, &sa)
            &&& sa is Pending ==> post.state() == (if pre.state() is Wait1 {
                State::Wait1(s)
            } else {
                State::Wait2(s)
            })
            &&& sa is Ready ==> (if pre.state() is Wait1 {
                post.state() is S1
            } else {
                post.state() is S2
            })
        };
    assert(sleep.poll_step(&s, &sa));
    if sa is Ready {
        assert(s.wait_over());
    }
}

} // verus!
