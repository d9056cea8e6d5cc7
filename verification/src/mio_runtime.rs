//! The decisions of an executor driven by readiness events: which futures
//! run now, which wait for an event, and what an accepted connection or a
//! read answers. Sockets and the event queue are in the hands of the caller,
//! which reports their outcomes as plain values.

use vstd::prelude::*;
use std::collections::HashMap;
use crate::simple::{lemma_round_push, pending_only, MyPoll};

verus! {

broadcast use vstd::std_specs::hash::group_hash_axioms;

/// A future of this executor.
pub trait MyFuture {
    /// The future may be polled in this state; unless a future says
    /// otherwise, it always may.
    open spec fn pollable(&self) -> bool {
        true
    }

    /// A poll of this future may leave it as `next` and answer `answer`;
    /// unless a future says more, any state and answer may come of it.
    open spec fn poll_step(&self, next: &Self, answer: &MyPoll) -> bool {
        true
    }

    fn poll(&mut self) -> (r: MyPoll)
        requires
            old(self).pollable(),
        ensures
            old(self).poll_step(&*final(self), &r),
            r is Pending ==> final(self).pollable(),
    ;
}

/// Each of the futures `before` was polled once, which left it as the
/// future at the same place in `after` and answered the answer there.
pub open spec fn polled_once<F: MyFuture>(before: Seq<F>, after: Seq<F>, answers: Seq<MyPoll>) -> bool {
    &&& after.len() == before.len()
    &&& answers.len() == before.len()
    &&& forall|i: int| 0 <= i < before.len() ==> #[trigger] before[i].poll_step(&after[i], &answers[i])
}

/// The results among the answers, in order.
pub open spec fn ready_texts(answers: Seq<MyPoll>) -> Seq<Seq<char>>
    decreases answers.len(),
{
    if answers.len() == 0 {
        Seq::empty()
    } else {
        let rest = ready_texts(answers.drop_last());
        match answers.last() {
            MyPoll::Ready(s) => rest.push(s@),
            MyPoll::Pending => rest,
        }
    }
}

/// The results of a round come out in the order of the answers: none for
/// no answer, and one more answer adds its text at the end when it is a
/// result and nothing when it is pending.
pub proof fn lemma_ready_texts_push(answers: Seq<MyPoll>, a: MyPoll)
    ensures
        ready_texts(Seq::<MyPoll>::empty()) == Seq::<Seq<char>>::empty(),
        a matches MyPoll::Ready(s) ==> ready_texts(answers.push(a)) == ready_texts(answers).push(s@),
        a is Pending ==> ready_texts(answers.push(a)) == ready_texts(answers),
{
    assert(answers.push(a).drop_last() =~= answers);
}

/// What `accept` on a listening socket came to.
pub enum AcceptOutcome {
    /// No connection is waiting.
    WouldBlock,
    /// The call failed; the error's text.
    Failed(String),
    /// A peer connected; its address as text.
    Connected(String),
}

/// What a listener's poll answers for an accept outcome.
pub open spec fn accept_text(outcome: AcceptOutcome) -> Option<Seq<char>> {
    match outcome {
        AcceptOutcome::WouldBlock => None,
        AcceptOutcome::Failed(e) => Some(e@),
        AcceptOutcome::Connected(addr) => Some("Connected to "@ + addr@),
    }
}

/// A listener has nothing to say while no peer is there; a failed accept
/// is told by the error's own text, and a connected peer as
/// `Connected to <address>`.
pub proof fn lemma_accept_text(outcome: AcceptOutcome)
    ensures
        accept_text(outcome) is None <==> outcome is WouldBlock,
        outcome matches AcceptOutcome::Failed(e) ==> accept_text(outcome) == Some(e@),
        outcome matches AcceptOutcome::Connected(a) ==> accept_text(outcome) == Some("Connected to "@ + a@),
{
}

/// A listener answers pending while no peer is there, and otherwise the
/// error or the peer's address.
pub fn accept_answer(outcome: AcceptOutcome) -> (r: MyPoll)
    ensures
        accept_text(outcome) is None <==> r is Pending,
        r matches MyPoll::Ready(s) ==> Some(s@) == accept_text(outcome),
{
    match outcome {
        AcceptOutcome::WouldBlock => MyPoll::Pending,
        AcceptOutcome::Failed(e) => MyPoll::Ready(e),
        AcceptOutcome::Connected(addr) => {
            let mut s = "Connected to ".to_owned();
            s.push_str(addr.as_str());
            MyPoll::Ready(s)
        },
    }
}

/// What one `read` on a non-blocking stream came to.
#[derive(PartialEq, Eq, Structural, Debug, Clone, Copy)]
pub enum ReadOutcome {
    /// That many bytes were read; zero means the peer closed the stream.
    Bytes(usize),
    /// No data is there now.
    WouldBlock,
    /// A signal interrupted the call.
    Interrupted,
    /// Any other error.
    Failed,
}

/// What to do after a read.
#[derive(PartialEq, Eq, Structural, Debug, Clone, Copy)]
pub enum ReadAction {
    /// Show that many bytes and read again.
    Show(usize),
    /// Stop reading this stream.
    Stop,
    /// Give up with the error.
    Fail,
}

/// Data is shown and read on; an empty read, a stream without data and an
/// interrupted call end the reading; any other error is handed up.
pub fn read_action(outcome: ReadOutcome) -> (a: ReadAction)
    ensures
        a == match outcome {
            ReadOutcome::Bytes(n) => if n == 0 { ReadAction::Stop } else { ReadAction::Show(n) },
            ReadOutcome::WouldBlock => ReadAction::Stop,
            ReadOutcome::Interrupted => ReadAction::Stop,
            ReadOutcome::Failed => ReadAction::Fail,
        },
{
    match outcome {
        ReadOutcome::Bytes(n) => if n == 0 {
            ReadAction::Stop
        } else {
            ReadAction::Show(n)
        },
        ReadOutcome::WouldBlock => ReadAction::Stop,
        ReadOutcome::Interrupted => ReadAction::Stop,
        ReadOutcome::Failed => ReadAction::Fail,
    }
}

/// What the event loop does after a turn.
#[derive(PartialEq, Eq, Structural, Debug, Clone, Copy)]
pub enum Turn {
    /// Nothing is left to run or to wait for: the loop ends.
    Done,
    /// Some future is ready to run: take another turn.
    Again,
    /// Nothing is ready: wait for readiness events (with `poll_os`, ask the
    /// operating system; otherwise reuse the events at hand), hand their
    /// tokens to `wake`, and take another turn.
    AwaitEvents { poll_os: bool },
}

/// The futures woken by the events `tokens`, in order, and the futures
/// still waiting afterwards: each token takes its waiting future, if there is
/// one, out of `waiting`.
pub open spec fn wake_tokens<F>(waiting: Map<usize, F>, tokens: Seq<usize>) -> (Map<usize, F>, Seq<F>)
    decreases tokens.len(),
{
    if tokens.len() == 0 {
        (waiting, Seq::empty())
    } else {
        let t = tokens[0];
        let (w1, first) = if waiting.contains_key(t) {
            (waiting.remove(t), seq![waiting[t]])
        } else {
            (waiting, Seq::empty())
        };
        let (w2, rest) = wake_tokens(w1, tokens.drop_first());
        (w2, first + rest)
    }
}

/// An event wakes the future parked under its token, once: the futures left
/// waiting are exactly those whose tokens did not come, each under its
/// token, and every future parked before is either still waiting or woken.
pub proof fn lemma_wake_tokens<F>(waiting: Map<usize, F>, tokens: Seq<usize>)
    requires
        waiting.dom().finite(),
    ensures
        forall|t: usize| #[trigger] wake_tokens(waiting, tokens).0.contains_key(t) <==> waiting.contains_key(t)
            && !tokens.contains(t),
        forall|t: usize| #[trigger] wake_tokens(waiting, tokens).0.contains_key(t) ==> wake_tokens(waiting, tokens).0[t]
            == waiting[t],
        wake_tokens(waiting, tokens).0.dom().finite(),
        wake_tokens(waiting, tokens).0.len() + wake_tokens(waiting, tokens).1.len() == waiting.len(),
    decreases tokens.len(),
{
    if tokens.len() > 0 {
        let t = tokens[0];
        let w1 = if waiting.contains_key(t) { waiting.remove(t) } else { waiting };
        lemma_wake_tokens(w1, tokens.drop_first());
        assert forall|u: usize| tokens.contains(u) <==> (u == t || tokens.drop_first().contains(u)) by {
            if tokens.contains(u) && u != t {
                let k = choose|k: int| 0 <= k < tokens.len() && tokens[k] == u;
                assert(tokens.drop_first()[k - 1] == u);
            }
            if tokens.drop_first().contains(u) {
                let k = choose|k: int| 0 <= k < tokens.drop_first().len() && tokens.drop_first()[k] == u;
                assert(tokens[k + 1] == u);
            }
            if u == t {
                assert(tokens[0] == u);
            }
        }
    }
}

/// The executor: a counter for event tokens, the futures that wait for an
/// event by token, and the futures that run now.
pub struct Noobkio<F> {
    token: u64,
    waiting_io: HashMap<usize, F>,
    futures: Vec<F>,
}

impl<F: MyFuture> Noobkio<F> {
    /// The token the next registration gets.
    pub closed spec fn next_token_value(&self) -> u64 {
        self.token
    }

    /// Futures waiting for an event, by token.
    pub closed spec fn waiting(&self) -> Map<usize, F> {
        self.waiting_io@
    }

    /// Futures to poll now, in order.
    pub closed spec fn ready(&self) -> Seq<F> {
        self.futures@
    }

    /// Every future held may be polled.
    pub closed spec fn wf(&self) -> bool {
        &&& forall|i: int| 0 <= i < self.futures@.len() ==> (#[trigger] self.futures@[i]).pollable()
        &&& forall|t: usize| #[trigger] self.waiting_io@.contains_key(t) ==> self.waiting_io@[t].pollable()
    }

    pub fn new() -> (rt: Self)
        ensures
            rt.wf(),
            rt.next_token_value() == 0,
            rt.waiting() == Map::<usize, F>::empty(),
            rt.ready() == Seq::<F>::empty(),
    {
        Noobkio { futures: Vec::new(), waiting_io: HashMap::new(), token: 0 }
    }

    /// A fresh token for a registration with the event queue.
    pub fn next_token(&mut self) -> (t: usize)
        requires
            old(self).next_token_value() < u64::MAX,
        ensures
            t == old(self).next_token_value() as usize,
            final(self).next_token_value() == old(self).next_token_value() + 1,
            final(self).waiting() == old(self).waiting(),
            final(self).ready() == old(self).ready(),
    {
        let t = self.token as usize;
        self.token = self.token + 1;
        t
    }

    /// Queues `future` to be polled in the next round.
    pub fn spawn(&mut self, future: F)
        requires
            old(self).wf(),
            future.pollable(),
        ensures
            final(self).wf(),
            final(self).ready() == old(self).ready().push(future),
            final(self).waiting() == old(self).waiting(),
            final(self).next_token_value() == old(self).next_token_value(),
    {
        self.futures.push(future);
    }

    /// Parks `future` until an event with `token` arrives.
    pub fn park(&mut self, token: usize, future: F)
        requires
            old(self).wf(),
            future.pollable(),
        ensures
            final(self).wf(),
            final(self).waiting() == old(self).waiting().insert(token, future),
            final(self).ready() == old(self).ready(),
            final(self).next_token_value() == old(self).next_token_value(),
    {
        self.waiting_io.insert(token, future);
    }

    /// Nothing is left to run or to wait for.
    pub fn is_idle(&self) -> (r: bool)
        ensures
            r <==> self.ready().len() == 0 && self.waiting().len() == 0,
    {
        self.futures.len() == 0 && self.waiting_io.len() == 0
    }

    /// Some future is to be polled now.
    pub fn has_ready(&self) -> (r: bool)
        ensures
            r <==> self.ready().len() > 0,
    {
        self.futures.len() > 0
    }

    /// Some future waits for an event.
    pub fn has_waiting(&self) -> (r: bool)
        ensures
            r <==> self.waiting().len() > 0,
    {
        self.waiting_io.len() > 0
    }

    /// Polls every runnable future once, in order; those that answer leave
    /// and their answers are returned, in the same order; the others stay,
    /// as their polls left them.
    pub fn poll_round(&mut self) -> (outputs: Vec<String>)
        requires
            old(self).wf(),
        ensures
            final(self).wf(),
            exists|after: Seq<F>, answers: Seq<MyPoll>|
                polled_once(old(self).ready(), after, answers) && final(self).ready() == pending_only(
                    after,
                    answers,
                ) && outputs@.map_values(|s: String| s@) == ready_texts(answers),
            final(self).ready().len() + outputs@.len() == old(self).ready().len(),
            final(self).waiting() == old(self).waiting(),
            final(self).next_token_value() == old(self).next_token_value(),
    {
        let mut rest: Vec<F> = Vec::new();
        std::mem::swap(&mut rest, &mut self.futures);
        let ghost orig = rest@;
        let n: usize = rest.len();
        let mut kept: Vec<F> = Vec::new();
        let mut outputs: Vec<String> = Vec::new();
        let mut i: usize = 0;
        let ghost mut after: Seq<F> = Seq::empty();
        let ghost mut answers: Seq<MyPoll> = Seq::empty();
        while rest.len() > 0
            invariant
                i <= n,
                orig.len() == n,
                rest@ == orig.subrange(i as int, n as int),
                kept.len() + outputs.len() == i,
                forall|k: int| i <= k < n ==> (#[trigger] orig[k]).pollable(),
                forall|k: int| 0 <= k < kept@.len() ==> (#[trigger] kept@[k]).pollable(),
                self.waiting() == old(self).waiting(),
                self.next_token_value() == old(self).next_token_value(),
                polled_once(orig.subrange(0, i as int), after, answers),
                kept@ == pending_only(after, answers),
                outputs@.map_values(|s: String| s@) == ready_texts(answers),
            decreases rest.len(),
        {
            let mut future = rest.remove(0);
            assert(orig[i as int] == future);
            let r = future.poll();
            let ghost before_out = outputs@;
            proof {
                lemma_round_push(after, answers, future, r);
                assert(orig.subrange(0, i + 1) =~= orig.subrange(0, i as int).push(orig[i as int]));
                assert(answers.push(r).drop_last() =~= answers);
                after = after.push(future);
                answers = answers.push(r);
            }
            match r {
                MyPoll::Pending => {
                    kept.push(future);
                },
                MyPoll::Ready(out) => {
                    outputs.push(out);
                    assert(outputs@.map_values(|s: String| s@) =~= before_out.map_values(
                        |s: String| s@,
                    ).push(out@));
                },
            }
            i = i + 1;
        }
        self.futures = kept;
        proof {
            assert(orig.subrange(0, n as int) =~= orig);
        }
        outputs
    }

    /// Moves the futures whose tokens came with the events from the waiting
    /// set to the end of the run queue, in the order of the events.
    pub fn wake(&mut self, tokens: &Vec<usize>)
        requires
            old(self).wf(),
        ensures
            final(self).wf(),
            final(self).waiting() == wake_tokens(old(self).waiting(), tokens@).0,
            final(self).ready() == old(self).ready() + wake_tokens(old(self).waiting(), tokens@).1,
            final(self).next_token_value() == old(self).next_token_value(),
    {
        let mut i: usize = 0;
        assert(tokens@.skip(0) =~= tokens@);
        assert(self.ready().skip(old(self).ready().len() as int) =~= Seq::<F>::empty());
        assert(self.ready().subrange(0, old(self).ready().len() as int) =~= old(self).ready());
        while i < tokens.len()
            invariant
                i <= tokens@.len(),
                self.wf(),
                self.next_token_value() == old(self).next_token_value(),
                self.ready().len() >= old(self).ready().len(),
                self.ready().subrange(0, old(self).ready().len() as int) == old(self).ready(),
                wake_tokens(old(self).waiting(), tokens@) == (
                    wake_tokens(self.waiting(), tokens@.skip(i as int)).0,
                    self.ready().skip(old(self).ready().len() as int) + wake_tokens(
                        self.waiting(),
                        tokens@.skip(i as int),
                    ).1,
                ),
            decreases tokens@.len() - i,
        {
            let t = tokens[i];
            let ghost before_w = self.waiting();
            let ghost before_r = self.ready();
            assert(tokens@.skip(i as int)[0] == t);
            assert(tokens@.skip(i as int).drop_first() =~= tokens@.skip(i + 1));
            match self.waiting_io.remove(&t) {
                Some(future) => {
                    self.futures.push(future);
                    assert(self.ready().skip(old(self).ready().len() as int) =~= before_r.skip(
                        old(self).ready().len() as int,
                    ) + seq![before_w[t]]);
                    assert(self.waiting() =~= before_w.remove(t));
                },
                None => {
                    assert(self.waiting() =~= before_w);
                },
            }
            assert(self.ready().subrange(0, old(self).ready().len() as int) =~= old(self).ready());
            i = i + 1;
        }
        assert(tokens@.skip(i as int) =~= Seq::<usize>::empty());
        assert(self.ready() =~= old(self).ready() + self.ready().skip(old(self).ready().len() as int));
    }

    /// One turn of the event loop: when nothing is left, the loop is done;
    /// otherwise every runnable future is polled once (as `poll_round`
    /// does) and the answers come back; then another turn follows at once
    /// if something is runnable, and otherwise the loop waits for events,
    /// asking the operating system only if some future waits for one.
    pub fn execute_step(&mut self) -> (r: (Turn, Vec<String>))
        requires
            old(self).wf(),
        ensures
            final(self).wf(),
            final(self).next_token_value() == old(self).next_token_value(),
            final(self).waiting() == old(self).waiting(),
            old(self).ready().len() == 0 && old(self).waiting().len() == 0 ==> {
                &&& r.0 == Turn::Done
                &&& r.1@.len() == 0
                &&& final(self).ready() == old(self).ready()
            },
            !(old(self).ready().len() == 0 && old(self).waiting().len() == 0) ==> {
                &&& exists|after: Seq<F>, answers: Seq<MyPoll>|
                    polled_once(old(self).ready(), after, answers) && final(self).ready() == pending_only(
                        after,
                        answers,
                    ) && r.1@.map_values(|s: String| s@) == ready_texts(answers)
                &&& r.0 == if final(self).ready().len() > 0 {
                    Turn::Again
                } else {
                    Turn::AwaitEvents { poll_os: final(self).waiting().len() > 0 }
                }
            },
    {
        if self.is_idle() {
            return (Turn::Done, Vec::new());
        }
        let outputs = self.poll_round();
        if self.has_ready() {
            return (Turn::Again, outputs);
        }
        let poll_os = self.has_waiting();
        (Turn::AwaitEvents { poll_os }, outputs)
    }
}

} // verus!
