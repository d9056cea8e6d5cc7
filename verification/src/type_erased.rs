//! Futures with a typed output, and an executor that stores each one behind
//! a uniform interface and keeps its output for the handle that `spawn`
//! gave out.

use vstd::prelude::*;
use crate::random::random_u32;
use crate::simple;
use crate::simple::{lemma_max_of_push, max_of, max_u32};

verus! {

/// The answer of one poll.
pub enum Poll<T> {
    Ready(T),
    Pending,
}

/// A future whose output has the type `Output`.
pub trait MyFuture {
    type Output;

    /// The future may be polled in this state; unless a future says
    /// otherwise, it always may.
    open spec fn pollable(&self) -> bool {
        true
    }

    /// A poll of this future may leave it as `next` and answer `answer`;
    /// unless a future says more, any state and answer may come of it.
    open spec fn poll_step(&self, next: &Self, answer: &Poll<Self::Output>) -> bool {
        true
    }

    fn poll(&mut self) -> (r: Poll<Self::Output>)
        requires
            old(self).pollable(),
        ensures
            old(self).poll_step(&*final(self), &r),
            r is Pending ==> final(self).pollable(),
    ;
}

/// A future that is ready once a given time has passed since its first poll.
pub struct Sleep {
    clock: simple::Sleep,
}

impl Sleep {
    /// The clock this sleep reads.
    pub closed spec fn clock(&self) -> simple::Sleep {
        self.clock
    }

    pub fn new(duration: std::time::Duration) -> (s: Sleep)
        ensures
            !s.clock().started(),
            s.clock().wait_nanos() == crate::clock::duration_nanos(duration),
    {
        Sleep { clock: simple::Sleep::new(duration) }
    }

    pub fn from_nanos(nanos: u128) -> (s: Sleep)
        ensures
            !s.clock().started(),
            s.clock().wait_nanos() == nanos,
    {
        Sleep { clock: simple::Sleep::from_nanos(nanos) }
    }
}

impl MyFuture for Sleep {
    type Output = ();

    open spec fn pollable(&self) -> bool {
        true
    }

    /// The first poll starts the clock; later polls keep its start and the
    /// wait; each poll is ready exactly when the time it read is at least the
    /// wait, so a sleep of no time is ready at once.
    open spec fn poll_step(&self, next: &Self, answer: &Poll<()>) -> bool {
        &&& next.clock().started()
        &&& self.clock().started() ==> next.clock().start() == self.clock().start()
        &&& next.clock().wait_nanos() == self.clock().wait_nanos()
        &&& next.clock().last_reading() is Some
        &&& (*answer is Ready <==> next.clock().wait_over())
        &&& self.clock().wait_nanos() == 0 ==> *answer is Ready
    }

    fn poll(&mut self) -> (r: Poll<()>) {
        match self.clock.poll_clock() {
            simple::MyPoll::Pending => Poll::Pending,
            simple::MyPoll::Ready(_) => Poll::Ready(()),
        }
    }
}

/// A future that draws `rounds` random numbers, one per poll, and then
/// answers with the largest (0 when it drew none).
pub struct RandomNumber {
    max: u32,
    rounds: u32,
    drawn: Ghost<Seq<u32>>,
}

impl RandomNumber {
    pub closed spec fn max_so_far(&self) -> u32 {
        self.max
    }

    pub closed spec fn rounds_left(&self) -> u32 {
        self.rounds
    }

    /// The numbers that the polls drew, in order.
    pub closed spec fn draws(&self) -> Seq<u32> {
        self.drawn@
    }

    pub closed spec fn fresh(rounds: u32) -> RandomNumber {
        RandomNumber { max: 0, rounds, drawn: Ghost(Seq::empty()) }
    }

    /// Takes one number into account.
    pub fn absorb(&mut self, sample: u32)
        requires
            old(self).rounds_left() > 0,
        ensures
            final(self).max_so_far() == max_u32(old(self).max_so_far(), sample),
            final(self).rounds_left() == old(self).rounds_left() - 1,
            final(self).draws() == old(self).draws(),
    {
        if sample > self.max {
            self.max = sample;
        }
        self.rounds = self.rounds - 1;
    }
}

/// What a fresh random number holds: no draw made and `rounds` to make.
pub broadcast proof fn lemma_fresh_random(rounds: u32)
    ensures
        #[trigger] RandomNumber::fresh(rounds).rounds_left() == rounds,
        RandomNumber::fresh(rounds).max_so_far() == 0,
        RandomNumber::fresh(rounds).draws() == Seq::<u32>::empty(),
{
}

impl From<u32> for RandomNumber {
    fn from(value: u32) -> (r: Self) {
        RandomNumber { max: 0, rounds: value, drawn: Ghost(Seq::empty()) }
    }
}

impl vstd::std_specs::convert::FromSpecImpl<u32> for RandomNumber {
    open spec fn obeys_from_spec() -> bool {
        true
    }

    open spec fn from_spec(v: u32) -> Self {
        RandomNumber::fresh(v)
    }
}

impl MyFuture for RandomNumber {
    type Output = u32;

    open spec fn pollable(&self) -> bool {
        true
    }

    /// One draw per pending poll, added to the end of what was drawn and
    /// taken into the maximum; with no draw left, the maximum.
    open spec fn poll_step(&self, next: &Self, answer: &Poll<u32>) -> bool {
        &&& self.rounds_left() == 0 ==> *next == *self && *answer == Poll::Ready(self.max_so_far())
        &&& self.rounds_left() > 0 ==> {
            &&& *answer is Pending
            &&& next.rounds_left() == self.rounds_left() - 1
            &&& next.draws().len() == self.draws().len() + 1
            &&& next.draws().drop_last() == self.draws()
            &&& next.max_so_far() == max_u32(self.max_so_far(), next.draws().last())
        }
    }

    fn poll(&mut self) -> (r: Poll<u32>)
    {
        if self.rounds == 0 {
            return Poll::Ready(self.max);
        }
        let sample = random_u32();
        let ghost before = self.drawn@;
        self.drawn = Ghost(self.drawn@.push(sample));
        self.absorb(sample);
        assert(self.draws().drop_last() =~= before);
        Poll::Pending
    }
}

/// Over the polls of a random number made from `n`, up to poll `i`: the
/// draws left and made, and the largest number so far as the largest of the
/// numbers drawn; once no draw is left, nothing changes.
proof fn lemma_random_draws_at(n: u32, states: Seq<RandomNumber>, answers: Seq<Poll<u32>>, i: int)
    requires
        states.len() == answers.len() + 1,
        states[0] == RandomNumber::fresh(n),
        forall|k: int| 0 <= k < answers.len() ==> #[trigger] states[k].poll_step(&states[k + 1], &answers[k]),
        0 <= i < states.len(),
    ensures
        states[i].rounds_left() == if i <= n { n - i } else { 0 },
        states[i].draws().len() == if i <= n { i } else { n as int },
        states[i].max_so_far() == max_of(states[i].draws()),
        i >= n ==> states[i] == states[n as int],
    decreases i,
{
    if i == 0 {
        assert(states[0].draws() =~= Seq::<u32>::empty());
    } else {
        let k = i - 1;
        lemma_random_draws_at(n, states, answers, k);
        assert(states[k].poll_step(&states[k + 1], &answers[k]));
        if k < n {
            lemma_max_of_push(states[k].draws(), states[i].draws().last());
            assert(states[k].draws().push(states[i].draws().last()) =~= states[i].draws());
        }
    }
}

/// A random number made from `n` answers pending at exactly its first `n`
/// polls, drawing one number at each; every later poll answers with the
/// largest of those `n` numbers (0 when `n` is 0).
pub proof fn lemma_random_draws(n: u32, states: Seq<RandomNumber>, answers: Seq<Poll<u32>>)
    requires
        states.len() == answers.len() + 1,
        states[0] == RandomNumber::fresh(n),
        forall|k: int| 0 <= k < answers.len() ==> #[trigger] states[k].poll_step(&states[k + 1], &answers[k]),
    ensures
        forall|k: int| 0 <= k < answers.len() ==> (#[trigger] answers[k] is Pending <==> k < n),
        n < states.len() ==> states[n as int].draws().len() == n,
        forall|k: int| n <= k < answers.len() ==> #[trigger] answers[k] == Poll::Ready(max_of(states[n as int].draws())),
        exists|samples: Seq<u32>|
            samples.len() == n && forall|k: int|
                n <= k < answers.len() ==> #[trigger] answers[k] == Poll::Ready(max_of(samples)),
{
    assert forall|k: int| 0 <= k < answers.len() implies (#[trigger] answers[k] is Pending <==> k < n) by {
        lemma_random_draws_at(n, states, answers, k);
        assert(states[k].poll_step(&states[k + 1], &answers[k]));
    }
    if n < states.len() {
        lemma_random_draws_at(n, states, answers, n as int);
        let samples = states[n as int].draws();
        assert forall|k: int| n <= k < answers.len() implies #[trigger] answers[k] == Poll::Ready(max_of(samples)) by {
            lemma_random_draws_at(n, states, answers, k);
            assert(states[k].poll_step(&states[k + 1], &answers[k]));
        }
    } else {
        let samples = Seq::new(n as nat, |k: int| 0u32);
        assert(samples.len() == n);
    }
}

/// Where a stored future stands.
pub enum Status<F> {
    Running(F),
    Finished,
}

/// A stored future, the output it produced once it has finished, and the
/// place of that output in its executor's table.
pub struct RawFuture<F: MyFuture> {
    status: Status<F>,
    output: Option<F::Output>,
    id: usize,
}

/// Where the output of a spawned future arrives: the place of that output
/// in the executor's table, while the handle still listens.
pub struct NoobkioHandle<T> {
    pub rcv: Option<usize>,
    marker: std::marker::PhantomData<T>,
}

impl<T> NoobkioHandle<T> {
    /// The handle still listens for the output.
    pub closed spec fn listening(&self) -> bool {
        self.rcv is Some
    }

    /// The place of the output the handle listens for.
    pub closed spec fn source(&self) -> Option<usize> {
        self.rcv
    }

    /// A handle listening on place `id`.
    pub fn listening_on(id: usize) -> (h: NoobkioHandle<T>)
        ensures
            h.source() == Some(id),
            h.listening(),
    {
        NoobkioHandle { rcv: Some(id), marker: std::marker::PhantomData }
    }

    /// The output if it has arrived: what the executor keeps at the handle's
    /// place, which is then emptied. Once it has been received the handle no
    /// longer listens and stays pending.
    pub fn poll<F: MyFuture<Output = T>>(&mut self, runtime: &mut Noobkio<F>) -> (r: Poll<T>)
        requires
            old(runtime).wf(),
        ensures
            final(runtime).wf(),
            final(runtime).stored() == old(runtime).stored(),
            match old(self).source() {
                Some(id) if id < old(runtime).results().len() => match old(runtime).results()[id as int] {
                    Some(v) => {
                        &&& r == Poll::Ready(v)
                        &&& final(self).source() is None
                        &&& final(runtime).results() == old(runtime).results().update(id as int, None)
                    },
                    None => {
                        &&& r is Pending
                        &&& *final(self) == *old(self)
                        &&& final(runtime).results() == old(runtime).results()
                    },
                },
                _ => {
                    &&& r is Pending
                    &&& *final(self) == *old(self)
                    &&& final(runtime).results() == old(runtime).results()
                },
            },
    {
        let id = match self.rcv {
            None => {
                return Poll::Pending;
            },
            Some(id) => id,
        };
        match runtime.take_result(id) {
            Some(v) => {
                self.rcv = None;
                Poll::Ready(v)
            },
            None => Poll::Pending,
        }
    }

    /// Takes the output, for a handle whose future is known to be done;
    /// `None` when the output has not arrived.
    pub fn unchecked_rcv<F: MyFuture<Output = T>>(self, runtime: &mut Noobkio<F>) -> (r: Option<T>)
        requires
            self.listening(),
            old(runtime).wf(),
        ensures
            final(runtime).wf(),
            final(runtime).stored() == old(runtime).stored(),
            self.source()->0 < old(runtime).results().len() ==> {
                &&& r == old(runtime).results()[self.source()->0 as int]
                &&& final(runtime).results() == old(runtime).results().update(self.source()->0 as int, None)
            },
            self.source()->0 >= old(runtime).results().len() ==> r is None && final(runtime).results()
                == old(runtime).results(),
    {
        match self.rcv {
            Some(id) => runtime.take_result(id),
            None => None,
        }
    }
}

impl<F: MyFuture> RawFuture<F> {
    /// The future has finished.
    pub closed spec fn finished(&self) -> bool {
        self.status is Finished
    }

    /// The future, while it runs.
    pub closed spec fn future(&self) -> F
        recommends
            !self.finished(),
    {
        self.status->Running_0
    }

    /// The output the future produced, while nobody has taken it.
    pub closed spec fn output(&self) -> Option<F::Output> {
        self.output
    }

    /// The place of the output in the executor's table.
    pub closed spec fn id(&self) -> usize {
        self.id
    }

    /// Polling the stored future is allowed.
    pub open spec fn wf(&self) -> bool {
        !self.finished() ==> self.future().pollable() && self.output() is None
    }

    /// Stores `future`, whose output goes to place `id`, and returns a handle
    /// that listens on that place.
    pub fn new(future: F, id: usize) -> (r: (Self, NoobkioHandle<F::Output>))
        requires
            future.pollable(),
        ensures
            r.0.wf(),
            !r.0.finished(),
            r.0.future() == future,
            r.0.output() is None,
            r.0.id() == id,
            r.1.source() == Some(id),
    {
        (RawFuture { status: Status::Running(future), output: None, id }, NoobkioHandle::listening_on(id))
    }

    /// Polls the future if it still runs; its output, once there, is kept.
    /// Returns whether the future has finished.
    pub fn poll(&mut self) -> (done: bool)
        requires
            old(self).wf(),
        ensures
            final(self).wf(),
            raw_step(*old(self), *final(self), done),
    {
        let mut status = Status::Finished;
        std::mem::swap(&mut status, &mut self.status);
        let mut future = match status {
            Status::Finished => {
                return true;
            },
            Status::Running(f) => f,
        };
        match future.poll() {
            Poll::Pending => {
                self.status = Status::Running(future);
                false
            },
            Poll::Ready(out) => {
                self.output = Some(out);
                true
            },
        }
    }

    /// Takes the output, leaving nothing.
    pub fn take_output(&mut self) -> (r: Option<F::Output>)
        ensures
            r == old(self).output(),
            final(self).output() is None,
            final(self).finished() == old(self).finished(),
            final(self).id() == old(self).id(),
    {
        let mut out: Option<F::Output> = None;
        std::mem::swap(&mut out, &mut self.output);
        out
    }
}

/// One poll of a stored future: a finished one stays as it is; a running one
/// is polled once, and keeps running as the poll left it exactly when it
/// answered pending; when it answered `v`, it has finished and keeps `v` as
/// its output. Its place stays the same.
pub open spec fn raw_step<F: MyFuture>(pre: RawFuture<F>, post: RawFuture<F>, done: bool) -> bool {
    &&& done <==> post.finished()
    &&& post.id() == pre.id()
    &&& pre.finished() ==> done && post == pre
    &&& !pre.finished() ==> exists|next: F, answer: Poll<F::Output>|
        {
            &&& #[trigger] pre.future().poll_step(&next, &answer)
            &&& (answer is Pending <==> !done)
            &&& answer is Pending ==> post.future() == next && post.output() == pre.output()
            &&& answer matches Poll::Ready(v) ==> post.output() == Some(v)
        }
}

/// The futures of a round that did not finish, in order.
pub open spec fn unfinished<A>(after: Seq<A>, done: Seq<bool>) -> Seq<A>
    decreases after.len(),
{
    if after.len() == 0 || done.len() == 0 {
        Seq::empty()
    } else {
        let rest = unfinished(after.drop_last(), done.drop_last());
        if done.last() {
            rest
        } else {
            rest.push(after.last())
        }
    }
}

/// How many of the polls finished their future.
pub open spec fn count_done(done: Seq<bool>) -> nat
    decreases done.len(),
{
    if done.len() == 0 {
        0
    } else {
        count_done(done.drop_last()) + if done.last() { 1nat } else { 0nat }
    }
}

/// Extending a round by one more poll.
pub proof fn lemma_unfinished_push<A>(after: Seq<A>, done: Seq<bool>, x: A, d: bool)
    requires
        after.len() == done.len(),
    ensures
        unfinished(after.push(x), done.push(d)) == if d {
            unfinished(after, done)
        } else {
            unfinished(after, done).push(x)
        },
        count_done(done.push(d)) == count_done(done) + if d { 1nat } else { 0nat },
{
    assert(after.push(x).drop_last() =~= after);
    assert(done.push(d).drop_last() =~= done);
}

/// The executor: stored futures that have not finished, and the table of
/// outputs by place.
pub struct Noobkio<F: MyFuture> {
    futures: Vec<RawFuture<F>>,
    results: Vec<Option<F::Output>>,
}

impl<F: MyFuture> Noobkio<F> {
    /// The stored futures, in spawn order.
    pub closed spec fn stored(&self) -> Seq<RawFuture<F>> {
        self.futures@
    }

    /// How many futures are stored: the length of `stored()`.
    pub open spec fn pending(&self) -> nat {
        self.stored().len()
    }

    /// The outputs kept for the handles, by place.
    pub closed spec fn results(&self) -> Seq<Option<F::Output>> {
        self.results@
    }

    /// The stored futures run, may be polled, and own distinct places in the
    /// table, increasing in queue order.
    pub open spec fn wf(&self) -> bool {
        &&& forall|i: int| 0 <= i < self.stored().len() ==> (#[trigger] self.stored()[i]).wf() && !self.stored()[i].finished()
        &&& forall|i: int| 0 <= i < self.stored().len() ==> (#[trigger] self.stored()[i]).id() < self.results().len()
        &&& forall|i: int, j: int| 0 <= i < j < self.stored().len() ==> (#[trigger] self.stored()[i]).id() < (
        #[trigger] self.stored()[j]).id()
    }

    pub fn new() -> (rt: Self)
        ensures
            rt.wf(),
            rt.pending() == 0,
            rt.stored() == Seq::<RawFuture<F>>::empty(),
            rt.results() == Seq::<Option<F::Output>>::empty(),
    {
        Noobkio { futures: Vec::new(), results: Vec::new() }
    }

    /// Takes the output kept at place `id`, leaving nothing there.
    fn take_result(&mut self, id: usize) -> (r: Option<F::Output>)
        requires
            old(self).wf(),
        ensures
            final(self).wf(),
            final(self).stored() == old(self).stored(),
            id < old(self).results().len() ==> {
                &&& r == old(self).results()[id as int]
                &&& final(self).results() == old(self).results().update(id as int, None)
            },
            id >= old(self).results().len() ==> r is None && final(self).results() == old(self).results(),
    {
        if id >= self.results.len() {
            return None;
        }
        self.results.push(None);
        let r = self.results.swap_remove(id);
        assert(self.results() =~= old(self).results().update(id as int, None));
        assert(self.results().len() == old(self).results().len());
        assert(self.stored() == old(self).stored());
        r
    }

    /// Stores `future` with an empty place for its output; the returned
    /// handle listens on that place.
    pub fn spawn(&mut self, future: F) -> (h: NoobkioHandle<F::Output>)
        requires
            old(self).wf(),
            future.pollable(),
        ensures
            final(self).wf(),
            final(self).pending() == old(self).pending() + 1,
            final(self).results() == old(self).results().push(None),
            h.source() == Some(old(self).results().len() as usize),
            final(self).stored().last().id() == old(self).results().len(),
            !final(self).stored().last().finished(),
            final(self).stored().last().output() is None,
            final(self).stored().last().future() == future,
            final(self).stored().drop_last() == old(self).stored(),
    {
        let id = self.results.len();
        let (raw, handle) = RawFuture::new(future, id);
        self.results.push(None);
        self.futures.push(raw);
        assert(final(self).stored().drop_last() =~= old(self).stored());
        assert forall|i: int| 0 <= i < old(self).stored().len() implies (#[trigger] self.stored()[i]).id() < id by {
            assert(self.stored()[i] == old(self).stored()[i]);
        }
        handle
    }

    /// No future is left.
    pub fn is_idle(&self) -> (r: bool)
        ensures
            r <==> self.pending() == 0,
    {
        self.futures.len() == 0
    }

    /// Polls every stored future once, in order. A future that finishes
    /// leaves, and its output is stored at its place in the table; the others
    /// stay, as their polls left them, in order. Returns how many finished.
    pub fn poll_round(&mut self) -> (finished: usize)
        requires
            old(self).wf(),
        ensures
            final(self).wf(),
            exists|after: Seq<RawFuture<F>>, done: Seq<bool>|
                {
                    &&& after.len() == old(self).stored().len()
                    &&& done.len() == after.len()
                    &&& forall|i: int| 0 <= i < after.len() ==> #[trigger] raw_step(old(self).stored()[i], after[i], done[i])
                    &&& final(self).stored() == unfinished(after, done)
                    &&& finished == count_done(done)
                    &&& forall|i: int|
                        0 <= i < after.len() && #[trigger] done[i] ==> final(self).results()[old(self).stored()[i].id() as int]
                            == after[i].output() && after[i].output() is Some
                    &&& forall|id: int|
                        0 <= id < old(self).results().len() && (forall|i: int|
                            0 <= i < after.len() && done[i] ==> old(self).stored()[i].id() != id)
                            ==> #[trigger] final(self).results()[id] == old(self).results()[id]
                },
            final(self).results().len() == old(self).results().len(),
            final(self).pending() + finished == old(self).pending(),
    {
        let mut rest: Vec<RawFuture<F>> = Vec::new();
        std::mem::swap(&mut rest, &mut self.futures);
        let ghost orig = rest@;
        let ghost results0 = self.results@;
        let n: usize = rest.len();
        let mut kept: Vec<RawFuture<F>> = Vec::new();
        let mut finished: usize = 0;
        let mut i: usize = 0;
        let ghost mut after: Seq<RawFuture<F>> = Seq::empty();
        let ghost mut done: Seq<bool> = Seq::empty();
        while rest.len() > 0
            invariant
                i <= n,
                orig.len() == n,
                orig == old(self).stored(),
                results0 == old(self).results(),
                old(self).wf(),
                rest@ == orig.subrange(i as int, n as int),
                kept.len() + finished == i,
                self.results@.len() == results0.len(),
                forall|k: int| 0 <= k < kept@.len() ==> (#[trigger] kept@[k]).wf() && !kept@[k].finished(),
                forall|a: int, k: int|
                    0 <= a < kept@.len() && i <= k < n ==> (#[trigger] kept@[a]).id() < (#[trigger] orig[k]).id(),
                forall|a: int, b: int|
                    0 <= a < b < kept@.len() ==> (#[trigger] kept@[a]).id() < (#[trigger] kept@[b]).id(),
                forall|a: int| 0 <= a < kept@.len() ==> (#[trigger] kept@[a]).id() < results0.len(),
                after.len() == i,
                done.len() == i,
                forall|k: int| 0 <= k < i ==> #[trigger] raw_step(orig[k], after[k], done[k]),
                kept@ == unfinished(after, done),
                finished == count_done(done),
                forall|k: int|
                    0 <= k < i && #[trigger] done[k] ==> self.results@[orig[k].id() as int] == after[k].output()
                        && after[k].output() is Some,
                forall|id: int|
                    0 <= id < results0.len() && (forall|k: int| 0 <= k < i && done[k] ==> orig[k].id() != id)
                        ==> #[trigger] self.results@[id] == results0[id],
            decreases rest.len(),
        {
            let mut raw = rest.remove(0);
            assert(orig[i as int] == raw);
            let ghost pre = raw;
            let d = raw.poll();
            let ghost done_prev = done;
            let ghost results_prev = self.results@;
            proof {
                lemma_unfinished_push(after, done, raw, d);
                after = after.push(raw);
                done = done.push(d);
            }
            if d {
                let ghost before = self.results@;
                let id = raw.id;
                let out = raw.take_output();
                self.results.set(id, out);
                finished = finished + 1;
                proof {
                    assert forall|k: int| 0 <= k < i implies orig[k].id() < id by {
                        assert(orig[k].id() < orig[i as int].id());
                    }
                    assert forall|k: int| 0 <= k < i + 1 && #[trigger] done[k] implies self.results@[orig[k].id() as int] == after[k].output()
                        && after[k].output() is Some by {
                        if k < i {
                            assert(orig[k].id() < orig[i as int].id());
                        }
                    }
                    assert forall|x: int|
                        0 <= x < results0.len() && (forall|k: int| 0 <= k < i + 1 && done[k] ==> orig[k].id() != x)
                            implies #[trigger] self.results@[x] == results0[x] by {
                        assert(done[i as int]);
                        assert(orig[i as int].id() != x);
                        assert(self.results@[x] == before[x]);
                        assert forall|k: int| 0 <= k < i && done_prev[k] implies orig[k].id() != x by {
                            assert(done[k] == done_prev[k]);
                            assert(0 <= k < i + 1 && done[k]);
                        }
                        assert(results_prev[x] == results0[x]);
                    }
                }
            } else {
                let ghost before = self.results@;
                kept.push(raw);
                proof {
                    assert forall|x: int|
                        0 <= x < results0.len() && (forall|k: int| 0 <= k < i + 1 && done[k] ==> orig[k].id() != x)
                            implies #[trigger] self.results@[x] == results0[x] by {
                        assert(self.results@[x] == results_prev[x]);
                        assert forall|k: int| 0 <= k < i && done_prev[k] implies orig[k].id() != x by {
                            assert(done[k] == done_prev[k]);
                            assert(0 <= k < i + 1 && done[k]);
                        }
                        assert(results_prev[x] == results0[x]);
                    }
                }
            }
            i = i + 1;
        }
        self.futures = kept;
        proof {
            assert(orig.subrange(0, n as int) =~= orig);
        }
        finished
    }
}

} // verus!
