//! Futures that are polled by hand and answer with a `String` when ready.

use vstd::prelude::*;
use crate::clock::{duration_as_nanos, duration_nanos, instant_now, nanos_since};
use crate::random::random_u32;
use crate::text::{decimal, u32_to_string};

verus! {

/// The answer of one poll: not yet, or the future's output.
pub enum MyPoll {
    Ready(String),
    Pending,
}

/// A future that an executor drives by calling `poll` until it is ready.
pub trait MyFuture {
    /// The future may be polled in this state.
    spec fn pollable(&self) -> bool;

    /// A poll of this future may leave it as `next` and answer `answer`.
    spec fn poll_step(&self, next: &Self, answer: &MyPoll) -> bool;

    fn poll(&mut self) -> (r: MyPoll)
        requires
            old(self).pollable(),
        ensures
            old(self).poll_step(&*final(self), &r),
            r is Pending ==> final(self).pollable(),
    ;
}

/// What the answers of a round of polls leave in the queue: the futures, as
/// their polls left them, whose answer was pending, in their order.
pub open spec fn pending_only<A>(after: Seq<A>, answers: Seq<MyPoll>) -> Seq<A>
    decreases after.len(),
{
    if after.len() == 0 || answers.len() == 0 {
        Seq::empty()
    } else {
        let rest = pending_only(after.drop_last(), answers.drop_last());
        if answers.last() is Pending {
            rest.push(after.last())
        } else {
            rest
        }
    }
}

/// How many of the answers carry a result.
pub open spec fn count_ready(answers: Seq<MyPoll>) -> nat
    decreases answers.len(),
{
    if answers.len() == 0 {
        0
    } else {
        count_ready(answers.drop_last()) + if answers.last() is Ready { 1nat } else { 0nat }
    }
}

/// Each of the futures `before` was polled once, which left it as the
/// future at the same place in `after` and answered the answer at that place.
pub open spec fn polled_once<F: MyFuture>(before: Seq<F>, after: Seq<F>, answers: Seq<MyPoll>) -> bool {
    &&& after.len() == before.len()
    &&& answers.len() == before.len()
    &&& forall|i: int| 0 <= i < before.len() ==> #[trigger] before[i].poll_step(&after[i], &answers[i])
}

/// Extending a round by one more poll.
pub proof fn lemma_round_push<A>(after: Seq<A>, answers: Seq<MyPoll>, x: A, a: MyPoll)
    requires
        after.len() == answers.len(),
    ensures
        pending_only(after.push(x), answers.push(a)) == if a is Pending {
            pending_only(after, answers).push(x)
        } else {
            pending_only(after, answers)
        },
        count_ready(answers.push(a)) == count_ready(answers) + if a is Ready { 1nat } else { 0nat },
{
    assert(after.push(x).drop_last() =~= after);
    assert(answers.push(a).drop_last() =~= answers);
}

/// The answers of a round cover the queue: what stays and what finished add
/// up to what was polled.
pub proof fn lemma_round_sizes<A>(after: Seq<A>, answers: Seq<MyPoll>)
    requires
        after.len() == answers.len(),
    ensures
        pending_only(after, answers).len() + count_ready(answers) == after.len(),
    decreases after.len(),
{
    if after.len() > 0 {
        lemma_round_sizes(after.drop_last(), answers.drop_last());
    }
}

/// What a sleep answers when `elapsed` nanoseconds have passed since its first
/// poll and it was asked to wait `wait_for` nanoseconds.
pub open spec fn sleep_answer(elapsed: u128, wait_for: u128) -> bool {
    elapsed >= wait_for
}

/// A sleep's wait is over exactly when at least as many nanoseconds as it
/// waits for have passed: never before, and always from then on.
pub proof fn lemma_sleep_answer_threshold(elapsed: u128, wait_for: u128)
    ensures
        sleep_answer(elapsed, wait_for) <==> wait_for <= elapsed,
        elapsed < wait_for ==> !sleep_answer(elapsed, wait_for),
{
}

/// Once a sleep's wait is over it stays over: the answer only depends on
/// whether enough time has passed.
pub proof fn lemma_sleep_answer_monotone(earlier: u128, later: u128, wait_for: u128)
    requires
        earlier <= later,
        sleep_answer(earlier, wait_for),
    ensures
        sleep_answer(later, wait_for),
{
}

/// A future that becomes ready once a given time has passed since it was
/// first polled.
pub struct Sleep {
    now: Option<std::time::Instant>,
    wait_for: u128,
    reading: Ghost<Option<u128>>,
}

impl Sleep {
    /// Nanoseconds this sleep waits for.
    pub closed spec fn wait_nanos(&self) -> u128 {
        self.wait_for
    }

    /// The sleep has read the clock at its first poll.
    pub closed spec fn started(&self) -> bool {
        self.now is Some
    }

    /// The instant of the first poll, once there was one.
    pub closed spec fn start(&self) -> Option<std::time::Instant> {
        self.now
    }

    /// The nanoseconds since the first poll that the last poll read off the
    /// clock; none before the first poll.
    pub closed spec fn last_reading(&self) -> Option<u128> {
        self.reading@
    }

    /// The last poll found the wait over: it read at least as many
    /// nanoseconds as the sleep waits for.
    pub open spec fn wait_over(&self) -> bool {
        self.last_reading() matches Some(e) && self.wait_nanos() <= e
    }

    /// A sleep that waits as many nanoseconds as `duration` holds, counted
    /// from its first poll.
    pub fn new(duration: std::time::Duration) -> (s: Sleep)
        ensures
            !s.started(),
            s.last_reading() is None,
            s.wait_nanos() == duration_nanos(duration),
    {
        Sleep { now: None, wait_for: duration_as_nanos(&duration), reading: Ghost(None) }
    }

    /// A sleep of `nanos` nanoseconds.
    pub fn from_nanos(nanos: u128) -> (s: Sleep)
        ensures
            !s.started(),
            s.last_reading() is None,
            s.wait_nanos() == nanos,
    {
        Sleep { now: None, wait_for: nanos, reading: Ghost(None) }
    }

    /// A sleep of `millis` milliseconds.
    pub fn from_millis(millis: u64) -> (s: Sleep)
        ensures
            !s.started(),
            s.last_reading() is None,
            s.wait_nanos() == millis as int * 1_000_000,
    {
        Sleep { now: None, wait_for: (millis as u128) * 1_000_000, reading: Ghost(None) }
    }

    /// The answer once `elapsed` nanoseconds have passed since the first poll.
    pub fn answer(&self, elapsed: u128) -> (r: MyPoll)
        ensures
            r is Ready <==> sleep_answer(elapsed, self.wait_nanos()),
            r is Ready <==> self.wait_nanos() <= elapsed,
            r matches MyPoll::Ready(s) ==> s@ == Seq::<char>::empty(),
    {
        if elapsed < self.wait_for {
            MyPoll::Pending
        } else {
            MyPoll::Ready(String::new())
        }
    }
}

impl Sleep {
    /// Reads the clock, starting it at the first call, and answers whether
    /// the wait is over: ready exactly when the time read since the first
    /// call is at least the wait.
    pub fn poll_clock(&mut self) -> (r: MyPoll)
        ensures
            final(self).started(),
            old(self).started() ==> final(self).start() == old(self).start(),
            final(self).wait_nanos() == old(self).wait_nanos(),
            final(self).last_reading() is Some,
            r is Ready <==> final(self).wait_over(),
            r matches MyPoll::Ready(s) ==> s@ == Seq::<char>::empty(),
            old(self).wait_nanos() == 0 ==> r is Ready,
    {
        if self.now.is_none() {
            self.now = Some(instant_now());
        }
        let elapsed = match &self.now {
            Some(start) => nanos_since(start),
            None => 0,
        };
        self.reading = Ghost(Some(elapsed));
        self.answer(elapsed)
    }
}

/// Polled again and again while the clock never runs backwards (each poll
/// reads at least what the one before it read), a sleep stays ready once it
/// has been ready, and it is pending at every poll that read less than its
/// wait.
pub proof fn lemma_sleep_stays_ready(states: Seq<Sleep>, answers: Seq<MyPoll>)
    requires
        states.len() == answers.len() + 1,
        forall|k: int| 0 <= k < answers.len() ==> #[trigger] states[k].poll_step(&states[k + 1], &answers[k]),
        forall|k: int|
            1 <= k < answers.len() ==> states[k].last_reading()->0 <= (#[trigger] states[k + 1].last_reading())->0,
    ensures
        forall|j: int, k: int| 0 <= j <= k < answers.len() && (#[trigger] answers[j]) is Ready ==> (
        #[trigger] answers[k]) is Ready,
        forall|k: int|
            0 <= k < answers.len() ==> ((#[trigger] answers[k]) is Pending <==> states[k + 1].last_reading()->0
                < states[0].wait_nanos()),
{
    assert forall|k: int| 0 <= k < states.len() implies #[trigger] states[k].wait_nanos() == states[0].wait_nanos() by {
        lemma_sleep_wait_kept(states, answers, k);
    }
    assert forall|k: int|
        0 <= k < answers.len() implies ((#[trigger] answers[k]) is Pending <==> states[k + 1].last_reading()->0
        < states[0].wait_nanos()) by {
        assert(states[k].poll_step(&states[k + 1], &answers[k]));
        assert(states[k + 1].wait_nanos() == states[0].wait_nanos());
    }
    assert forall|j: int, k: int| 0 <= j <= k < answers.len() && (#[trigger] answers[j]) is Ready implies (
    #[trigger] answers[k]) is Ready by {
        lemma_sleep_readings_grow(states, answers, j, k);
        assert(states[j].poll_step(&states[j + 1], &answers[j]));
        assert(states[k].poll_step(&states[k + 1], &answers[k]));
        assert(states[k + 1].wait_nanos() == states[0].wait_nanos());
        assert(states[j + 1].wait_nanos() == states[0].wait_nanos());
    }
}

proof fn lemma_sleep_wait_kept(states: Seq<Sleep>, answers: Seq<MyPoll>, k: int)
    requires
        states.len() == answers.len() + 1,
        forall|i: int| 0 <= i < answers.len() ==> #[trigger] states[i].poll_step(&states[i + 1], &answers[i]),
        0 <= k < states.len(),
    ensures
        states[k].wait_nanos() == states[0].wait_nanos(),
    decreases k,
{
    if k > 0 {
        let i = k - 1;
        lemma_sleep_wait_kept(states, answers, i);
        assert(states[i].poll_step(&states[i + 1], &answers[i]));
    }
}

proof fn lemma_sleep_readings_grow(states: Seq<Sleep>, answers: Seq<MyPoll>, j: int, k: int)
    requires
        states.len() == answers.len() + 1,
        forall|i: int|
            1 <= i < answers.len() ==> states[i].last_reading()->0 <= (#[trigger] states[i + 1].last_reading())->0,
        0 <= j <= k < answers.len(),
    ensures
        states[j + 1].last_reading()->0 <= states[k + 1].last_reading()->0,
    decreases k - j,
{
    if j < k {
        lemma_sleep_readings_grow(states, answers, j, k - 1);
        assert(states[k].last_reading()->0 <= states[k + 1].last_reading()->0);
    }
}

impl MyFuture for Sleep {
    open spec fn pollable(&self) -> bool {
        true
    }

    /// The first poll starts the clock; later polls keep its start and the
    /// wait; each poll reads the clock, and answers ready exactly when the
    /// time read is at least the wait; the answer, once ready, is empty, and
    /// a sleep of no time is ready at once.
    open spec fn poll_step(&self, next: &Self, answer: &MyPoll) -> bool {
        &&& next.started()
        &&& self.started() ==> next.start() == self.start()
        &&& next.wait_nanos() == self.wait_nanos()
        &&& next.last_reading() is Some
        &&& (*answer is Ready <==> next.wait_over())
        &&& *answer matches MyPoll::Ready(s) ==> s@ == Seq::<char>::empty()
        &&& self.wait_nanos() == 0 ==> *answer is Ready
    }

    fn poll(&mut self) -> (r: MyPoll) {
        self.poll_clock()
    }
}

} // verus!

verus! {

/// The larger of two numbers.
pub open spec fn max_u32(a: u32, b: u32) -> u32 {
    if a >= b { a } else { b }
}

/// The largest of the numbers drawn, 0 when none was.
pub open spec fn max_of(samples: Seq<u32>) -> u32
    decreases samples.len(),
{
    if samples.len() == 0 {
        0
    } else {
        max_u32(max_of(samples.drop_last()), samples.last())
    }
}

/// One more draw: the largest number so far and the new one.
pub proof fn lemma_max_of_push(samples: Seq<u32>, x: u32)
    ensures
        max_of(samples.push(x)) == max_u32(max_of(samples), x),
{
    assert(samples.push(x).drop_last() =~= samples);
}

/// A future that draws `rounds` random numbers, one per poll, and then answers
/// with the largest of them in decimal (with `0` when it drew none).
pub struct RandomNumber {
    max: u32,
    rounds: u32,
    drawn: Ghost<Seq<u32>>,
}

impl RandomNumber {
    /// The largest number taken into account so far.
    pub closed spec fn max_so_far(&self) -> u32 {
        self.max
    }

    /// How many draws are left.
    pub closed spec fn rounds_left(&self) -> u32 {
        self.rounds
    }

    /// The numbers that the polls drew, in order.
    pub closed spec fn draws(&self) -> Seq<u32> {
        self.drawn@
    }

    /// A future that still has `rounds` draws to make and has drawn nothing.
    pub closed spec fn fresh(rounds: u32) -> RandomNumber {
        RandomNumber { max: 0, rounds, drawn: Ghost(Seq::empty()) }
    }

    /// Takes one number into account.
    pub fn absorb(&mut self, sample: u32)
        requires
            old(self).rounds_left() > 0,
        ensures
            final(self).max_so_far() == max_u32(old(self).max_so_far(), sample),
            final(self).rounds_left() == old(self).rounds_left() - 1,
            final(self).draws() == old(self).draws(),
    {
        if sample > self.max {
            self.max = sample;
        }
        self.rounds = self.rounds - 1;
    }
}

impl From<u32> for RandomNumber {
    fn from(value: u32) -> (r: Self) {
        RandomNumber { max: 0, rounds: value, drawn: Ghost(Seq::empty()) }
    }
}

impl vstd::std_specs::convert::FromSpecImpl<u32> for RandomNumber {
    open spec fn obeys_from_spec() -> bool {
        true
    }

    open spec fn from_spec(v: u32) -> Self {
        RandomNumber::fresh(v)
    }
}

/// One poll of a random number: with no draw left it is ready and nothing
/// changes; otherwise it is pending, draws one more number, has one draw
/// fewer left, and keeps the larger of its maximum and the number drawn.
pub open spec fn random_step(pre: RandomNumber, post: RandomNumber, ready: bool) -> bool {
    if pre.rounds_left() == 0 {
        ready && post == pre
    } else {
        &&& !ready
        &&& post.rounds_left() == pre.rounds_left() - 1
        &&& post.draws().len() == pre.draws().len() + 1
        &&& post.draws().drop_last() == pre.draws()
        &&& post.max_so_far() == max_u32(pre.max_so_far(), post.draws().last())
    }
}

/// A random number made from `n` is pending at exactly its first `n` polls
/// and ready at every poll after them; each of its first `n` polls draws one
/// number and adds it to the end of what was drawn, and its maximum is always
/// the largest number drawn (0 before the first draw).
pub proof fn lemma_random_rounds(n: u32, states: Seq<RandomNumber>, answers: Seq<bool>)
    requires
        states.len() == answers.len() + 1,
        states[0] == RandomNumber::fresh(n),
        forall|i: int| 0 <= i < answers.len() ==> #[trigger] random_step(states[i], states[i + 1], answers[i]),
    ensures
        forall|i: int| 0 <= i < answers.len() ==> (#[trigger] answers[i] <==> i >= n),
        forall|i: int|
            0 <= i < states.len() ==> (#[trigger] states[i]).draws().len() == (if i <= n { i } else { n as int })
                && states[i].max_so_far() == max_of(states[i].draws()),
        forall|j: int, i: int|
            0 <= j <= i < states.len() ==> (#[trigger] states[i]).draws().subrange(0, states[j].draws().len() as int)
                == (#[trigger] states[j]).draws(),
{
    assert forall|i: int| 0 <= i < states.len() implies (#[trigger] states[i]).rounds_left() == (if i <= n { n - i } else { 0 })
        && states[i].draws().len() == (if i <= n { i } else { n as int }) && states[i].max_so_far() == max_of(
        states[i].draws(),
    ) by {
        lemma_rounds_left_at(n, states, answers, i);
    }
    assert forall|i: int| 0 <= i < answers.len() implies (#[trigger] answers[i] <==> i >= n) by {
        assert(random_step(states[i], states[i + 1], answers[i]));
        assert(states[i].rounds_left() == if i <= n { n - i } else { 0 });
    }
    assert forall|j: int, i: int|
        0 <= j <= i < states.len() implies (#[trigger] states[i]).draws().subrange(0, states[j].draws().len() as int)
        == (#[trigger] states[j]).draws() by {
        lemma_draws_extend(states, answers, j, i);
    }
}

proof fn lemma_rounds_left_at(n: u32, states: Seq<RandomNumber>, answers: Seq<bool>, i: int)
    requires
        states.len() == answers.len() + 1,
        states[0] == RandomNumber::fresh(n),
        forall|j: int| 0 <= j < answers.len() ==> #[trigger] random_step(states[j], states[j + 1], answers[j]),
        0 <= i < states.len(),
    ensures
        states[i].rounds_left() == if i <= n { n - i } else { 0 },
        states[i].draws().len() == if i <= n { i } else { n as int },
        states[i].max_so_far() == max_of(states[i].draws()),
    decreases i,
{
    if i > 0 {
        let j = i - 1;
        lemma_rounds_left_at(n, states, answers, j);
        assert(random_step(states[j], states[j + 1], answers[j]));
        if states[j].rounds_left() > 0 {
            lemma_max_of_push(states[j].draws(), states[i].draws().last());
            assert(states[j].draws().push(states[i].draws().last()) =~= states[i].draws());
        }
    } else {
        assert(states[0].draws() =~= Seq::<u32>::empty());
    }
}

proof fn lemma_draws_extend(states: Seq<RandomNumber>, answers: Seq<bool>, j: int, i: int)
    requires
        states.len() == answers.len() + 1,
        forall|k: int| 0 <= k < answers.len() ==> #[trigger] random_step(states[k], states[k + 1], answers[k]),
        0 <= j <= i < states.len(),
    ensures
        states[j].draws().len() <= states[i].draws().len(),
        states[i].draws().subrange(0, states[j].draws().len() as int) == states[j].draws(),
    decreases i - j,
{
    if j == i {
        assert(states[i].draws().subrange(0, states[i].draws().len() as int) =~= states[i].draws());
    } else {
        let k = i - 1;
        lemma_draws_extend(states, answers, j, k);
        assert(random_step(states[k], states[k + 1], answers[k]));
        if states[k].rounds_left() > 0 {
            assert(states[i].draws().subrange(0, states[j].draws().len() as int) =~= states[k].draws().subrange(
                0,
                states[j].draws().len() as int,
            ));
        }
    }
}

/// A random number made from `n` answers pending at its first `n` polls,
/// drawing `n` numbers; every later poll answers with the decimal text of the
/// largest of those `n` numbers (`0` when `n` is 0).
pub proof fn lemma_random_answers(n: u32, states: Seq<RandomNumber>, answers: Seq<MyPoll>)
    requires
        states.len() == answers.len() + 1,
        states[0] == RandomNumber::fresh(n),
        forall|i: int| 0 <= i < answers.len() ==> #[trigger] states[i].poll_step(&states[i + 1], &answers[i]),
    ensures
        forall|i: int| 0 <= i < answers.len() ==> ((#[trigger] answers[i]) is Pending <==> i < n),
        n < states.len() ==> states[n as int].draws().len() == n,
        forall|i: int|
            n <= i < answers.len() ==> (#[trigger] answers[i] matches MyPoll::Ready(t) && t@ == decimal(
                max_of(states[n as int].draws()) as nat,
            )),
{
    let ready = Seq::new(answers.len(), |i: int| answers[i] is Ready);
    assert forall|i: int| 0 <= i < ready.len() implies #[trigger] random_step(states[i], states[i + 1], ready[i]) by {
        assert(states[i].poll_step(&states[i + 1], &answers[i]));
    }
    lemma_random_rounds(n, states, ready);
    assert forall|i: int| 0 <= i < answers.len() implies ((#[trigger] answers[i]) is Pending <==> i < n) by {
        assert(ready[i] <==> i >= n);
    }
    assert forall|i: int|
        n <= i < answers.len() implies (#[trigger] answers[i] matches MyPoll::Ready(t) && t@ == decimal(
        max_of(states[n as int].draws()) as nat,
    )) by {
        lemma_random_settled(n, states, ready, i);
        assert(states[i].poll_step(&states[i + 1], &answers[i]));
        assert(states[i].max_so_far() == max_of(states[i].draws()));
    }
}

proof fn lemma_random_settled(n: u32, states: Seq<RandomNumber>, ready: Seq<bool>, i: int)
    requires
        states.len() == ready.len() + 1,
        states[0] == RandomNumber::fresh(n),
        forall|k: int| 0 <= k < ready.len() ==> #[trigger] random_step(states[k], states[k + 1], ready[k]),
        n <= i < states.len(),
    ensures
        states[i] == states[n as int],
    decreases i,
{
    if i > n {
        let k = i - 1;
        lemma_random_settled(n, states, ready, k);
        lemma_rounds_left_at(n, states, ready, k);
        assert(random_step(states[k], states[k + 1], ready[k]));
    }
}

impl MyFuture for RandomNumber {
    open spec fn pollable(&self) -> bool {
        true
    }

    /// One draw per pending poll; with no draw left, the largest number
    /// drawn, in decimal.
    open spec fn poll_step(&self, next: &Self, answer: &MyPoll) -> bool {
        &&& random_step(*self, *next, *answer is Ready)
        &&& *answer matches MyPoll::Ready(s) ==> s@ == decimal(self.max_so_far() as nat)
    }

    fn poll(&mut self) -> (r: MyPoll) {
        if self.rounds == 0 {
            return MyPoll::Ready(u32_to_string(self.max));
        }
        let sample = random_u32();
        let ghost before = self.drawn@;
        self.drawn = Ghost(self.drawn@.push(sample));
        self.absorb(sample);
        assert(self.draws().drop_last() =~= before);
        MyPoll::Pending
    }
}

/// Nanoseconds that a slow random number waits before each draw.
pub open spec fn slow_draw_pause() -> u128 {
    100_000_000
}

/// A random number future that sleeps a tenth of a second before each draw
/// and before answering.
pub struct SlowRandomNumber {
    max: u32,
    rounds: u32,
    sleep: Sleep,
    drawn: Ghost<Seq<u32>>,
}

impl SlowRandomNumber {
    pub closed spec fn max_so_far(&self) -> u32 {
        self.max
    }

    pub closed spec fn rounds_left(&self) -> u32 {
        self.rounds
    }

    /// The sleep that the next draw waits for.
    pub closed spec fn pause(&self) -> Sleep {
        self.sleep
    }

    /// The numbers that the polls drew, in order.
    pub closed spec fn draws(&self) -> Seq<u32> {
        self.drawn@
    }

    /// A future that still has `rounds` draws to make, behind a fresh pause.
    pub closed spec fn fresh(rounds: u32) -> SlowRandomNumber {
        SlowRandomNumber {
            max: 0,
            rounds,
            sleep: Sleep { now: None, wait_for: slow_draw_pause(), reading: Ghost(None) },
            drawn: Ghost(Seq::empty()),
        }
    }

    /// Takes one number into account, after the pause, and sets up a fresh
    /// pause for the next one.
    pub fn absorb(&mut self, sample: u32)
        requires
            old(self).rounds_left() > 0,
        ensures
            final(self).max_so_far() == max_u32(old(self).max_so_far(), sample),
            final(self).rounds_left() == old(self).rounds_left() - 1,
            final(self).draws() == old(self).draws(),
            !final(self).pause().started(),
            final(self).pause().wait_nanos() == slow_draw_pause(),
    {
        if sample > self.max {
            self.max = sample;
        }
        self.rounds = self.rounds - 1;
        self.sleep = Sleep::from_millis(100);
    }
}

/// What a fresh slow random number holds: no draw made, `rounds` to make,
/// and a pause of a tenth of a second that has not started.
pub broadcast proof fn lemma_fresh_slow_random(rounds: u32)
    ensures
        #[trigger] SlowRandomNumber::fresh(rounds).rounds_left() == rounds,
        SlowRandomNumber::fresh(rounds).max_so_far() == 0,
        SlowRandomNumber::fresh(rounds).draws() == Seq::<u32>::empty(),
        !SlowRandomNumber::fresh(rounds).pause().started(),
        SlowRandomNumber::fresh(rounds).pause().wait_nanos() == slow_draw_pause(),
{
}

impl From<u32> for SlowRandomNumber {
    fn from(rounds: u32) -> (r: Self) {
        SlowRandomNumber { rounds, max: 0, sleep: Sleep::from_millis(100), drawn: Ghost(Seq::empty()) }
    }
}

impl vstd::std_specs::convert::FromSpecImpl<u32> for SlowRandomNumber {
    open spec fn obeys_from_spec() -> bool {
        true
    }

    open spec fn from_spec(v: u32) -> Self {
        SlowRandomNumber::fresh(v)
    }
}

impl MyFuture for SlowRandomNumber {
    open spec fn pollable(&self) -> bool {
        true
    }

    /// The pause is polled first: while it runs, only the pause moves on;
    /// once it is over, either the answer (no draw left) or one draw, added
    /// to the end of what was drawn and taken into the maximum, and a fresh
    /// pause.
    open spec fn poll_step(&self, next: &Self, answer: &MyPoll) -> bool {
        exists|p: Sleep, pa: MyPoll|
            {
                &&& #[trigger] self.pause().poll_step(&p, &pa)
                &&& pa is Pending ==> {
                    &&& *answer is Pending
                    &&& next.rounds_left() == self.rounds_left()
                    &&& next.max_so_far() == self.max_so_far()
                    &&& next.draws() == self.draws()
                    &&& next.pause() == p
                }
                &&& pa is Ready && self.rounds_left() == 0 ==> {
                    &&& *answer matches MyPoll::Ready(s) && s@ == decimal(self.max_so_far() as nat)
                    &&& next.rounds_left() == 0
                    &&& next.max_so_far() == self.max_so_far()
                    &&& next.draws() == self.draws()
                    &&& next.pause() == p
                }
                &&& pa is Ready && self.rounds_left() > 0 ==> {
                    &&& *answer is Pending
                    &&& next.rounds_left() == self.rounds_left() - 1
                    &&& next.draws().len() == self.draws().len() + 1
                    &&& next.draws().drop_last() == self.draws()
                    &&& next.max_so_far() == max_u32(self.max_so_far(), next.draws().last())
                    &&& !next.pause().started()
                    &&& next.pause().wait_nanos() == slow_draw_pause()
                }
            }
    }

    fn poll(&mut self) -> (r: MyPoll) {
        let ghost pre = *self;
        let pa = self.sleep.poll();
        let ghost p = self.sleep;
        assert(pre.pause().poll_step(&p, &pa));
        if let MyPoll::Pending = pa {
            return MyPoll::Pending;
        }
        if self.rounds == 0 {
            return MyPoll::Ready(u32_to_string(self.max));
        }
        let sample = random_u32();
        self.drawn = Ghost(self.drawn@.push(sample));
        self.absorb(sample);
        assert(self.draws().drop_last() =~= pre.draws());
        MyPoll::Pending
    }
}

/// What a fresh random number holds: no draw made and `rounds` to make.
pub broadcast proof fn lemma_fresh_random(rounds: u32)
    ensures
        #[trigger] RandomNumber::fresh(rounds).rounds_left() == rounds,
        RandomNumber::fresh(rounds).max_so_far() == 0,
{
}

/// How many of the first `m` polls of a run made a draw.
pub open spec fn draws_made(states: Seq<SlowRandomNumber>, m: int) -> nat
    decreases m,
{
    if m <= 0 {
        0
    } else {
        draws_made(states, m - 1) + if states[m].rounds_left() < states[m - 1].rounds_left() {
            1nat
        } else {
            0nat
        }
    }
}

/// What one poll of a slow random number does to its draws: it makes none,
/// or exactly one, which it adds to the end of what was drawn and takes into
/// the maximum; and it answers only once no draw is left, with the decimal
/// text of the maximum.
proof fn lemma_slow_step(pre: SlowRandomNumber, post: SlowRandomNumber, answer: MyPoll)
    requires
        pre.poll_step(&post, &answer),
    ensures
        (post.rounds_left() == pre.rounds_left() && post.max_so_far() == pre.max_so_far() && post.draws()
            == pre.draws()) || ({
            &&& pre.rounds_left() > 0
            &&& post.rounds_left() == pre.rounds_left() - 1
            &&& post.draws().len() == pre.draws().len() + 1
            &&& post.draws().drop_last() == pre.draws()
            &&& post.max_so_far() == max_u32(pre.max_so_far(), post.draws().last())
        }),
        answer is Ready ==> pre.rounds_left() == 0 && (answer matches MyPoll::Ready(s) && s@ == decimal(
            pre.max_so_far() as nat,
        )),
{
    let (p, pa) = choose|p: Sleep, pa: MyPoll|
        {
            &&& #[trigger] pre.pause().poll_step(&p, &pa)
            &&& pa is Pending ==> {
                &&& answer is Pending
                &&& post.rounds_left() == pre.rounds_left()
                &&& post.max_so_far() == pre.max_so_far()
                &&& post.draws() == pre.draws()
                &&& post.pause() == p
            }
            &&& pa is Ready && pre.rounds_left() == 0 ==> {
                &&& answer matches MyPoll::Ready(s) && s@ == decimal(pre.max_so_far() as nat)
                &&& post.rounds_left() == 0
                &&& post.max_so_far() == pre.max_so_far()
                &&& post.draws() == pre.draws()
                &&& post.pause() == p
            }
            &&& pa is Ready && pre.rounds_left() > 0 ==> {
                &&& answer is Pending
                &&& post.rounds_left() == pre.rounds_left() - 1
                &&& post.draws().len() == pre.draws().len() + 1
                &&& post.draws().drop_last() == pre.draws()
                &&& post.max_so_far() == max_u32(pre.max_so_far(), post.draws().last())
                &&& !post.pause().started()
                &&& post.pause().wait_nanos() == slow_draw_pause()
            }
        };
}

/// Over the polls of a slow random number made from `n`, up to poll `i`:
/// the draws made and the draws left add up to `n`, the numbers drawn are
/// as many as the draws made, and the largest number so far is the largest
/// of them.
proof fn lemma_slow_draws_at(n: u32, states: Seq<SlowRandomNumber>, answers: Seq<MyPoll>, i: int)
    requires
        states.len() == answers.len() + 1,
        states[0] == SlowRandomNumber::fresh(n),
        forall|k: int| 0 <= k < answers.len() ==> #[trigger] states[k].poll_step(&states[k + 1], &answers[k]),
        0 <= i < states.len(),
    ensures
        draws_made(states, i) + states[i].rounds_left() == n,
        states[i].draws().len() == draws_made(states, i),
        states[i].max_so_far() == max_of(states[i].draws()),
    decreases i,
{
    if i == 0 {
        assert(states[0].rounds_left() == n && states[0].max_so_far() == 0 && states[0].draws() =~= Seq::<
            u32,
        >::empty()) by {
            lemma_fresh_slow_random(n);
        }
    } else {
        let k = i - 1;
        lemma_slow_draws_at(n, states, answers, k);
        assert(states[k].poll_step(&states[k + 1], &answers[k]));
        lemma_slow_step(states[k], states[i], answers[k]);
        if states[i].rounds_left() != states[k].rounds_left() {
            lemma_max_of_push(states[k].draws(), states[i].draws().last());
            assert(states[k].draws().push(states[i].draws().last()) =~= states[i].draws());
        }
    }
}

/// A slow random number made from `n` answers only after exactly `n` of its
/// polls have made a draw, each poll making at most one and adding the
/// number to the end of what was drawn; its answer is the decimal text of
/// the largest of those `n` numbers, or `0` when `n` is 0.
pub proof fn lemma_slow_random_draws(n: u32, states: Seq<SlowRandomNumber>, answers: Seq<MyPoll>, m: int)
    requires
        states.len() == answers.len() + 1,
        states[0] == SlowRandomNumber::fresh(n),
        forall|k: int| 0 <= k < answers.len() ==> #[trigger] states[k].poll_step(&states[k + 1], &answers[k]),
        0 <= m < answers.len(),
        answers[m] is Ready,
    ensures
        draws_made(states, m) == n,
        states[m].draws().len() == n,
        answers[m] matches MyPoll::Ready(s) && s@ == decimal(max_of(states[m].draws()) as nat),
        forall|k: int|
            0 <= k < answers.len() ==> #[trigger] states[k + 1].rounds_left() == states[k].rounds_left() || states[k
                + 1].rounds_left() + 1 == states[k].rounds_left(),
        forall|k: int|
            0 <= k < answers.len() ==> (#[trigger] states[k + 1].draws()) == states[k].draws() || states[k
                + 1].draws() == states[k].draws().push(states[k + 1].draws().last()),
        exists|samples: Seq<u32>|
            samples.len() == n && (answers[m] matches MyPoll::Ready(s) && s@ == decimal(max_of(samples) as nat)),
{
    assert forall|k: int|
        0 <= k < answers.len() implies #[trigger] states[k + 1].rounds_left() == states[k].rounds_left() || states[k
        + 1].rounds_left() + 1 == states[k].rounds_left() by {
        assert(states[k].poll_step(&states[k + 1], &answers[k]));
        lemma_slow_step(states[k], states[k + 1], answers[k]);
    }
    assert forall|k: int|
        0 <= k < answers.len() implies (#[trigger] states[k + 1].draws()) == states[k].draws() || states[k
        + 1].draws() == states[k].draws().push(states[k + 1].draws().last()) by {
        assert(states[k].poll_step(&states[k + 1], &answers[k]));
        lemma_slow_step(states[k], states[k + 1], answers[k]);
        if states[k + 1].draws() != states[k].draws() {
            assert(states[k].draws().push(states[k + 1].draws().last()) =~= states[k + 1].draws());
        }
    }
    lemma_slow_draws_at(n, states, answers, m);
    assert(states[m].poll_step(&states[m + 1], &answers[m]));
    lemma_slow_step(states[m], states[m + 1], answers[m]);
    let samples = states[m].draws();
    assert(samples.len() == n);
}

} // verus!
