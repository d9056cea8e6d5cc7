//! Green threads that hand the processor to one another: the bookkeeping of a
//! cooperative round-robin scheduler. The register switch itself is machine
//! code and is performed by the caller with the contexts named in a `Switch`.

use vstd::prelude::*;

verus! {

/// Bytes of stack that each thread gets.
pub const DEFAULT_STACK_SIZE: usize = 2097152;

/// Threads of a runtime, the one that created it included.
pub const MAX_THREADS: usize = 4;

/// Where a thread stands.
#[derive(PartialEq, Eq, Structural, Debug, Clone, Copy)]
pub enum State {
    /// Free to take a new function.
    Available,
    /// Owns the processor.
    Running,
    /// Waits for its turn.
    Ready,
}

/// The registers that survive a call on AArch64: stack pointer, `x19` to
/// `x28`, frame pointer and link register.
#[derive(Debug, Clone, Copy)]
pub struct ThreadContext {
    pub sp: u64,
    pub x19: u64,
    pub x20: u64,
    pub x21: u64,
    pub x22: u64,
    pub x23: u64,
    pub x24: u64,
    pub x25: u64,
    pub x26: u64,
    pub x27: u64,
    pub x28: u64,
    pub fp: u64,
    pub lr: u64,
}

impl ThreadContext {
    /// All registers zero.
    pub open spec fn zeroed() -> ThreadContext {
        ThreadContext {
            sp: 0,
            x19: 0,
            x20: 0,
            x21: 0,
            x22: 0,
            x23: 0,
            x24: 0,
            x25: 0,
            x26: 0,
            x27: 0,
            x28: 0,
            fp: 0,
            lr: 0,
        }
    }

    pub fn new() -> (c: ThreadContext)
        ensures
            c == ThreadContext::zeroed(),
    {
        ThreadContext {
            sp: 0,
            x19: 0,
            x20: 0,
            x21: 0,
            x22: 0,
            x23: 0,
            x24: 0,
            x25: 0,
            x26: 0,
            x27: 0,
            x28: 0,
            fp: 0,
            lr: 0,
        }
    }
}

/// A thread: its stack, its saved registers and its state.
pub struct Thread {
    pub stack: Vec<u8>,
    pub ctx: ThreadContext,
    pub state: State,
}

impl Thread {
    /// A free thread with a zeroed stack of the default size.
    pub fn new() -> (t: Thread)
        ensures
            t.stack@.len() == DEFAULT_STACK_SIZE,
            forall|i: int| 0 <= i < t.stack@.len() ==> t.stack@[i] == 0u8,
            t.ctx == ThreadContext::zeroed(),
            t.state == State::Available,
    {
        Thread { stack: vec![0u8; DEFAULT_STACK_SIZE], ctx: ThreadContext::new(), state: State::Available }
    }
}

/// A hand-over of the processor: save the registers of thread `from`, load
/// those of thread `to`.
#[derive(PartialEq, Eq, Structural, Debug, Clone, Copy)]
pub struct Switch {
    pub from: usize,
    pub to: usize,
}

/// The position `k` steps after `from` on a ring of `n` places, for `k < n`.
pub open spec fn ring_step(from: int, k: int, n: int) -> int {
    if from + k < n { from + k } else { from + k - n }
}

/// How many steps on a ring of `n` places lead from `from` to `to`.
pub open spec fn ring_distance(from: int, to: int, n: int) -> int {
    if to >= from { to - from } else { to + n - from }
}

/// Rounds `addr` down to a multiple of 16.
pub open spec fn align_down_16(addr: u64) -> u64 {
    addr & !15u64
}

/// The stack pointer that a new thread starts with: the end of its stack,
/// rounded down to the 16-byte alignment that AArch64 asks for.
pub fn initial_stack_pointer(base: u64, size: u64) -> (sp: u64)
    requires
        base + size <= u64::MAX,
    ensures
        sp == align_down_16((base + size) as u64),
        sp % 16 == 0,
        sp <= base + size,
        base + size < sp + 16,
{
    let top: u64 = base + size;
    let sp: u64 = top & !15u64;
    assert(sp % 16 == 0 && sp <= top && top < sp + 16) by (bit_vector)
        requires
            sp == top & !15u64,
    ;
    sp
}

/// The scheduling invariant over a thread table and the index of the current
/// thread: only the current thread may run, and the first thread is never
/// free.
pub open spec fn wf_threads(threads: Seq<Thread>, current: int) -> bool {
    &&& threads.len() == MAX_THREADS
    &&& 0 <= current < threads.len()
    &&& threads[0].state != State::Available
    &&& forall|i: int|
        0 <= i < threads.len() && i != current ==> (#[trigger] threads[i]).state != State::Running
}

/// What a yield from thread `c` of the table `pre` leads to: `post` and the
/// switch `sw`.
pub open spec fn yielded(pre: Seq<Thread>, c: int, post: Rustime, sw: Option<Switch>) -> bool {
    let n = pre.len() as int;
    match sw {
        None => {
            &&& post.threads() == pre
            &&& post.current() == c
            &&& forall|i: int| 0 <= i < n ==> (#[trigger] pre[i]).state != State::Ready
        },
        Some(s) => {
            &&& s.from == c
            &&& 0 <= s.to < n
            &&& pre[s.to as int].state == State::Ready
            &&& forall|j: int|
                0 <= j < ring_distance(c, s.to as int, n) ==> (#[trigger] pre[ring_step(c, j, n)]).state
                    != State::Ready
            &&& post.current() == s.to
            &&& post.threads().len() == n
            &&& post.state(s.to as int) == State::Running
            &&& s.to != c ==> post.state(c) == if pre[c].state == State::Available {
                State::Available
            } else {
                State::Ready
            }
            &&& forall|i: int|
                0 <= i < n && i != c && i != s.to ==> #[trigger] post.threads()[i] == pre[i]
            &&& forall|i: int|
                0 <= i < n ==> (#[trigger] post.threads()[i]).ctx == pre[i].ctx
                    && post.threads()[i].stack == pre[i].stack
        },
    }
}

/// Round robin is fair: a yield from a thread that is not itself waiting
/// always finds a waiting thread if there is one, and a waiting thread that
/// the yield passes over keeps waiting and comes closer, around the ring, to
/// the running place.
pub proof fn lemma_yield_brings_waiting_closer(
    pre: Seq<Thread>,
    c: int,
    post: Rustime,
    sw: Option<Switch>,
    j: int,
)
    requires
        wf_threads(pre, c),
        yielded(pre, c, post, sw),
        0 <= j < pre.len(),
        pre[j].state == State::Ready,
        pre[c].state != State::Ready,
    ensures
        sw is Some,
        sw->0.to != j ==> post.state(j) == State::Ready && ring_distance(post.current(), j, pre.len() as int)
            < ring_distance(c, j, pre.len() as int),
{
    let n = pre.len() as int;
    assert(sw is Some) by {
        if sw is None {
            assert(pre[j].state != State::Ready);
        }
    }
    let t = sw->0.to as int;
    if t != j {
        let d = ring_distance(c, t, n);
        let dj = ring_distance(c, j, n);
        assert(ring_step(c, dj, n) == j);
        assert(dj != d) by {
            assert(ring_step(c, d, n) == t);
        }
        assert(dj > d) by {
            if dj < d {
                assert(pre[ring_step(c, dj, n)].state != State::Ready);
            }
        }
        assert(j != c);
        assert(post.threads()[j] == pre[j]);
    }
}

/// Over several yields: a thread `j` that waits is given the processor
/// within as many yields as there are steps around the ring from the running
/// thread to `j`, when each yield is made by the thread that runs (as every
/// yield after the first one is) and the running thread was not itself
/// waiting. So the round robin never skips a waiting thread, and one is run
/// within as many yields as there are threads.
pub proof fn lemma_waiting_thread_runs_within_a_round(
    states: Seq<Rustime>,
    sws: Seq<Option<Switch>>,
    j: int,
)
    requires
        states.len() == sws.len() + 1,
        sws.len() >= ring_distance(states[0].current(), j, MAX_THREADS as int),
        forall|k: int| 0 <= k < states.len() ==> (#[trigger] states[k]).wf(),
        forall|k: int|
            0 <= k < sws.len() ==> #[trigger] yielded(states[k].threads(), states[k].current(), states[k + 1], sws[k]),
        states[0].state(states[0].current()) != State::Ready,
        0 <= j < MAX_THREADS,
        states[0].state(j) == State::Ready,
    ensures
        0 < ring_distance(states[0].current(), j, MAX_THREADS as int) < MAX_THREADS,
        exists|k: int|
            0 <= k < ring_distance(states[0].current(), j, MAX_THREADS as int) && #[trigger] sws[k] == Some(
                Switch { from: sws[k]->0.from, to: j as usize },
            ),
{
    let n = MAX_THREADS as int;
    let d = ring_distance(states[0].current(), j, n);
    assert(j != states[0].current());
    if !(exists|k: int| 0 <= k < d && #[trigger] sws[k] == Some(Switch { from: sws[k]->0.from, to: j as usize })) {
        lemma_closer_while_passed_over(states, sws, j, d);
        assert(states[d].current() == j);
    }
}

proof fn lemma_closer_while_passed_over(states: Seq<Rustime>, sws: Seq<Option<Switch>>, j: int, k: int)
    requires
        states.len() == sws.len() + 1,
        0 <= k <= sws.len(),
        forall|l: int| 0 <= l < states.len() ==> (#[trigger] states[l]).wf(),
        forall|l: int|
            0 <= l < sws.len() ==> #[trigger] yielded(states[l].threads(), states[l].current(), states[l + 1], sws[l]),
        states[0].state(states[0].current()) != State::Ready,
        0 <= j < MAX_THREADS,
        states[0].state(j) == State::Ready,
        forall|l: int| 0 <= l < k ==> !(#[trigger] sws[l] == Some(Switch { from: sws[l]->0.from, to: j as usize })),
    ensures
        states[k].state(j) == State::Ready,
        states[k].state(states[k].current()) != State::Ready,
        ring_distance(states[k].current(), j, MAX_THREADS as int) + k <= ring_distance(
            states[0].current(),
            j,
            MAX_THREADS as int,
        ),
    decreases k,
{
    if k > 0 {
        let l = k - 1;
        lemma_closer_while_passed_over(states, sws, j, l);
        assert(yielded(states[l].threads(), states[l].current(), states[l + 1], sws[l]));
        lemma_yield_brings_waiting_closer(states[l].threads(), states[l].current(), states[l + 1], sws[l], j);
        assert(!(sws[l] == Some(Switch { from: sws[l]->0.from, to: j as usize })));
    }
}

/// The scheduler: its threads and the index of the one that runs.
pub struct Rustime {
    threads: Vec<Thread>,
    current: usize,
}

impl Rustime {
    pub closed spec fn threads(&self) -> Seq<Thread> {
        self.threads@
    }

    pub closed spec fn current(&self) -> int {
        self.current as int
    }

    /// The state of thread `i`.
    pub open spec fn state(&self, i: int) -> State {
        self.threads()[i].state
    }

    /// What always holds between two calls: the thread count is fixed, the
    /// current thread is the only one that may run, and the first thread,
    /// the one that created the runtime, is never free.
    pub open spec fn wf(&self) -> bool {
        wf_threads(self.threads(), self.current())
    }

    /// The first thread, the one that creates the runtime, runs; the others
    /// are free.
    pub fn new() -> (rt: Rustime)
        ensures
            rt.wf(),
            rt.current() == 0,
            rt.state(0) == State::Running,
            forall|i: int| 1 <= i < MAX_THREADS ==> #[trigger] rt.state(i) == State::Available,
            forall|i: int|
                0 <= i < MAX_THREADS ==> (#[trigger] rt.threads()[i]).stack@.len() == DEFAULT_STACK_SIZE
                    && rt.threads()[i].ctx == ThreadContext::zeroed(),
            forall|i: int, j: int|
                0 <= i < MAX_THREADS && 0 <= j < DEFAULT_STACK_SIZE ==> #[trigger] rt.threads()[i].stack@[j]
                    == 0u8,
    {
        let base_thread = Thread {
            stack: vec![0u8; DEFAULT_STACK_SIZE],
            ctx: ThreadContext::new(),
            state: State::Running,
        };
        let mut threads: Vec<Thread> = Vec::new();
        threads.push(base_thread);
        let mut k: usize = 1;
        while k < MAX_THREADS
            invariant
                1 <= k <= MAX_THREADS,
                threads@.len() == k,
                threads@[0].state == State::Running,
                forall|i: int| 1 <= i < k ==> (#[trigger] threads@[i]).state == State::Available,
                forall|i: int|
                    0 <= i < k ==> (#[trigger] threads@[i]).stack@.len() == DEFAULT_STACK_SIZE
                        && threads@[i].ctx == ThreadContext::zeroed(),
                forall|i: int, j: int|
                    0 <= i < k && 0 <= j < DEFAULT_STACK_SIZE ==> #[trigger] threads@[i].stack@[j] == 0u8,
            decreases MAX_THREADS - k,
        {
            threads.push(Thread::new());
            k = k + 1;
        }
        Rustime { threads, current: 0 }
    }

    fn is_ready(&self, pos: usize) -> (r: bool)
        requires
            pos < self.threads().len(),
        ensures
            r <==> self.state(pos as int) == State::Ready,
    {
        self.threads[pos].state == State::Ready
    }

    fn set_state(&mut self, pos: usize, state: State)
        requires
            pos < old(self).threads().len(),
        ensures
            final(self).current == old(self).current,
            final(self).threads().len() == old(self).threads().len(),
            final(self).state(pos as int) == state,
            final(self).threads()[pos as int].ctx == old(self).threads()[pos as int].ctx,
            final(self).threads()[pos as int].stack == old(self).threads()[pos as int].stack,
            forall|i: int| 0 <= i < old(self).threads().len() && i != pos ==> #[trigger] final(self).threads()[i] == old(self).threads()[i],
    {
        self.threads[pos].state = state;
    }

    /// Gives the processor to the next waiting thread, searching round the
    /// ring from the current one. The current thread waits its next turn,
    /// unless it is free (it has returned). Returns the registers to swap, or
    /// `None` when no thread waits, which changes nothing.
    pub fn t_yield(&mut self) -> (sw: Option<Switch>)
        requires
            old(self).wf(),
        ensures
            final(self).wf(),
            yielded(old(self).threads(), old(self).current(), *final(self), sw),
    {
        let n = self.threads.len();
        let c = self.current;
        let mut pos = c;
        let ghost mut k: int = 0;
        while !self.is_ready(pos)
            invariant
                n == self.threads().len(),
                c == self.current,
                *self == *old(self),
                old(self).wf(),
                c < n,
                pos < n,
                0 <= k < n,
                pos == ring_step(c as int, k, n as int),
                forall|j: int|
                    0 <= j < k ==> (#[trigger] self.threads()[ring_step(c as int, j, n as int)]).state
                        != State::Ready,
            decreases n - k,
        {
            pos = pos + 1;
            if pos == n {
                pos = 0;
            }
            proof {
                k = k + 1;
            }
            if pos == c {
                proof {
                    assert forall|i: int| 0 <= i < n implies (#[trigger] self.threads()[i]).state != State::Ready by {
                        let j = if i >= c { i - c } else { i + n - c };
                        assert(ring_step(c as int, j, n as int) == i);
                    }
                }
                return None;
            }
        }
        assert(ring_distance(c as int, pos as int, n as int) == k);
        if self.threads[c].state != State::Available {
            self.set_state(c, State::Ready);
        }
        self.set_state(pos, State::Running);
        self.current = pos;
        Some(Switch { from: c, to: pos })
    }

    /// The thread that runs leaves the scheduler: it becomes free and the
    /// processor goes to the next waiting thread. The first thread never
    /// returns this way; for it nothing changes.
    pub fn t_return(&mut self) -> (sw: Option<Switch>)
        requires
            old(self).wf(),
        ensures
            final(self).wf(),
            old(self).current() == 0 ==> sw is None && *final(self) == *old(self),
            old(self).current() != 0 ==> yielded(
                old(self).threads().update(
                    old(self).current(),
                    Thread {
                        state: State::Available,
                        ..old(self).threads()[old(self).current()]
                    },
                ),
                old(self).current(),
                *final(self),
                sw,
            ),
    {
        if self.current != 0 {
            let c = self.current;
            self.set_state(c, State::Available);
            assert(self.threads() =~= old(self).threads().update(
                c as int,
                Thread { state: State::Available, ..old(self).threads()[c as int] },
            ));
            return self.t_yield();
        }
        None
    }

    /// The first free thread, in table order.
    pub fn first_available(&self) -> (r: Option<usize>)
        ensures
            match r {
                None => forall|i: int| 0 <= i < self.threads().len() ==> #[trigger] self.state(i) != State::Available,
                Some(i) => {
                    &&& i < self.threads().len()
                    &&& self.state(i as int) == State::Available
                    &&& forall|j: int| 0 <= j < i ==> #[trigger] self.state(j) != State::Available
                },
            },
    {
        let mut i: usize = 0;
        while i < self.threads.len()
            invariant
                i <= self.threads().len(),
                forall|j: int| 0 <= j < i ==> #[trigger] self.state(j) != State::Available,
            decreases self.threads().len() - i,
        {
            if self.threads[i].state == State::Available {
                return Some(i);
            }
            i = i + 1;
        }
        None
    }

    /// Prepares the first free thread to run a function: its stack pointer
    /// is the aligned end of its stack, whose first byte is at `stack_address`
    /// (the caller reads that address from the thread `first_available`
    /// names),
    /// `x19` holds the function's address `entry`, the link register holds
    /// `trampoline` (the code that calls `x19` and then returns the thread),
    /// and the thread waits for its turn. Returns the thread's index.
    pub fn spawn(&mut self, entry: u64, trampoline: u64, stack_address: u64) -> (slot: usize)
        requires
            old(self).wf(),
            exists|i: int| 0 <= i < old(self).threads().len() && #[trigger] old(self).state(i) == State::Available,
            forall|i: int|
                0 <= i < old(self).threads().len() ==> stack_address + (#[trigger] old(
                    self,
                ).threads()[i]).stack@.len() <= u64::MAX,
        ensures
            final(self).wf(),
            slot < old(self).threads().len(),
            old(self).state(slot as int) == State::Available,
            forall|j: int| 0 <= j < slot ==> #[trigger] old(self).state(j) != State::Available,
            final(self).current() == old(self).current(),
            final(self).threads().len() == old(self).threads().len(),
            final(self).state(slot as int) == State::Ready,
            final(self).threads()[slot as int].ctx == (ThreadContext {
                sp: align_down_16((stack_address + old(self).threads()[slot as int].stack@.len()) as u64),
                x19: entry,
                lr: trampoline,
                ..old(self).threads()[slot as int].ctx
            }),
            final(self).threads()[slot as int].stack == old(self).threads()[slot as int].stack,
            forall|i: int| 0 <= i < old(self).threads().len() && i != slot ==> #[trigger] final(self).threads()[i] == old(self).threads()[i],
    {
        let found = self.first_available();
        let slot = match found {
            Some(i) => i,
            None => {
                proof {
                    let w = choose|i: int| 0 <= i < old(self).threads().len() && #[trigger] old(self).state(i) == State::Available;
                    assert(self.state(w) != State::Available);
                }
                0
            },
        };
        let size = self.threads[slot].stack.len();
        let sp = initial_stack_pointer(stack_address, size as u64);
        let mut ctx = self.threads[slot].ctx;
        ctx.sp = sp;
        ctx.x19 = entry;
        ctx.lr = trampoline;
        self.threads[slot].ctx = ctx;
        self.set_state(slot, State::Ready);
        slot
    }

    /// The saved registers of thread `i`, for the register switch to write
    /// into or read from.
    pub fn context_mut(&mut self, i: usize) -> (ctx: &mut ThreadContext)
        requires
            i < old(self).threads().len(),
        ensures
            *ctx == old(self).threads()[i as int].ctx,
            final(self).current() == old(self).current(),
            final(self).threads() == old(self).threads().update(
                i as int,
                Thread { ctx: *final(ctx), ..old(self).threads()[i as int] },
            ),
    {
        &mut self.threads[i].ctx
    }

    /// The stack of thread `i`, whose memory the new thread runs on.
    pub fn stack_mut(&mut self, i: usize) -> (stack: &mut Vec<u8>)
        requires
            i < old(self).threads().len(),
        ensures
            *stack == old(self).threads()[i as int].stack,
            final(self).current() == old(self).current(),
            final(self).threads() == old(self).threads().update(
                i as int,
                Thread { stack: *final(stack), ..old(self).threads()[i as int] },
            ),
    {
        &mut self.threads[i].stack
    }
}

} // verus!
