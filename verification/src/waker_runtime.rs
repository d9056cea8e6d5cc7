//! An executor that polls a future only when the future has asked for it,
//! through the waker it was polled with.

use vstd::prelude::*;
use std::collections::{HashMap, VecDeque};
use crate::simple::{MyPoll, Sleep};

verus! {

broadcast use vstd::std_specs::hash::group_hash_axioms;

/// How many wake-ups the ready queue holds before a new one has to wait.
pub const QUEUE_CAPACITY: usize = 100;

/// The handle a future is polled with: waking it asks the executor to poll
/// the future with this id again.
pub struct NoobkioWaker {
    id: u64,
    wakes: u64,
}

impl NoobkioWaker {
    pub closed spec fn id(&self) -> u64 {
        self.id
    }

    /// How many times the future asked to be polled again.
    pub closed spec fn wakes(&self) -> u64 {
        self.wakes
    }

    /// Asks for another poll of the future.
    pub fn wake_by_ref(&mut self)
        ensures
            final(self).id() == old(self).id(),
            final(self).wakes() == if old(self).wakes() < u64::MAX {
                old(self).wakes() + 1
            } else {
                old(self).wakes() as int
            },
    {
        if self.wakes < u64::MAX {
            self.wakes = self.wakes + 1;
        }
    }
}

/// A future polled with a waker.
pub trait MyFuture {
    /// The future may be polled in this state; unless a future says
    /// otherwise, it always may.
    open spec fn pollable(&self) -> bool {
        true
    }

    /// A poll with a fresh waker may leave this future as `next`, have asked
    /// for `wakes` more polls and answer `answer`; unless a future says
    /// more, any of that may come of it.
    open spec fn poll_step(&self, next: &Self, wakes: u64, answer: &MyPoll) -> bool {
        true
    }

    fn poll(&mut self, waker: &mut NoobkioWaker) -> (r: MyPoll)
        requires
            old(self).pollable(),
        ensures
            old(waker).wakes() == 0 ==> old(self).poll_step(&*final(self), final(waker).wakes(), &r),
            r is Pending ==> final(self).pollable(),
            final(waker).id() == old(waker).id(),
    ;
}

impl MyFuture for Sleep {
    open spec fn pollable(&self) -> bool {
        true
    }

    /// Like the plain sleep, and while it waits it asks once to be polled
    /// again.
    open spec fn poll_step(&self, next: &Self, wakes: u64, answer: &MyPoll) -> bool {
        &&& <Sleep as crate::simple::MyFuture>::poll_step(self, next, answer)
        &&& *answer is Pending ==> wakes == 1
        &&& *answer is Ready ==> wakes == 0
    }

    fn poll(&mut self, waker: &mut NoobkioWaker) -> (r: MyPoll)
        ensures
            r is Pending ==> final(waker).wakes() == if old(waker).wakes() < u64::MAX {
                old(waker).wakes() + 1
            } else {
                old(waker).wakes() as int
            },
            r is Ready ==> *final(waker) == *old(waker),
    {
        let r = self.poll_clock();
        if let MyPoll::Pending = r {
            waker.wake_by_ref();
        }
        r
    }
}

/// What one step of the executor came to.
#[derive(PartialEq, Eq, Structural, Debug, Clone, Copy)]
pub enum Step {
    /// Go on with the next step.
    Continue,
    /// A future finished and none is left.
    Finished,
    /// No wake-up is queued: the executor would wait for one forever.
    Idle,
    /// The ready queue is full: the executor would wait forever to queue a
    /// wake-up.
    Stalled,
}

/// `n` copies of `id`.
pub open spec fn repeat(id: u64, n: nat) -> Seq<u64> {
    Seq::new(n, |i: int| id)
}

/// The queue after `wakes` wake-ups of `id` are added to `queue`, as many as
/// fit.
pub open spec fn enqueue_wakes(queue: Seq<u64>, id: u64, wakes: u64) -> Seq<u64> {
    let room = QUEUE_CAPACITY - queue.len();
    if wakes <= room {
        queue + repeat(id, wakes as nat)
    } else {
        queue + repeat(id, room as nat)
    }
}

/// A future that asked to be woken is queued again, once per wake-up, behind
/// the ids that were waiting, as long as the queue has room; the queue never
/// outgrows its capacity.
pub proof fn lemma_wake_requeues(queue: Seq<u64>, id: u64, wakes: u64)
    requires
        queue.len() <= QUEUE_CAPACITY,
    ensures
        enqueue_wakes(queue, id, wakes).len() <= QUEUE_CAPACITY,
        enqueue_wakes(queue, id, wakes).subrange(0, queue.len() as int) == queue,
        wakes >= 1 && queue.len() < QUEUE_CAPACITY ==> enqueue_wakes(queue, id, wakes)[queue.len() as int]
            == id,
        enqueue_wakes(queue, id, wakes).len() == if queue.len() + wakes <= QUEUE_CAPACITY {
            queue.len() + wakes
        } else {
            QUEUE_CAPACITY as int
        },
        forall|i: int|
            queue.len() <= i < enqueue_wakes(queue, id, wakes).len() ==> #[trigger] enqueue_wakes(
                queue,
                id,
                wakes,
            )[i] == id,
{
    assert(enqueue_wakes(queue, id, wakes).subrange(0, queue.len() as int) =~= queue);
}

/// The executor: futures by id, and the ids whose futures asked for a poll.
pub struct Noobkio<F> {
    fresh_id: u64,
    future_poll: HashMap<u64, F>,
    ready_queue: VecDeque<u64>,
}

impl<F: MyFuture> Noobkio<F> {
    /// The futures that have not finished, by id.
    pub closed spec fn tasks(&self) -> Map<u64, F> {
        self.future_poll@
    }

    /// The ids waiting for a poll, oldest first.
    pub closed spec fn queue(&self) -> Seq<u64> {
        self.ready_queue@
    }

    /// The id the next spawned future gets.
    pub closed spec fn next_fresh(&self) -> u64 {
        self.fresh_id
    }

    /// Ids are handed out in increasing order, every stored future may be
    /// polled, and the queue stays within its capacity.
    pub open spec fn wf(&self) -> bool {
        &&& forall|id: u64| #[trigger] self.tasks().contains_key(id) ==> id < self.next_fresh()
        &&& forall|id: u64| #[trigger] self.tasks().contains_key(id) ==> self.tasks()[id].pollable()
        &&& self.queue().len() <= QUEUE_CAPACITY
    }

    pub fn new() -> (rt: Self)
        ensures
            rt.wf(),
            rt.tasks() == Map::<u64, F>::empty(),
            rt.queue() == Seq::<u64>::empty(),
            rt.next_fresh() == 0,
    {
        Noobkio { fresh_id: 0, future_poll: HashMap::new(), ready_queue: VecDeque::new() }
    }

    /// Number of queued wake-ups.
    pub fn queued(&self) -> (n: usize)
        ensures
            n == self.queue().len(),
    {
        self.ready_queue.len()
    }

    /// Hands out a new id.
    fn next_id(&mut self) -> (id: u64)
        requires
            old(self).next_fresh() < u64::MAX,
        ensures
            id == old(self).next_fresh(),
            final(self).next_fresh() == old(self).next_fresh() + 1,
            final(self).tasks() == old(self).tasks(),
            final(self).queue() == old(self).queue(),
    {
        let fresh = self.fresh_id;
        self.fresh_id = self.fresh_id + 1;
        fresh
    }

    /// Stores `future` under a new id and queues that id for a first poll.
    pub fn spawn(&mut self, future: F)
        requires
            old(self).wf(),
            future.pollable(),
            old(self).next_fresh() < u64::MAX,
            old(self).queue().len() < QUEUE_CAPACITY,
        ensures
            final(self).wf(),
            final(self).next_fresh() == old(self).next_fresh() + 1,
            final(self).tasks() == old(self).tasks().insert(old(self).next_fresh(), future),
            final(self).queue() == old(self).queue().push(old(self).next_fresh()),
    {
        let id = self.next_id();
        self.future_poll.insert(id, future);
        self.ready_queue.push_back(id);
    }

    /// Queues up to `wakes` wake-ups of `id`, as many as fit; tells whether
    /// all did.
    fn enqueue(&mut self, id: u64, wakes: u64) -> (all: bool)
        requires
            old(self).queue().len() <= QUEUE_CAPACITY,
        ensures
            final(self).queue() == enqueue_wakes(old(self).queue(), id, wakes),
            all <==> wakes <= QUEUE_CAPACITY - old(self).queue().len(),
            final(self).tasks() == old(self).tasks(),
            final(self).next_fresh() == old(self).next_fresh(),
    {
        let mut k: u64 = 0;
        while k < wakes
            invariant
                k <= wakes,
                old(self).queue().len() <= QUEUE_CAPACITY,
                self.queue() == old(self).queue() + repeat(id, k as nat),
                self.queue().len() <= QUEUE_CAPACITY,
                self.tasks() == old(self).tasks(),
                self.next_fresh() == old(self).next_fresh(),
            decreases wakes - k,
        {
            if self.ready_queue.len() >= QUEUE_CAPACITY {
                assert(self.queue() =~= enqueue_wakes(old(self).queue(), id, wakes));
                return false;
            }
            self.ready_queue.push_back(id);
            proof {
                assert(self.queue() =~= old(self).queue() + repeat(id, (k + 1) as nat));
            }
            k = k + 1;
        }
        assert(self.queue() =~= enqueue_wakes(old(self).queue(), id, wakes));
        true
    }

    /// One turn of the executor: takes the oldest queued id and, if its
    /// future is still there, polls it once with a waker for that id. A
    /// future that is not ready goes back under its id; the wake-ups it asked
    /// for are queued. The step reports `Finished` when the future answered
    /// and no future is left.
    pub fn execute_step(&mut self) -> (step: Step)
        requires
            old(self).wf(),
        ensures
            final(self).wf(),
            final(self).next_fresh() == old(self).next_fresh(),
            old(self).queue().len() == 0 <==> step == Step::Idle,
            step == Step::Idle ==> final(self).tasks() == old(self).tasks()
                && final(self).queue() == old(self).queue(),
            old(self).queue().len() > 0 && !old(self).tasks().contains_key(old(self).queue()[0]) ==> {
                &&& step == Step::Continue
                &&& final(self).tasks() == old(self).tasks()
                &&& final(self).queue() == old(self).queue().drop_first()
            },
            old(self).queue().len() > 0 && old(self).tasks().contains_key(old(self).queue()[0]) ==> {
                let id = old(self).queue()[0];
                exists|next: F, wakes: u64, answer: MyPoll|
                    {
                        &&& #[trigger] old(self).tasks()[id].poll_step(&next, wakes, &answer)
                        &&& final(self).tasks() == if answer is Pending {
                            old(self).tasks().insert(id, next)
                        } else {
                            old(self).tasks().remove(id)
                        }
                        &&& final(self).queue() == enqueue_wakes(old(self).queue().drop_first(), id, wakes)
                        &&& step == if wakes > QUEUE_CAPACITY - (old(self).queue().len() - 1) {
                            Step::Stalled
                        } else if answer is Ready && final(self).tasks().len() == 0 {
                            Step::Finished
                        } else {
                            Step::Continue
                        }
                    }
            },
    {
        let id = match self.ready_queue.pop_front() {
            Some(id) => id,
            None => {
                assert(self.tasks() == old(self).tasks());
                return Step::Idle;
            },
        };
        let mut future = match self.future_poll.remove(&id) {
            Some(f) => f,
            None => {
                assert(self.tasks() =~= old(self).tasks());
                return Step::Continue;
            },
        };
        assert(future == old(self).tasks()[id]);
        let ghost pre = future;
        let mut waker = NoobkioWaker { id, wakes: 0 };
        let r = future.poll(&mut waker);
        let wakes = waker.wakes;
        let mut finished = false;
        let ghost polled = future;
        let ghost answer = r;
        assert(pre.poll_step(&polled, wakes, &answer));
        match r {
            MyPoll::Pending => {
                self.future_poll.insert(id, future);
                assert(self.tasks() =~= old(self).tasks().insert(id, polled));
            },
            MyPoll::Ready(_out) => {
                assert(self.tasks() =~= old(self).tasks().remove(id));
                finished = self.future_poll.len() == 0;
            },
        }
        let all = self.enqueue(id, wakes);
        assert(self.queue() == enqueue_wakes(old(self).queue().drop_first(), id, wakes));
        if !all {
            return Step::Stalled;
        }
        if finished {
            Step::Finished
        } else {
            Step::Continue
        }
    }
}

} // verus!
