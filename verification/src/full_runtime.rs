//! An executor for futures of any type, and the parts of it that do not
//! depend on how a future is polled: the life cycle of a stored future, the
//! handle its output arrives on, a sleep to await, and the rounds over the
//! stored tasks.

use vstd::prelude::*;
use crate::simple;
use crate::slot::Slot;

use crate::type_erased::{count_done, lemma_unfinished_push, unfinished, Poll};

verus! {

/// Where the output of a spawned future arrives.
pub struct NoobkioHandle<T> {
    pub rcv: Option<Slot<T>>,
}

impl<T> NoobkioHandle<T> {
    /// The handle still listens for the output.
    pub open spec fn listening(&self) -> bool {
        self.rcv is Some
    }

    /// The slot the handle listens on.
    pub open spec fn source(&self) -> Option<Slot<T>> {
        self.rcv
    }

    /// The output if it has arrived: a value the slot permits. Once it has
    /// been received the handle no longer listens and stays pending.
    pub fn poll(&mut self) -> (r: Poll<T>)
        ensures
            !old(self).listening() ==> r is Pending && *final(self) == *old(self),
            r matches Poll::Ready(v) ==> old(self).listening() && old(self).source()->0.permits(Some(v))
                && !final(self).listening(),
            r is Pending ==> *final(self) == *old(self),
    {
        let mut taken: Option<Slot<T>> = None;
        std::mem::swap(&mut taken, &mut self.rcv);
        let rcv = match taken {
            None => {
                return Poll::Pending;
            },
            Some(rcv) => rcv,
        };
        match rcv.take() {
            Some(v) => Poll::Ready(v),
            None => {
                self.rcv = Some(rcv);
                Poll::Pending
            },
        }
    }
}

impl<T> NoobkioHandle<T> {
    /// Takes the output, for a handle whose future is known to be done;
    /// `None` when the output has not arrived.
    pub fn unchecked_rcv(self) -> (r: Option<T>)
        requires
            self.listening(),
        ensures
            self.source()->0.permits(r),
    {
        match self.rcv {
            Some(rcv) => rcv.take(),
            None => None,
        }
    }
}

impl<T> From<Slot<T>> for NoobkioHandle<T> {
    fn from(value: Slot<T>) -> (h: Self) {
        NoobkioHandle { rcv: Some(value) }
    }
}

impl<T> vstd::std_specs::convert::FromSpecImpl<Slot<T>> for NoobkioHandle<T> {
    open spec fn obeys_from_spec() -> bool {
        true
    }

    open spec fn from_spec(v: Slot<T>) -> Self {
        NoobkioHandle::listening_on(v)
    }
}

impl<T> NoobkioHandle<T> {
    pub closed spec fn listening_on(v: Slot<T>) -> NoobkioHandle<T> {
        NoobkioHandle { rcv: Some(v) }
    }
}

/// A handle made from a slot listens on that slot.
pub broadcast proof fn lemma_listening_on<T>(v: Slot<T>)
    ensures
        #[trigger] NoobkioHandle::listening_on(v).source() == Some(v),
{
}

/// Where a stored future stands.
pub enum Status<F> {
    Running(F),
    Finished,
}

/// A stored future and the slot its output of type `T` goes to.
pub struct RawFuture<F, T> {
    status: Status<F>,
    sender: Slot<T>,
}

impl<F, T> RawFuture<F, T> {
    /// The output slot takes any output.
    pub open spec fn wf(&self) -> bool {
        forall|v: Option<T>| #[trigger] self.output_slot().permits(v)
    }

    pub closed spec fn finished(&self) -> bool {
        self.status is Finished
    }

    pub closed spec fn future(&self) -> F
        recommends
            !self.finished(),
    {
        self.status->Running_0
    }

    /// The slot the output goes to.
    pub closed spec fn output_slot(&self) -> Slot<T> {
        self.sender
    }

    /// Stores `future`; its output will arrive on the returned handle.
    pub fn new(future: F) -> (r: (Self, NoobkioHandle<T>))
        ensures
            r.0.wf(),
            !r.0.finished(),
            r.0.future() == future,
            r.1.listening(),
            r.1.source() == Some(r.0.output_slot()),
    {
        let slot: Slot<T> = Slot::empty();
        let handle = NoobkioHandle { rcv: Some(slot.share()) };
        (RawFuture { status: Status::Running(future), sender: slot }, handle)
    }

    /// Whether the future has produced its output.
    pub fn is_finished(&self) -> (r: bool)
        ensures
            r <==> self.finished(),
    {
        match self.status {
            Status::Running(_) => false,
            Status::Finished => true,
        }
    }

    /// The running future, to be polled.
    pub fn future_mut(&mut self) -> (f: &mut F)
        requires
            !old(self).finished(),
        ensures
            *f == old(self).future(),
            !final(self).finished(),
            final(self).future() == *final(f),
            final(self).output_slot() == old(self).output_slot(),
    {
        match &mut self.status {
            Status::Running(f) => f,
            Status::Finished => vstd::pervasive::unreached(),
        }
    }

    /// The future answered `out`: it is finished and `out` goes to the handle.
    pub fn finish(&mut self, out: T)
        requires
            old(self).wf(),
            !old(self).finished(),
        ensures
            final(self).finished(),
            final(self).output_slot() == old(self).output_slot(),
    {
        assert(self.output_slot().permits(Some(out)));
        self.status = Status::Finished;
        self.sender.put(out);
    }
}

/// A sleep for the standard library's executors: ready once a given time has
/// passed since its first poll.
pub struct Sleep {
    clock: simple::Sleep,
}

impl Sleep {
    pub closed spec fn clock(&self) -> simple::Sleep {
        self.clock
    }

    pub fn new(duration: std::time::Duration) -> (s: Sleep)
        ensures
            !s.clock().started(),
            s.clock().wait_nanos() == crate::clock::duration_nanos(duration),
    {
        Sleep { clock: simple::Sleep::new(duration) }
    }

    /// Reads the clock, starting it at the first call; tells whether the
    /// wait is over.
    pub fn elapsed_enough(&mut self) -> (done: bool)
        ensures
            final(self).clock().started(),
            old(self).clock().started() ==> final(self).clock().start() == old(self).clock().start(),
            final(self).clock().wait_nanos() == old(self).clock().wait_nanos(),
            final(self).clock().last_reading() is Some,
            done <==> final(self).clock().wait_over(),
            old(self).clock().wait_nanos() == 0 ==> done,
    {
        match self.clock.poll_clock() {
            simple::MyPoll::Pending => false,
            simple::MyPoll::Ready(_) => true,
        }
    }
}

/// A stored future of any type, as the executor sees it: polled through one
/// method that tells whether it has finished.
pub trait Task {
    /// The task may be polled in this state; unless a task says otherwise,
    /// it always may.
    open spec fn task_inv(&self) -> bool {
        true
    }

    /// A poll may leave the task as `next` and give back `done`;
    /// where an implementation states nothing more, anything may follow.
    open spec fn task_step(&self, next: &Self, done: bool) -> bool {
        true
    }

    fn poll_task(&mut self) -> (done: bool)
        requires
            old(self).task_inv(),
        ensures
            final(self).task_inv(),
            old(self).task_step(&*final(self), done),
    ;
}

/// A stored sleep: polled, it reads its clock, and once the wait is over it
/// finishes and sends `()` to its handle.
impl Task for RawFuture<Sleep, ()> {
    open spec fn task_inv(&self) -> bool {
        self.wf()
    }

    /// A finished sleep stays finished; a running one keeps its slot, its
    /// wait and the start of its clock, stays running only while the time it
    /// read is short of the wait, and a sleep of no time finishes at its
    /// first poll.
    open spec fn task_step(&self, next: &Self, done: bool) -> bool {
        &&& next.output_slot() == self.output_slot()
        &&& done <==> next.finished()
        &&& self.finished() ==> done
        &&& !self.finished() && !done ==> {
            &&& next.future().clock().started()
            &&& next.future().clock().wait_nanos() == self.future().clock().wait_nanos()
            &&& !next.future().clock().wait_over()
            &&& self.future().clock().started() ==> next.future().clock().start() == self.future().clock().start()
        }
        &&& !self.finished() && self.future().clock().wait_nanos() == 0 ==> done
    }

    fn poll_task(&mut self) -> (done: bool) {
        if self.is_finished() {
            return true;
        }
        let ready = self.future_mut().elapsed_enough();
        if ready {
            self.finish(());
        }
        ready
    }
}

/// The executor: the stored tasks that have not finished, in spawn order.
pub struct Noobkio<T> {
    futures: Vec<T>,
}

impl<T: Task> Noobkio<T> {
    /// The stored tasks, in spawn order.
    pub closed spec fn stored(&self) -> Seq<T> {
        self.futures@
    }

    /// How many tasks are stored: the length of `stored()`.
    pub open spec fn pending(&self) -> nat {
        self.stored().len()
    }

    /// Every stored task may be polled.
    pub open spec fn wf(&self) -> bool {
        forall|i: int| 0 <= i < self.stored().len() ==> (#[trigger] self.stored()[i]).task_inv()
    }

    pub fn new() -> (rt: Self)
        ensures
            rt.wf(),
            rt.stored() == Seq::<T>::empty(),
    {
        Noobkio { futures: Vec::new() }
    }

    /// Stores `task`; it is polled with the next round.
    pub fn spawn(&mut self, task: T)
        requires
            old(self).wf(),
            task.task_inv(),
        ensures
            final(self).wf(),
            final(self).stored() == old(self).stored().push(task),
    {
        self.futures.push(task);
    }

    /// No task is left.
    pub fn is_idle(&self) -> (r: bool)
        ensures
            r <==> self.pending() == 0,
    {
        self.futures.len() == 0
    }

    /// Polls every stored task once, in order; those that tell they have
    /// finished leave, the others stay, as their polls left them, in order.
    /// Returns how many finished.
    pub fn poll_round(&mut self) -> (finished: usize)
        requires
            old(self).wf(),
        ensures
            final(self).wf(),
            exists|after: Seq<T>, done: Seq<bool>|
                {
                    &&& after.len() == old(self).stored().len()
                    &&& done.len() == after.len()
                    &&& forall|i: int|
                        0 <= i < after.len() ==> #[trigger] old(self).stored()[i].task_step(&after[i], done[i])
                    &&& final(self).stored() == unfinished(after, done)
                    &&& finished == count_done(done)
                },
            final(self).pending() + finished == old(self).pending(),
    {
        let mut rest: Vec<T> = Vec::new();
        std::mem::swap(&mut rest, &mut self.futures);
        let ghost orig = rest@;
        let n: usize = rest.len();
        let mut kept: Vec<T> = Vec::new();
        let mut finished: usize = 0;
        let mut i: usize = 0;
        let ghost mut after: Seq<T> = Seq::empty();
        let ghost mut done: Seq<bool> = Seq::empty();
        while rest.len() > 0
            invariant
                i <= n,
                orig.len() == n,
                orig == old(self).stored(),
                old(self).wf(),
                rest@ == orig.subrange(i as int, n as int),
                kept.len() + finished == i,
                forall|k: int| 0 <= k < kept@.len() ==> (#[trigger] kept@[k]).task_inv(),
                after.len() == i,
                done.len() == i,
                forall|k: int| 0 <= k < i ==> #[trigger] orig[k].task_step(&after[k], done[k]),
                kept@ == unfinished(after, done),
                finished == count_done(done),
            decreases rest.len(),
        {
            let mut task = rest.remove(0);
            assert(orig[i as int] == task);
            let d = task.poll_task();
            proof {
                lemma_unfinished_push(after, done, task, d);
                after = after.push(task);
                done = done.push(d);
            }
            if d {
                finished = finished + 1;
            } else {
                kept.push(task);
            }
            i = i + 1;
        }
        self.futures = kept;
        finished
    }
}

} // verus!
