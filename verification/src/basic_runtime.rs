//! The first executor: it polls every future in rounds until none is left.

use vstd::prelude::*;
use crate::simple::{
    count_ready, lemma_round_push, lemma_round_sizes, pending_only, polled_once, MyFuture, MyPoll,
};

verus! {

/// The executor: the futures that have not finished, in spawn order.
pub struct Noobkio<F> {
    futures: Vec<F>,
}

impl<F: MyFuture> Noobkio<F> {
    /// The futures that have not finished, in spawn order.
    pub closed spec fn queue(&self) -> Seq<F> {
        self.futures@
    }

    /// How many futures have not finished: the length of `queue()`.
    pub open spec fn pending(&self) -> nat {
        self.queue().len()
    }

    pub closed spec fn wf(&self) -> bool {
        forall|i: int| 0 <= i < self.futures@.len() ==> (#[trigger] self.futures@[i]).pollable()
    }

    pub fn new() -> (rt: Self)
        ensures
            rt.wf(),
            rt.pending() == 0,
            rt.queue() == Seq::<F>::empty(),
    {
        Noobkio { futures: Vec::new() }
    }

    /// Queues `future`; it is polled with the next round.
    pub fn spawn(&mut self, future: F)
        requires
            old(self).wf(),
            future.pollable(),
        ensures
            final(self).wf(),
            final(self).pending() == old(self).pending() + 1,
            final(self).queue() == old(self).queue().push(future),
    {
        self.futures.push(future);
    }

    /// No future is left.
    pub fn is_idle(&self) -> (r: bool)
        ensures
            r <==> self.pending() == 0,
    {
        self.futures.len() == 0
    }

    /// Polls every future once, in order; those that answer with a result
    /// leave, the others stay, in their order. Returns how many left.
    pub fn poll_round(&mut self) -> (finished: usize)
        requires
            old(self).wf(),
        ensures
            final(self).wf(),
            exists|after: Seq<F>, answers: Seq<MyPoll>|
                polled_once(old(self).queue(), after, answers) && final(self).queue() == pending_only(
                    after,
                    answers,
                ) && finished == count_ready(answers),
            final(self).pending() + finished == old(self).pending(),
    {
        let mut rest: Vec<F> = Vec::new();
        std::mem::swap(&mut rest, &mut self.futures);
        let ghost orig = rest@;
        let n: usize = rest.len();
        let mut kept: Vec<F> = Vec::new();
        let mut finished: usize = 0;
        let mut i: usize = 0;
        let ghost mut after: Seq<F> = Seq::empty();
        let ghost mut answers: Seq<MyPoll> = Seq::empty();
        while rest.len() > 0
            invariant
                i <= n,
                orig.len() == n,
                rest@ == orig.subrange(i as int, n as int),
                kept.len() + finished == i,
                forall|k: int| i <= k < n ==> (#[trigger] orig[k]).pollable(),
                forall|k: int| 0 <= k < kept@.len() ==> (#[trigger] kept@[k]).pollable(),
                polled_once(orig.subrange(0, i as int), after, answers),
                kept@ == pending_only(after, answers),
                finished == count_ready(answers),
            decreases rest.len(),
        {
            let mut future = rest.remove(0);
            assert(orig[i as int] == future);
            let r = future.poll();
            proof {
                lemma_round_push(after, answers, future, r);
                assert(orig.subrange(0, i + 1) =~= orig.subrange(0, i as int).push(orig[i as int]));
                after = after.push(future);
                answers = answers.push(r);
            }
            match r {
                MyPoll::Pending => {
                    kept.push(future);
                },
                MyPoll::Ready(_) => {
                    finished = finished + 1;
                },
            }
            i = i + 1;
        }
        self.futures = kept;
        proof {
            assert(orig.subrange(0, n as int) =~= orig);
            lemma_round_sizes(after, answers);
        }
        finished
    }
}

} // verus!
