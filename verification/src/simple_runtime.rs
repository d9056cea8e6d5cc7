//! An executor that polls its futures in rounds and keeps each result for
//! the handle that `spawn` gave out.

use vstd::prelude::*;
use crate::simple::{count_ready, lemma_round_push, lemma_round_sizes, pending_only, MyFuture, MyPoll};

verus! {

/// The results after a round: each future that answered with a result
/// leaves it under its id, in the order of the round.
pub open spec fn deliver(results: Seq<Option<String>>, ids: Seq<usize>, answers: Seq<MyPoll>) -> Seq<
    Option<String>,
>
    decreases answers.len(),
{
    if answers.len() == 0 || ids.len() == 0 {
        results
    } else {
        let r = deliver(results, ids.drop_last(), answers.drop_last());
        match answers.last() {
            MyPoll::Ready(s) => r.update(ids.last() as int, Some(s)),
            MyPoll::Pending => r,
        }
    }
}

/// Delivery: where the ids are distinct and in range, the result of every
/// future that answered is stored under its id, and every other id keeps
/// what it held.
pub proof fn lemma_deliver(results: Seq<Option<String>>, ids: Seq<usize>, answers: Seq<MyPoll>)
    requires
        ids.len() == answers.len(),
        forall|k: int| 0 <= k < ids.len() ==> #[trigger] ids[k] < results.len(),
        forall|k: int, l: int| 0 <= k < l < ids.len() ==> #[trigger] ids[k] < #[trigger] ids[l],
    ensures
        deliver(results, ids, answers).len() == results.len(),
        forall|k: int|
            0 <= k < ids.len() && #[trigger] answers[k] is Ready ==> deliver(results, ids, answers)[ids[k] as int]
                == Some(answers[k]->Ready_0),
        forall|id: int|
            0 <= id < results.len() && (forall|k: int| 0 <= k < ids.len() && ids[k] == id ==> answers[k] is Pending)
                ==> #[trigger] deliver(results, ids, answers)[id] == results[id],
    decreases ids.len(),
{
    if ids.len() > 0 {
        let n = ids.len() - 1;
        lemma_deliver(results, ids.drop_last(), answers.drop_last());
        assert forall|k: int|
            0 <= k < ids.len() && #[trigger] answers[k] is Ready implies deliver(results, ids, answers)[ids[k] as int]
                == Some(answers[k]->Ready_0) by {
            if k < n {
                assert(ids.drop_last()[k] == ids[k]);
                assert(answers.drop_last()[k] == answers[k]);
                assert(ids[k] < ids[n]);
            }
        }
        assert forall|id: int|
            0 <= id < results.len() && (forall|k: int| 0 <= k < ids.len() && ids[k] == id ==> answers[k] is Pending)
                implies #[trigger] deliver(results, ids, answers)[id] == results[id] by {
            assert forall|k: int| 0 <= k < ids.drop_last().len() && ids.drop_last()[k] == id implies answers.drop_last()[k] is Pending by {
                assert(ids[k] == id);
            }
        }
    }
}

/// Where the result of a spawned future is kept: the id of its place in the
/// executor's table of results.
#[derive(PartialEq, Eq, Structural, Debug, Clone, Copy)]
pub struct Handle {
    id: usize,
}

impl Handle {
    /// The place of this handle's result in the executor's table.
    pub closed spec fn id(&self) -> usize {
        self.id
    }

    /// Takes the result if it has arrived: what the executor keeps under
    /// this handle, which is then emptied. Later calls find nothing until
    /// a new result is stored.
    pub fn try_join<F: MyFuture>(&mut self, runtime: &mut Noobkio<F>) -> (r: Option<String>)
        requires
            old(runtime).wf(),
        ensures
            *final(self) == *old(self),
            final(runtime).wf(),
            final(runtime).tasks() == old(runtime).tasks(),
            old(self).id() < old(runtime).results().len() ==> {
                &&& r == old(runtime).results()[old(self).id() as int]
                &&& final(runtime).results() == old(runtime).results().update(old(self).id() as int, None)
            },
            old(self).id() >= old(runtime).results().len() ==> r is None && final(runtime).results()
                == old(runtime).results(),
    {
        runtime.take_result(self.id)
    }

    /// Answers with the result once it has arrived, as `try_join` takes it.
    pub fn poll<F: MyFuture>(&mut self, runtime: &mut Noobkio<F>) -> (r: MyPoll)
        requires
            old(runtime).wf(),
        ensures
            *final(self) == *old(self),
            final(runtime).wf(),
            final(runtime).tasks() == old(runtime).tasks(),
            old(self).id() < old(runtime).results().len() ==> {
                &&& r == join_answer_spec(old(runtime).results()[old(self).id() as int])
                &&& final(runtime).results() == old(runtime).results().update(old(self).id() as int, None)
            },
            old(self).id() >= old(runtime).results().len() ==> r is Pending && final(runtime).results()
                == old(runtime).results(),
    {
        let joined = self.try_join(runtime);
        join_answer(joined)
    }
}

/// What a handle's poll answers when `try_join` found `joined`.
pub open spec fn join_answer_spec(joined: Option<String>) -> MyPoll {
    match joined {
        None => MyPoll::Pending,
        Some(out) => MyPoll::Ready(out),
    }
}

/// A handle answers with the result exactly when one was found for it, and
/// then with that very result; it is pending exactly when none was found.
pub proof fn lemma_join_answer(joined: Option<String>)
    ensures
        join_answer_spec(joined) is Pending <==> joined is None,
        joined matches Some(out) ==> join_answer_spec(joined) == MyPoll::Ready(out),
{
}

/// The answer of a handle's poll to what `try_join` found.
pub fn join_answer(joined: Option<String>) -> (r: MyPoll)
    ensures
        r == join_answer_spec(joined),
        r is Pending <==> joined is None,
        joined matches Some(out) ==> r == MyPoll::Ready(out),
{
    match joined {
        None => MyPoll::Pending,
        Some(out) => MyPoll::Ready(out),
    }
}

impl<T: MyFuture> MyFuture for Box<T> {
    open spec fn pollable(&self) -> bool {
        (**self).pollable()
    }

    open spec fn poll_step(&self, next: &Self, answer: &MyPoll) -> bool {
        (**self).poll_step(&**next, answer)
    }

    fn poll(&mut self) -> (r: MyPoll) {
        let inner: &mut T = &mut **self;
        inner.poll()
    }
}

/// Each future of `before` was polled once, which left it as the future at
/// the same place in `after` and answered the answer at that place; the ids
/// stay with their futures.
pub open spec fn polled_with_ids<F: MyFuture>(
    before: Seq<(F, usize)>,
    after: Seq<(F, usize)>,
    answers: Seq<MyPoll>,
) -> bool {
    &&& after.len() == before.len()
    &&& answers.len() == before.len()
    &&& forall|i: int|
        0 <= i < before.len() ==> #[trigger] before[i].0.poll_step(&after[i].0, &answers[i])
            && after[i].1 == before[i].1
}

/// The ids of queued futures.
pub open spec fn ids_of<F>(tasks: Seq<(F, usize)>) -> Seq<usize> {
    tasks.map_values(|p: (F, usize)| p.1)
}

/// The executor: futures that still have to finish, each with the id of its
/// result, and the table of results by id.
pub struct Noobkio<F> {
    futures: Vec<(F, usize)>,
    results: Vec<Option<String>>,
}

impl<F: MyFuture> Noobkio<F> {
    /// The futures that still have to finish, each with its id, in spawn
    /// order.
    pub closed spec fn tasks(&self) -> Seq<(F, usize)> {
        self.futures@
    }

    /// The results kept for the handles, by id.
    pub closed spec fn results(&self) -> Seq<Option<String>> {
        self.results@
    }

    /// Every waiting future may be polled again, and the ids of waiting
    /// futures are places in the table, increasing in queue order.
    pub open spec fn wf(&self) -> bool {
        &&& forall|i: int| 0 <= i < self.tasks().len() ==> (#[trigger] self.tasks()[i]).0.pollable()
        &&& forall|i: int| 0 <= i < self.tasks().len() ==> (#[trigger] self.tasks()[i]).1 < self.results().len()
        &&& forall|i: int, j: int| 0 <= i < j < self.tasks().len() ==> (#[trigger] self.tasks()[i]).1 < (
        #[trigger] self.tasks()[j]).1
    }

    pub fn new() -> (rt: Self)
        ensures
            rt.wf(),
            rt.tasks() == Seq::<(F, usize)>::empty(),
            rt.results() == Seq::<Option<String>>::empty(),
    {
        Noobkio { futures: Vec::new(), results: Vec::new() }
    }

    /// Takes the result kept under `id`, leaving nothing there.
    fn take_result(&mut self, id: usize) -> (r: Option<String>)
        requires
            old(self).wf(),
        ensures
            final(self).wf(),
            final(self).tasks() == old(self).tasks(),
            id < old(self).results().len() ==> {
                &&& r == old(self).results()[id as int]
                &&& final(self).results() == old(self).results().update(id as int, None)
            },
            id >= old(self).results().len() ==> r is None && final(self).results() == old(self).results(),
    {
        if id >= self.results.len() {
            return None;
        }
        self.results.push(None);
        let r = self.results.swap_remove(id);
        assert(self.results() =~= old(self).results().update(id as int, None));
        assert(self.results().len() == old(self).results().len());
        assert(self.tasks() == old(self).tasks());
        r
    }

    /// Polls `future` once and gives it a place in the table of results. A
    /// result that came at once is stored there; otherwise the place stays
    /// empty and the future is queued as its poll left it.
    pub fn spawn(&mut self, future: F) -> (h: Handle)
        requires
            old(self).wf(),
            future.pollable(),
        ensures
            final(self).wf(),
            h.id() == old(self).results().len(),
            exists|next: F, answer: MyPoll|
                future.poll_step(&next, &answer) && if answer is Pending {
                    &&& final(self).tasks() == old(self).tasks().push((next, h.id()))
                    &&& final(self).results() == old(self).results().push(None)
                } else {
                    &&& final(self).tasks() == old(self).tasks()
                    &&& final(self).results() == old(self).results().push(Some(answer->Ready_0))
                },
    {
        let ghost first = future;
        let mut future = future;
        let id = self.results.len();
        let r = future.poll();
        let ghost answer = r;
        assert(first.poll_step(&future, &answer));
        match r {
            MyPoll::Ready(result) => {
                self.results.push(Some(result));
            },
            MyPoll::Pending => {
                self.results.push(None);
                self.futures.push((future, id));
                assert forall|i: int| 0 <= i < old(self).tasks().len() implies (#[trigger] self.tasks()[i]).1 < id by {
                    assert(self.tasks()[i] == old(self).tasks()[i]);
                }
            },
        }
        Handle { id }
    }

    /// No future is left to run.
    pub fn is_idle(&self) -> (r: bool)
        ensures
            r <==> self.tasks().len() == 0,
    {
        self.futures.len() == 0
    }

    /// Polls every waiting future once, in order. A future that answers with a
    /// result leaves the queue and its result is stored under its id; the
    /// others stay, as their polls left them, in their order. Returns how
    /// many finished.
    pub fn poll_round(&mut self) -> (finished: usize)
        requires
            old(self).wf(),
        ensures
            final(self).wf(),
            exists|after: Seq<(F, usize)>, answers: Seq<MyPoll>|
                {
                    &&& polled_with_ids(old(self).tasks(), after, answers)
                    &&& final(self).tasks() == pending_only(after, answers)
                    &&& final(self).results() == deliver(old(self).results(), ids_of(old(self).tasks()), answers)
                    &&& finished == count_ready(answers)
                    &&& forall|k: int|
                        0 <= k < answers.len() && #[trigger] answers[k] is Ready ==> final(self).results()[old(
                            self,
                        ).tasks()[k].1 as int] == Some(answers[k]->Ready_0)
                },
            final(self).results().len() == old(self).results().len(),
            final(self).tasks().len() + finished == old(self).tasks().len(),
    {
        let mut rest: Vec<(F, usize)> = Vec::new();
        std::mem::swap(&mut rest, &mut self.futures);
        let ghost orig = rest@;
        let ghost results0 = self.results@;
        let n: usize = rest.len();
        let mut kept: Vec<(F, usize)> = Vec::new();
        let mut finished: usize = 0;
        let mut i: usize = 0;
        let ghost mut after: Seq<(F, usize)> = Seq::empty();
        let ghost mut answers: Seq<MyPoll> = Seq::empty();
        while rest.len() > 0
            invariant
                i <= n,
                orig.len() == n,
                orig == old(self).tasks(),
                results0 == old(self).results(),
                old(self).wf(),
                rest@ == orig.subrange(i as int, n as int),
                kept.len() + finished == i,
                self.results@.len() == results0.len(),
                forall|k: int| 0 <= k < kept@.len() ==> (#[trigger] kept@[k]).0.pollable(),
                forall|a: int, k: int|
                    0 <= a < kept@.len() && i <= k < n ==> (#[trigger] kept@[a]).1 < (#[trigger] orig[k]).1,
                forall|a: int, b: int|
                    0 <= a < b < kept@.len() ==> (#[trigger] kept@[a]).1 < (#[trigger] kept@[b]).1,
                forall|a: int| 0 <= a < kept@.len() ==> (#[trigger] kept@[a]).1 < results0.len(),
                polled_with_ids(orig.subrange(0, i as int), after, answers),
                kept@ == pending_only(after, answers),
                finished == count_ready(answers),
                self.results@ == deliver(results0, ids_of(orig.subrange(0, i as int)), answers),
            decreases rest.len(),
        {
            let (mut future, id) = rest.remove(0);
            assert(orig[i as int] == (future, id));
            let r = future.poll();
            let ghost ids_before = ids_of(orig.subrange(0, i as int));
            proof {
                lemma_round_push(after, answers, (future, id), r);
                assert(orig.subrange(0, i + 1) =~= orig.subrange(0, i as int).push(orig[i as int]));
                assert(ids_of(orig.subrange(0, i + 1)) =~= ids_before.push(id));
                assert(ids_before.push(id).drop_last() =~= ids_before);
                assert(answers.push(r).drop_last() =~= answers);
                after = after.push((future, id));
                answers = answers.push(r);
            }
            match r {
                MyPoll::Pending => {
                    kept.push((future, id));
                },
                MyPoll::Ready(out) => {
                    self.results.set(id, Some(out));
                    finished = finished + 1;
                },
            }
            i = i + 1;
        }
        self.futures = kept;
        proof {
            assert(orig.subrange(0, n as int) =~= orig);
            lemma_round_sizes(after, answers);
            let ids = ids_of(orig);
            assert forall|k: int| 0 <= k < ids.len() implies #[trigger] ids[k] < results0.len() by {
                assert(orig[k].1 == ids[k]);
            }
            assert forall|k: int, l: int| 0 <= k < l < ids.len() implies #[trigger] ids[k] < #[trigger] ids[l] by {
                assert(orig[k].1 == ids[k] && orig[l].1 == ids[l]);
            }
            lemma_deliver(results0, ids, answers);
            assert forall|k: int|
                0 <= k < answers.len() && #[trigger] answers[k] is Ready implies final(self).results()[orig[k].1 as int]
                    == Some(answers[k]->Ready_0) by {
                assert(ids[k] == orig[k].1);
            }
        }
        finished
    }
}

} // verus!
