//! What holds of every pool, proved from the invariant of the dispatch.
//!
//! The laws speak of the mathematical state of a pool and of the events that
//! move it. The functions of the pool carry out exactly these events, so what
//! is proved here holds of every pool at every moment.

use crate::channel::Dispatch;
use crate::model::{
    count_in, holds, lemma_count_update, lemma_count_zero, lemma_counts_partition,
    lemma_fresh_inv, lemma_step_keeps_inv, Completion, Event, PoolView,
};
use crate::worker::{WorkerState, WorkerView};
use vstd::prelude::*;
use vstd::set_lib::{lemma_int_range, lemma_subset_equality, set_int_range};

verus! {

/// The invariant holds along every course of events that starts in a state
/// which satisfies it.
pub proof fn law_invariant_holds_along_every_run<J>(p: PoolView<J>, events: Seq<Event<J>>)
    requires
        p.inv(),
        p.admits(events),
    ensures
        p.run(events).inv(),
    decreases events.len(),
{
    if events.len() > 0 {
        lemma_step_keeps_inv(p, events[0]);
        law_invariant_holds_along_every_run(p.apply(events[0]), events.drop_first());
    }
}

/// No event adds a worker to the pool or takes one away.
pub proof fn law_pool_keeps_its_size<J>(p: PoolView<J>, events: Seq<Event<J>>)
    requires
        p.admits(events),
    ensures
        p.run(events).size() == p.size(),
    decreases events.len(),
{
    if events.len() > 0 {
        law_pool_keeps_its_size(p.apply(events[0]), events.drop_first());
    }
}

/// Whatever happens to a pool of `size` workers after it was built, its state
/// satisfies the invariant and it still has its `size` workers.
pub proof fn law_built_pool_stays_sound<J>(size: nat, events: Seq<Event<J>>)
    requires
        size >= 1,
        PoolView::<J>::fresh(size).admits(events),
    ensures
        PoolView::<J>::fresh(size).run(events).inv(),
        PoolView::<J>::fresh(size).run(events).size() == size,
{
    lemma_fresh_inv::<J>(size);
    law_invariant_holds_along_every_run(PoolView::<J>::fresh(size), events);
    law_pool_keeps_its_size(PoolView::<J>::fresh(size), events);
}

/// Jobs leave the queue in the order of their submission: the queue is what
/// was submitted and not yet delivered, and the job a worker is handed next is
/// the oldest of them.
pub proof fn law_jobs_leave_in_submission_order<J>(p: PoolView<J>)
    requires
        p.inv(),
    ensures
        p.delivered() + p.queued().len() == p.submitted().len(),
        forall|k: int|
            0 <= k < p.queued().len() ==> #[trigger] p.queued()[k] == p.submitted()[p.delivered()
                + k],
        p.queued().len() > 0 ==> p.channel.next() == Dispatch::Run(
            p.submitted()[p.delivered() as int],
        ),
{
}

/// A worker that waits is served whenever a job is queued, whatever the other
/// workers do: it gets the oldest queued job, whose submission index it then
/// holds, and one job more is in flight.
pub proof fn law_waiting_worker_gets_oldest_job<J>(p: PoolView<J>, id: nat)
    requires
        p.inv(),
        p.worker_is(id, WorkerState::Idle),
        p.queued().len() > 0,
    ensures
        p.channel.next() == Dispatch::Run(p.submitted()[p.delivered() as int]),
        p.apply(Event::Receive(id)).workers[id as int] == (WorkerView {
            id,
            state: WorkerState::Executing,
            ticket: Some(p.delivered()),
        }),
        p.apply(Event::Receive(id)).queued() == p.queued().drop_first(),
        p.apply(Event::Receive(id)).delivered() == p.delivered() + 1,
        p.apply(Event::Receive(id)).in_flight() == p.in_flight() + 1,
{
    let q = p.apply(Event::Receive(id));
    assert(p.worker_ok(id as int));
    lemma_count_update(p.workers, id as int, q.workers[id as int], WorkerState::Executing);
}

/// A worker that asks while nothing is queued and the pool is held is told
/// to wait, and its asking changes nothing.
pub proof fn law_empty_queue_keeps_worker_waiting<J>(p: PoolView<J>, id: nat)
    requires
        p.worker_is(id, WorkerState::Idle),
        p.queued().len() == 0,
        p.channel.open,
    ensures
        p.channel.next() == Dispatch::<J>::Wait,
        p.apply(Event::Receive(id)) == p,
{
    assert(p.apply(Event::Receive(id)).workers =~= p.workers);
}

/// Every job that was submitted is in exactly one place: in the queue, in
/// flight, with a worker that ended on it, or in the completion log.
pub proof fn law_every_job_is_accounted_for<J>(p: PoolView<J>)
    requires
        p.inv(),
    ensures
        p.submitted().len() == p.queued().len() + p.in_flight() + p.failed()
            + p.completed.len(),
{
}

/// No job runs twice: a submission index stands at most once in the
/// completion log, is held by at most one worker, and is never both held and
/// completed. Only delivered jobs are held or completed.
pub proof fn law_no_job_runs_twice<J>(p: PoolView<J>)
    requires
        p.inv(),
    ensures
        forall|k: int, l: int|
            0 <= k < p.completed.len() && 0 <= l < p.completed.len() && k != l ==> (
            #[trigger] p.completed[k]).ticket != (#[trigger] p.completed[l]).ticket,
        forall|i: int, j: int|
            0 <= i < p.size() && 0 <= j < p.size() && i != j && (
            #[trigger] p.workers[i]).ticket is Some ==> p.workers[i].ticket != (
            #[trigger] p.workers[j]).ticket,
        forall|i: int, k: int|
            0 <= i < p.size() && 0 <= k < p.completed.len() ==> (
            #[trigger] p.workers[i]).ticket != Some((#[trigger] p.completed[k]).ticket),
        forall|k: int|
            0 <= k < p.completed.len() ==> (#[trigger] p.completed[k]).ticket < p.delivered(),
        forall|i: int|
            0 <= i < p.size() && (#[trigger] p.workers[i]).ticket is Some
                ==> p.workers[i].ticket->0 < p.delivered(),
{
    assert forall|k: int| 0 <= k < p.completed.len() implies (#[trigger] p.completed[k]).ticket
        < p.delivered() by {
        assert(p.entry_ok(k));
    }
    assert forall|i: int|
        0 <= i < p.size() && (#[trigger] p.workers[i]).ticket is Some implies p.workers[i].ticket->0
        < p.delivered() by {
        assert(p.worker_ok(i));
    }
}

/// The submission indices that the workers hold, in the order of the workers.
spec fn held(workers: Seq<WorkerView>) -> Seq<int>
    decreases workers.len(),
{
    if workers.len() == 0 {
        Seq::empty()
    } else {
        match workers.last().ticket {
            Some(t) => held(workers.drop_last()).push(t as int),
            None => held(workers.drop_last()),
        }
    }
}

/// Where no two workers hold the same index, `held` lists each held index
/// once, and lists as many as there are workers that run a job or have ended
/// on one.
proof fn lemma_held(workers: Seq<WorkerView>)
    requires
        forall|i: int|
            0 <= i < workers.len() ==> ((#[trigger] workers[i]).ticket is Some
                <==> workers[i].state is Executing || workers[i].state is Failed),
        forall|i: int, j: int|
            0 <= i < j < workers.len() && (#[trigger] workers[i]).ticket is Some ==> (
            #[trigger] workers[j]).ticket != workers[i].ticket,
    ensures
        held(workers).len() == count_in(workers, WorkerState::Executing) + count_in(
            workers,
            WorkerState::Failed,
        ),
        held(workers).no_duplicates(),
        forall|x: int| #[trigger]
            held(workers).contains(x) <==> x >= 0 && holds(workers, x as nat),
    decreases workers.len(),
{
    if workers.len() > 0 {
        let front = workers.drop_last();
        let last = workers.last();
        assert forall|i: int| 0 <= i < front.len() implies front[i] == workers[i] by {}
        lemma_held(front);
        assert forall|x: int| #[trigger] held(workers).contains(x) implies x >= 0 && holds(
            workers,
            x as nat,
        ) by {
            let k = choose|k: int| 0 <= k < held(workers).len() && held(workers)[k] == x;
            if last.ticket is Some && k == held(front).len() {
                assert(workers[workers.len() - 1].ticket == Some(x as nat));
            } else {
                assert(held(front).contains(x));
                let i = choose|i: int|
                    0 <= i < front.len() && (#[trigger] front[i]).ticket == Some(x as nat);
                assert(workers[i].ticket == Some(x as nat));
            }
        }
        assert forall|x: int| x >= 0 && holds(workers, x as nat) implies #[trigger] held(
            workers,
        ).contains(x) by {
            let i = choose|i: int|
                0 <= i < workers.len() && (#[trigger] workers[i]).ticket == Some(x as nat);
            if i == workers.len() - 1 {
                assert(held(workers)[held(front).len() as int] == x);
            } else {
                assert(front[i].ticket == Some(x as nat));
                assert(held(front).contains(x));
                let k = choose|k: int| 0 <= k < held(front).len() && held(front)[k] == x;
                assert(held(workers)[k] == x);
            }
        }
        if let Some(t) = last.ticket {
            assert(!held(front).contains(t as int)) by {
                if holds(front, t) {
                    let i = choose|i: int|
                        0 <= i < front.len() && (#[trigger] front[i]).ticket == Some(t);
                    assert(workers[i].ticket == workers[workers.len() - 1].ticket);
                }
            }
        }
    }
}

/// Every delivered job has exactly one holder: a worker that runs it or has
/// ended on it, or an entry of the completion log. None is lost.
pub proof fn law_every_delivered_job_has_one_holder<J>(p: PoolView<J>, ticket: nat)
    requires
        p.inv(),
        ticket < p.delivered(),
    ensures
        p.has_completed(ticket) != p.is_held(ticket),
{
    // All indices that are completed or held, in one sequence. It has no
    // index twice and as many indices as jobs were delivered, all of them
    // below that number: so it has each of them.
    let done = Seq::new(p.completed.len(), |k: int| p.completed[k].ticket as int);
    let all = done + held(p.workers);
    let range = set_int_range(0, p.delivered() as int);
    assert forall|i: int| 0 <= i < p.workers.len() implies ((#[trigger] p.workers[i]).ticket is Some
        <==> p.workers[i].state is Executing || p.workers[i].state is Failed) by {
        assert(p.worker_ok(i));
    }
    lemma_held(p.workers);
    law_no_job_runs_twice(p);
    assert(all.no_duplicates()) by {
        assert forall|a: int, b: int|
            0 <= a < done.len() <= b < all.len() implies all[a] != all[b] by {
            assert(held(p.workers).contains(all[b]));
            let i = choose|i: int|
                0 <= i < p.workers.len() && (#[trigger] p.workers[i]).ticket == Some(
                    all[b] as nat,
                );
            assert(p.workers[i].ticket != Some(p.completed[a].ticket));
        }
    }
    assert(all.to_set().subset_of(range)) by {
        assert forall|x: int| all.to_set().contains(x) implies range.contains(x) by {
            let a = choose|a: int| 0 <= a < all.len() && all[a] == x;
            if a >= done.len() {
                assert(held(p.workers).contains(x));
            }
        }
    }
    all.unique_seq_to_set();
    lemma_int_range(0, p.delivered() as int);
    lemma_subset_equality(all.to_set(), range);
    assert(all.contains(ticket as int)) by {
        assert(range.contains(ticket as int));
    }
    let a = choose|a: int| 0 <= a < all.len() && all[a] == ticket as int;
    if a < done.len() {
        assert(p.completed[a].ticket == ticket);
    } else {
        assert(held(p.workers).contains(ticket as int));
    }
}

/// Once nothing waits and nothing runs, every submitted job has run to its
/// end but those on which a worker ended: the completion log is as long as
/// the submissions less the failed workers. If no worker has failed, each
/// submitted job stands in the log, and by the law above only once.
pub proof fn law_quiescent_pool_has_run_every_job<J>(p: PoolView<J>)
    requires
        p.inv(),
        p.quiescent(),
    ensures
        p.completed.len() + p.failed() == p.submitted().len(),
        p.failed() == 0 ==> forall|t: nat|
            t < p.submitted().len() ==> #[trigger] p.has_completed(t),
{
    if p.failed() == 0 {
        lemma_count_zero(p.workers, WorkerState::Executing);
        lemma_count_zero(p.workers, WorkerState::Failed);
        assert forall|t: nat| t < p.submitted().len() implies #[trigger] p.has_completed(t) by {
            law_every_delivered_job_has_one_holder(p, t);
            if p.is_held(t) {
                let i = choose|i: int|
                    0 <= i < p.workers.len() && (#[trigger] p.workers[i]).ticket == Some(t);
                assert(p.worker_ok(i));
            }
        }
    }
}

/// A worker runs one job at a time and completes its jobs in the order in
/// which it took them: of two entries of the completion log by the same
/// worker, the earlier one has the smaller submission index.
pub proof fn law_worker_completes_in_order_taken<J>(p: PoolView<J>, k: int, l: int)
    requires
        p.inv(),
        0 <= k < l < p.completed.len(),
        p.completed[k].worker == p.completed[l].worker,
    ensures
        p.completed[k].ticket < p.completed[l].ticket,
{
}

/// A strictly increasing sequence grows by at least one from each position to
/// the next.
proof fn lemma_increasing_gaps(s: Seq<int>, i: int, j: int)
    requires
        forall|a: int, b: int| 0 <= a < b < s.len() ==> s[a] < s[b],
        0 <= i <= j < s.len(),
    ensures
        s[j] - s[i] >= j - i,
    decreases j - i,
{
    if i < j {
        lemma_increasing_gaps(s, i, j - 1);
    }
}

/// A pool of one worker completes the jobs in the order of their submission:
/// the `k`-th entry of the completion log is the `k`-th job submitted. The one
/// job delivered beyond the log, if there is one, is the next in that order.
/// Once nothing waits or runs and the worker has not failed, the log holds
/// every submitted job.
pub proof fn law_single_worker_completes_in_submission_order<J>(p: PoolView<J>)
    requires
        p.inv(),
        p.size() == 1,
    ensures
        forall|k: int|
            0 <= k < p.completed.len() ==> #[trigger] p.completed[k] == (Completion {
                ticket: k as nat,
                worker: 0,
            }),
        p.workers[0].ticket matches Some(t) ==> t == p.completed.len(),
        p.quiescent() && p.failed() == 0 ==> p.completed.len() == p.submitted().len(),
{
    // The indices in the log increase strictly and stay below the length of
    // the log: the index held, if any, lies above them and is a delivered one.
    let n = p.completed.len() as int;
    let s = Seq::new(p.completed.len(), |k: int| p.completed[k].ticket as int);
    assert(p.worker_ok(0));
    lemma_counts_partition(p.workers);
    assert forall|k: int| 0 <= k < n implies (#[trigger] p.completed[k]).worker == 0 && s[k]
        < n by {
        assert(p.entry_ok(k));
    }
    assert forall|k: int| 0 <= k < n implies #[trigger] p.completed[k] == (Completion {
        ticket: k as nat,
        worker: 0,
    }) by {
        lemma_increasing_gaps(s, 0, k);
        lemma_increasing_gaps(s, k, n - 1);
    }
}

/// No more jobs are in flight than the pool has workers.
pub proof fn law_in_flight_bounded_by_size<J>(p: PoolView<J>)
    ensures
        p.in_flight() <= p.size(),
        p.live_workers() <= p.size(),
{
    lemma_counts_partition(p.workers);
}

/// The events by which the workers `ids` ask for a job, one after the other.
pub open spec fn receives<J>(ids: Seq<nat>) -> Seq<Event<J>> {
    Seq::new(ids.len(), |k: int| Event::Receive(ids[k]))
}

/// Workers that wait take queued jobs side by side: none has to end its job
/// before the next one starts. When as many jobs are queued as workers ask,
/// each of them gets one, in the order of asking, and all these jobs are in
/// flight at once. The other workers are untouched.
pub proof fn law_waiting_workers_run_side_by_side<J>(p: PoolView<J>, ids: Seq<nat>)
    requires
        p.inv(),
        ids.no_duplicates(),
        forall|k: int| 0 <= k < ids.len() ==> p.worker_is(#[trigger] ids[k], WorkerState::Idle),
        ids.len() <= p.queued().len(),
    ensures
        p.admits(receives(ids)),
        p.run(receives(ids)).inv(),
        p.run(receives(ids)).size() == p.size(),
        p.run(receives(ids)).in_flight() == p.in_flight() + ids.len(),
        p.run(receives(ids)).delivered() == p.delivered() + ids.len(),
        forall|k: int|
            0 <= k < ids.len() ==> #[trigger] p.run(receives(ids)).workers[ids[k] as int] == (
            WorkerView {
                id: ids[k],
                state: WorkerState::Executing,
                ticket: Some((p.delivered() + k) as nat),
            }),
        forall|i: int|
            0 <= i < p.size() && !ids.contains(i as nat) ==> #[trigger] p.run(
                receives(ids),
            ).workers[i] == p.workers[i],
    decreases ids.len(),
{
    if ids.len() > 0 {
        // The first worker takes the oldest job, and the others are as they
        // were: what is to show of them holds of the state it leaves.
        let first = ids[0];
        let rest = ids.drop_first();
        let started = p.apply(Event::Receive(first));
        let q = started.run(receives::<J>(rest));
        law_waiting_worker_gets_oldest_job(p, first);
        lemma_step_keeps_inv(p, Event::Receive(first));
        assert forall|k: int| 0 <= k < rest.len() implies started.worker_is(
            #[trigger] rest[k],
            WorkerState::Idle,
        ) by {
            assert(rest[k] == ids[k + 1]);
        }
        law_waiting_workers_run_side_by_side(started, rest);
        assert(receives::<J>(ids).drop_first() =~= receives::<J>(rest));
        assert(p.run(receives(ids)) == q);
        assert forall|k: int| 0 <= k < ids.len() implies #[trigger] q.workers[ids[k] as int] == (
        WorkerView {
            id: ids[k],
            state: WorkerState::Executing,
            ticket: Some((p.delivered() + k) as nat),
        }) by {
            if k > 0 {
                assert(rest[k - 1] == ids[k]);
            }
        }
    }
}

/// A job that fails ends its worker and nothing else: the queue, the
/// completion log and every other worker are as before, and one worker less
/// is live.
pub proof fn law_failure_ends_one_worker_only<J>(p: PoolView<J>, id: nat)
    requires
        p.inv(),
        p.worker_is(id, WorkerState::Executing),
    ensures
        p.apply(Event::Fail(id)).inv(),
        p.apply(Event::Fail(id)).channel == p.channel,
        p.apply(Event::Fail(id)).completed == p.completed,
        p.apply(Event::Fail(id)).workers[id as int].state is Failed,
        forall|j: int|
            0 <= j < p.size() && j != id ==> #[trigger] p.apply(Event::Fail(id)).workers[j]
                == p.workers[j],
        p.apply(Event::Fail(id)).live_workers() == p.live_workers() - 1,
        p.apply(Event::Fail(id)).failed() == p.failed() + 1,
{
    let q = p.apply(Event::Fail(id));
    lemma_step_keeps_inv(p, Event::Fail(id));
    lemma_count_update(p.workers, id as int, q.workers[id as int], WorkerState::Idle);
    lemma_count_update(p.workers, id as int, q.workers[id as int], WorkerState::Executing);
    lemma_count_update(p.workers, id as int, q.workers[id as int], WorkerState::Failed);
}

/// A worker that has ended stays as it is, whatever happens to the pool: it
/// is neither restarted nor replaced, and it takes no further job.
pub proof fn law_ended_worker_never_returns<J>(p: PoolView<J>, events: Seq<Event<J>>, id: nat)
    requires
        p.worker_is(id, WorkerState::Closed) || p.worker_is(id, WorkerState::Failed),
        p.admits(events),
    ensures
        p.run(events).size() == p.size(),
        p.run(events).workers[id as int] == p.workers[id as int],
    decreases events.len(),
{
    if events.len() > 0 {
        law_ended_worker_never_returns(p.apply(events[0]), events.drop_first(), id);
    }
}

/// A job can be submitted exactly while the pool is held and one worker at
/// least is live, and any worker that waits or runs a job is such a worker.
pub proof fn law_one_live_worker_keeps_pool_accepting<J>(p: PoolView<J>, id: nat, job: J)
    requires
        p.worker_is(id, WorkerState::Idle) || p.worker_is(id, WorkerState::Executing),
    ensures
        p.live_workers() > 0,
        p.enabled(Event::Submit(job)) == p.channel.open,
{
    lemma_count_zero(p.workers, WorkerState::Idle);
    lemma_count_zero(p.workers, WorkerState::Executing);
}

/// The events by which the worker `id` takes a job and runs it to its end,
/// `n` times over.
pub open spec fn serve<J>(id: nat, n: nat) -> Seq<Event<J>>
    decreases n,
{
    if n == 0 {
        Seq::empty()
    } else {
        seq![Event::Receive(id), Event::Complete(id)] + serve(id, (n - 1) as nat)
    }
}

/// The completions of the jobs with the `n` submission indices from `first`
/// on, all by the worker `id`, in the order of the indices.
pub open spec fn served(id: nat, first: nat, n: nat) -> Seq<Completion> {
    Seq::new(n, |k: int| Completion { ticket: (first + k) as nat, worker: id })
}

/// One worker that waits is enough to empty the queue, whatever became of the
/// others: it can take and complete every queued job in turn, oldest first,
/// and then waits again with nothing left behind.
pub proof fn law_one_waiting_worker_can_drain_queue<J>(p: PoolView<J>, id: nat)
    requires
        p.inv(),
        p.worker_is(id, WorkerState::Idle),
    ensures
        p.admits(serve(id, p.queued().len())),
        p.run(serve(id, p.queued().len())).queued().len() == 0,
        p.run(serve(id, p.queued().len())).workers == p.workers,
        p.run(serve(id, p.queued().len())).completed == p.completed + served(
            id,
            p.delivered(),
            p.queued().len(),
        ),
    decreases p.queued().len(),
{
    let n = p.queued().len();
    if n > 0 {
        // One job is taken and completed; the worker waits again, and the
        // rest of the queue is drained in the same way.
        let running = p.apply(Event::Receive(id));
        let waiting = running.apply(Event::Complete(id));
        let events = serve::<J>(id, n);
        let rest = serve::<J>(id, (n - 1) as nat);
        assert(p.worker_ok(id as int));
        lemma_step_keeps_inv(p, Event::Receive(id));
        lemma_step_keeps_inv(running, Event::Complete(id));
        assert(waiting.workers =~= p.workers);
        law_one_waiting_worker_can_drain_queue(waiting, id);
        let then = events.drop_first();
        assert(then.drop_first() =~= rest);
        assert(running.admits(then) && running.run(then) == waiting.run(rest));
        assert(waiting.run(rest).completed =~= p.completed + served(id, p.delivered(), n));
    } else {
        assert(p.completed + served(id, p.delivered(), 0) =~= p.completed);
    }
}

/// Releasing the pool takes nothing from the queue and stops no job: the
/// workers go on to take what is queued, oldest first, and a worker that
/// finds the queue empty from then on is told to end. Nothing can be
/// submitted any more.
pub proof fn law_release_leaves_queue_to_workers<J>(p: PoolView<J>, job: J)
    requires
        p.inv(),
    ensures
        p.apply(Event::Release).inv(),
        p.apply(Event::Release).queued() == p.queued(),
        p.apply(Event::Release).workers == p.workers,
        p.apply(Event::Release).completed == p.completed,
        !p.apply(Event::Release).enabled(Event::Submit(job)),
        p.queued().len() > 0 ==> p.apply(Event::Release).channel.next() == p.channel.next(),
        p.queued().len() == 0 ==> p.apply(Event::Release).channel.next() == Dispatch::<J>::Stop,
{
    lemma_step_keeps_inv(p, Event::Release);
}

/// In a released pool without a live worker nothing happens any more: what is
/// still queued is never delivered and never runs.
pub proof fn law_released_pool_without_workers_is_inert<J>(p: PoolView<J>, events: Seq<Event<J>>)
    requires
        !p.channel.open,
        p.live_workers() == 0,
        p.admits(events),
    ensures
        p.run(events) == p,
    decreases events.len(),
{
    if events.len() > 0 {
        // No worker waits and none runs a job, so the one event that can
        // still happen is a second release, which changes nothing.
        lemma_count_zero(p.workers, WorkerState::Idle);
        lemma_count_zero(p.workers, WorkerState::Executing);
        assert(p.apply(events[0]) == p);
        law_released_pool_without_workers_is_inert(p, events.drop_first());
    }
}

} // verus!
