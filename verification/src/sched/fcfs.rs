use vstd::prelude::*;
use vstd::multiset::Multiset;
use std::collections::VecDeque;
use crate::sched::task::{RuntimeTask, TaskState};
use crate::sched::policy::{
    Scheduler, TickAction, PolicyCall, call_effect, after_calls, queued_ids, picked_ids,
};
use crate::sched::model::{SimState, ran};

verus! {

broadcast use vstd::seq_lib::group_to_multiset_ensures;

/// First come, first served: a non-preemptive FIFO of ready tasks.
pub struct FcfsScheduler {
    queue: VecDeque<usize>,
}

impl View for FcfsScheduler {
    type V = Seq<usize>;

    /// The ready queue, front first.
    closed spec fn view(&self) -> Seq<usize> {
        self.queue@
    }
}

impl FcfsScheduler {
    /// An FCFS policy with an empty ready queue.
    pub fn new() -> (s: Self)
        ensures
            s@ == Seq::<usize>::empty(),
            s.wf(),
            s.fresh_at(0),
            s.pool() =~= Multiset::empty(),
    {
        let s = FcfsScheduler { queue: VecDeque::new() };
        proof {
            broadcast use vstd::multiset::group_multiset_axioms;
            assert(s.queue@ =~= Seq::<usize>::empty());
        }
        s
    }
}

impl Scheduler for FcfsScheduler {
    closed spec fn pool(&self) -> Multiset<usize> {
        self.queue@.to_multiset()
    }

    closed spec fn wf(&self) -> bool {
        true
    }

    closed spec fn fresh_at(&self, now: u64) -> bool {
        true
    }

    proof fn lemma_fresh_later(&self, now: u64, later: u64) {
    }

    open spec fn label(&self) -> Seq<char> {
        "FCFS"@
    }

    open spec fn model_enqueue(v: Seq<usize>, task_id: usize, tasks: Seq<RuntimeTask>) -> (
        Seq<usize>,
        Seq<RuntimeTask>,
    ) {
        (v.push(task_id), tasks)
    }

    open spec fn model_pick(v: Seq<usize>, tasks: Seq<RuntimeTask>) -> (
        Seq<usize>,
        Seq<RuntimeTask>,
        Option<usize>,
    ) {
        if v.len() == 0 {
            (v, tasks, None)
        } else {
            (v.drop_first(), tasks, Some(v[0]))
        }
    }

    open spec fn model_tick(v: Seq<usize>, running: usize, tasks: Seq<RuntimeTask>, now: u64) -> (
        Seq<usize>,
        Seq<RuntimeTask>,
        TickAction,
    ) {
        (v, tasks, TickAction::Continue)
    }

    open spec fn model_block(v: Seq<usize>, task_id: usize, tasks: Seq<RuntimeTask>) -> (
        Seq<usize>,
        Seq<RuntimeTask>,
    ) {
        (v, tasks)
    }

    open spec fn model_wakeup(v: Seq<usize>, task_id: usize, tasks: Seq<RuntimeTask>) -> (
        Seq<usize>,
        Seq<RuntimeTask>,
    ) {
        (v.push(task_id), tasks)
    }

    proof fn lemma_models_policy_only(v: Self::V, x: usize, tasks: Seq<RuntimeTask>, now: u64) {
    }

    open spec fn model_ready_len(v: Seq<usize>) -> nat {
        v.len()
    }

    fn name(&self) -> (r: &'static str) {
        "FCFS"
    }

    /// New ready tasks go to the back of the queue.
    fn enqueue(&mut self, task_id: usize, tasks: &mut Vec<RuntimeTask>, now: u64)
        ensures
            final(self)@ == old(self)@.push(task_id),
            final(tasks)@ == old(tasks)@,
    {
        self.queue.push_back(task_id);
    }

    /// The task at the front of the queue runs next.
    fn pick_next(&mut self, tasks: &mut Vec<RuntimeTask>, now: u64) -> (next: Option<usize>)
        ensures
            next == (if old(self)@.len() == 0 { None } else { Some(old(self)@[0]) }),
            final(self)@ == (if old(self)@.len() == 0 { old(self)@ } else { old(self)@.drop_first() }),
            final(tasks)@ == old(tasks)@,
    {
        let ghost q = self.queue@;
        let next = self.queue.pop_front();
        proof {
            if q.len() > 0 {
                assert(q.subrange(1, q.len() as int) =~= q.remove(0));
                assert(q.drop_first() =~= q.remove(0));
            }
        }
        next
    }

    /// FCFS never preempts.
    fn on_tick(&mut self, running: usize, tasks: &mut Vec<RuntimeTask>, now: u64) -> (action:
        TickAction)
        ensures
            action == TickAction::Continue,
            final(self)@ == old(self)@,
            final(tasks)@ == old(tasks)@,
    {
        TickAction::Continue
    }

    fn on_block(&mut self, task_id: usize, tasks: &mut Vec<RuntimeTask>, now: u64)
        ensures
            final(self)@ == old(self)@,
            final(tasks)@ == old(tasks)@,
    {
    }

    /// A woken task queues at the back like a new one.
    fn on_wakeup(&mut self, task_id: usize, tasks: &mut Vec<RuntimeTask>, now: u64)
        ensures
            final(self)@ == old(self)@.push(task_id),
            final(tasks)@ == old(tasks)@,
    {
        self.enqueue(task_id, tasks, now);
    }

    fn ready_len(&self) -> (len: usize)
        ensures
            len == self@.len(),
    {
        self.queue.len()
    }
}


/// The queue after any series of calls from an empty queue: what was handed
/// in as ready and not yet picked, in the order it was handed in; the picks so
/// far are the first ids handed in; the table is untouched.
pub proof fn lemma_fcfs_queue(tasks: Seq<RuntimeTask>, calls: Seq<PolicyCall>)
    ensures
        ({
            let x = queued_ids(calls);
            let y = picked_ids::<FcfsScheduler>(Seq::empty(), tasks, calls);
            let s = after_calls::<FcfsScheduler>(Seq::empty(), tasks, calls);
            &&& y.len() <= x.len()
            &&& y == x.take(y.len() as int)
            &&& s.0 == x.skip(y.len() as int)
            &&& s.1 == tasks
        }),
    decreases calls.len(),
{
    if calls.len() > 0 {
        let c = calls.drop_last();
        lemma_fcfs_queue(tasks, c);
        let x = queued_ids(c);
        let y = picked_ids::<FcfsScheduler>(Seq::empty(), tasks, c);
        match calls.last() {
            PolicyCall::Enqueue(v) => {
                assert(x.push(v).take(y.len() as int) =~= x.take(y.len() as int));
                assert(x.push(v).skip(y.len() as int) =~= x.skip(y.len() as int).push(v));
            },
            PolicyCall::Wakeup(v) => {
                assert(x.push(v).take(y.len() as int) =~= x.take(y.len() as int));
                assert(x.push(v).skip(y.len() as int) =~= x.skip(y.len() as int).push(v));
            },
            PolicyCall::Pick => {
                if y.len() < x.len() {
                    assert(y.push(x[y.len() as int]) =~= x.take(y.len() as int + 1));
                    assert(x.skip(y.len() as int).drop_first() =~= x.skip(y.len() as int + 1));
                }
            },
            _ => {},
        }
    }
}

/// First come, first served, over any series of calls from a new policy:
/// every pick returns the earliest id handed in as ready (by `enqueue` or
/// `on_wakeup`) and not yet picked, and returns `None` exactly when every id
/// handed in has been picked; every tick lets the running task continue; no
/// call changes the task table; and the ready count is the number of ids
/// handed in less the number picked.
pub proof fn lemma_fcfs_first_in_first_out(tasks: Seq<RuntimeTask>, calls: Seq<PolicyCall>)
    ensures
        forall|k: int|
            0 <= k < calls.len() ==> {
                let before = after_calls::<FcfsScheduler>(Seq::empty(), tasks, calls.take(k));
                let x = queued_ids(calls.take(k));
                let y = picked_ids::<FcfsScheduler>(Seq::empty(), tasks, calls.take(k));
                let r = call_effect::<FcfsScheduler>(before.0, before.1, #[trigger] calls[k]);
                &&& r.1 == tasks
                &&& calls[k] is Pick ==> r.2 == (if y.len() < x.len() {
                    Some(x[y.len() as int])
                } else {
                    None
                })
                &&& r.3 == TickAction::Continue
            },
        ({
            let x = queued_ids(calls);
            let y = picked_ids::<FcfsScheduler>(Seq::empty(), tasks, calls);
            let s = after_calls::<FcfsScheduler>(Seq::empty(), tasks, calls);
            &&& y == x.take(y.len() as int)
            &&& s.1 == tasks
            &&& FcfsScheduler::model_ready_len(s.0) == x.len() - y.len()
        }),
{
    lemma_fcfs_queue(tasks, calls);
    assert forall|k: int| 0 <= k < calls.len() implies {
        let before = after_calls::<FcfsScheduler>(Seq::empty(), tasks, calls.take(k));
        let x = queued_ids(calls.take(k));
        let y = picked_ids::<FcfsScheduler>(Seq::empty(), tasks, calls.take(k));
        let r = call_effect::<FcfsScheduler>(before.0, before.1, #[trigger] calls[k]);
        &&& r.1 == tasks
        &&& calls[k] is Pick ==> r.2 == (if y.len() < x.len() {
            Some(x[y.len() as int])
        } else {
            None
        })
        &&& r.3 == TickAction::Continue
    } by {
        lemma_fcfs_queue(tasks, calls.take(k));
    }
}

/// Non-preemptive: in a simulation tick, the running task leaves the CPU
/// only when it finishes or blocks for I/O.
pub proof fn lemma_fcfs_never_preempts(st: SimState<Seq<usize>>, now: u64, tid: usize)
    requires
        st.running == Some(tid),
        tid < st.tasks.len(),
    ensures
        ran::<FcfsScheduler>(st, now).running.is_none() ==> ran::<FcfsScheduler>(st, now).tasks[tid as int].state
            == TaskState::Done || ran::<FcfsScheduler>(st, now).tasks[tid as int].state == TaskState::Blocked,
{
}

} // verus!
