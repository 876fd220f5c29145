use vstd::prelude::*;
use vstd::multiset::Multiset;
use crate::sched::task::{RuntimeTask, MAX_TICKS, policy_only, levels_ok};

verus! {

/// What a policy asks for after a running task has used one more tick.
#[derive(Clone, Copy, Debug, PartialEq, Eq, Structural)]
pub enum TickAction {
    Continue,
    Preempt,
}

/// A call on a policy, as laws about series of calls name them.
pub enum PolicyCall {
    /// `enqueue(id)`.
    Enqueue(usize),
    /// `on_wakeup(id)`.
    Wakeup(usize),
    /// `pick_next()`.
    Pick,
    /// `on_tick(running)` at the given tick.
    Tick(usize, u64),
    /// `on_block(id)`.
    Block(usize),
}

/// The effect of one call from view `v` and table `tasks`: the new view, the
/// new table, the id a pick returned (`None` for other calls) and the decision
/// a tick returned (`Continue` for other calls).
pub open spec fn call_effect<S: Scheduler>(v: S::V, tasks: Seq<RuntimeTask>, c: PolicyCall) -> (
    S::V,
    Seq<RuntimeTask>,
    Option<usize>,
    TickAction,
) {
    match c {
        PolicyCall::Enqueue(x) => {
            let r = S::model_enqueue(v, x, tasks);
            (r.0, r.1, None, TickAction::Continue)
        },
        PolicyCall::Wakeup(x) => {
            let r = S::model_wakeup(v, x, tasks);
            (r.0, r.1, None, TickAction::Continue)
        },
        PolicyCall::Pick => {
            let r = S::model_pick(v, tasks);
            (r.0, r.1, r.2, TickAction::Continue)
        },
        PolicyCall::Tick(x, now) => {
            let r = S::model_tick(v, x, tasks, now);
            (r.0, r.1, None, r.2)
        },
        PolicyCall::Block(x) => {
            let r = S::model_block(v, x, tasks);
            (r.0, r.1, None, TickAction::Continue)
        },
    }
}

/// The view and table after the calls `calls`, made in order.
pub open spec fn after_calls<S: Scheduler>(v: S::V, tasks: Seq<RuntimeTask>, calls: Seq<PolicyCall>) -> (
    S::V,
    Seq<RuntimeTask>,
)
    decreases calls.len(),
{
    if calls.len() == 0 {
        (v, tasks)
    } else {
        let p = after_calls::<S>(v, tasks, calls.drop_last());
        let r = call_effect::<S>(p.0, p.1, calls.last());
        (r.0, r.1)
    }
}

/// The ids handed to the policy as ready (by `enqueue` and `on_wakeup`), in call order.
pub open spec fn queued_ids(calls: Seq<PolicyCall>) -> Seq<usize>
    decreases calls.len(),
{
    if calls.len() == 0 {
        Seq::empty()
    } else {
        let q = queued_ids(calls.drop_last());
        match calls.last() {
            PolicyCall::Enqueue(x) => q.push(x),
            PolicyCall::Wakeup(x) => q.push(x),
            _ => q,
        }
    }
}

/// The ids the picks among the calls returned, in order.
pub open spec fn picked_ids<S: Scheduler>(v: S::V, tasks: Seq<RuntimeTask>, calls: Seq<PolicyCall>) -> Seq<
    usize,
>
    decreases calls.len(),
{
    if calls.len() == 0 {
        Seq::empty()
    } else {
        let y = picked_ids::<S>(v, tasks, calls.drop_last());
        let p = after_calls::<S>(v, tasks, calls.drop_last());
        match call_effect::<S>(p.0, p.1, calls.last()).2 {
            Some(t) => y.push(t),
            None => y,
        }
    }
}

/// Every task id occurs at most once in `pool`, and only ids below `n` occur.
pub open spec fn distinct_below(pool: Multiset<usize>, n: nat) -> bool {
    forall|t: usize| #[trigger] pool.count(t) <= (if t < n { 1nat } else { 0nat })
}

/// A pool of distinct ids below `n` holds at most `n` ids.
pub proof fn lemma_distinct_below_len(pool: Multiset<usize>, n: nat)
    requires
        distinct_below(pool, n),
    ensures
        pool.len() <= n,
    decreases n,
{
    broadcast use vstd::multiset::group_multiset_axioms;
    if n == 0 {
        assert(pool =~= Multiset::empty());
    } else {
        let top: usize = (n - 1) as usize;
        if (n - 1) <= usize::MAX as nat {
            let rest = pool.remove(top);
            assert(distinct_below(rest, (n - 1) as nat)) by {
                assert forall|t: usize| #[trigger] rest.count(t) <= (if t < (n - 1) as nat { 1nat } else { 0nat }) by {
                    assert(pool.count(t) <= (if t < n { 1nat } else { 0nat }));
                }
            }
            lemma_distinct_below_len(rest, (n - 1) as nat);
            if pool.count(top) > 0 {
                assert(pool =~= rest.insert(top));
            } else {
                assert(pool =~= rest);
            }
        } else {
            // every usize is below n - 1, so the bound for n - 1 already holds
            assert(distinct_below(pool, (n - 1) as nat)) by {
                assert forall|t: usize| #[trigger] pool.count(t) <= (if t < (n - 1) as nat { 1nat } else { 0nat }) by {
                    assert(pool.count(t) <= (if t < n { 1nat } else { 0nat }));
                }
            }
            lemma_distinct_below_len(pool, (n - 1) as nat);
        }
    }
}

/// The common interface of the scheduling policies.
///
/// A policy keeps a pool of ready task ids. `enqueue` and `on_wakeup` add a
/// task to the pool, `pick_next` takes one out (or reports that the pool is
/// empty), and `on_tick` / `on_block` leave the pool's contents alone. A
/// policy may change only the policy-owned fields of the task table (the
/// MLFQ level and the virtual runtime).
///
/// Each operation is a function of the policy's view and its arguments: the
/// `model_*` functions give the view and task table it leaves (and what it
/// returns), so a run of the simulator is determined by the views alone.
pub trait Scheduler: Sized + View {
    /// The task ids waiting in the policy's ready structures, with multiplicity.
    spec fn pool(&self) -> Multiset<usize>;

    /// Internal consistency of the policy's state.
    spec fn wf(&self) -> bool;

    /// Consistency of the policy's state with the current tick.
    spec fn fresh_at(&self, now: u64) -> bool;

    /// Consistency with a tick carries over to every later tick.
    proof fn lemma_fresh_later(&self, now: u64, later: u64)
        requires
            self.fresh_at(now),
            now <= later,
        ensures
            self.fresh_at(later),
    ;

    /// The policy's display name.
    spec fn label(&self) -> Seq<char>;

    /// View and task table after `enqueue(task_id)`.
    spec fn model_enqueue(v: Self::V, task_id: usize, tasks: Seq<RuntimeTask>) -> (
        Self::V,
        Seq<RuntimeTask>,
    );

    /// View, task table and chosen task after `pick_next`.
    spec fn model_pick(v: Self::V, tasks: Seq<RuntimeTask>) -> (
        Self::V,
        Seq<RuntimeTask>,
        Option<usize>,
    );

    /// View, task table and decision after `on_tick(running)` at tick `now`.
    spec fn model_tick(v: Self::V, running: usize, tasks: Seq<RuntimeTask>, now: u64) -> (
        Self::V,
        Seq<RuntimeTask>,
        TickAction,
    );

    /// View and task table after `on_block(task_id)`.
    spec fn model_block(v: Self::V, task_id: usize, tasks: Seq<RuntimeTask>) -> (
        Self::V,
        Seq<RuntimeTask>,
    );

    /// View and task table after `on_wakeup(task_id)`.
    spec fn model_wakeup(v: Self::V, task_id: usize, tasks: Seq<RuntimeTask>) -> (
        Self::V,
        Seq<RuntimeTask>,
    );

    /// What `ready_len` reports for a view.
    spec fn model_ready_len(v: Self::V) -> nat;

    /// Queueing, waking, ticking and blocking a task below the table's length
    /// change only the policy-owned fields of the task table.
    proof fn lemma_models_policy_only(v: Self::V, x: usize, tasks: Seq<RuntimeTask>, now: u64)
        requires
            x < tasks.len(),
        ensures
            policy_only(tasks, Self::model_enqueue(v, x, tasks).1),
            policy_only(tasks, Self::model_wakeup(v, x, tasks).1),
            policy_only(tasks, Self::model_tick(v, x, tasks, now).1),
            policy_only(tasks, Self::model_block(v, x, tasks).1),
    ;

    /// Display name of the policy.
    fn name(&self) -> (r: &'static str)
        ensures
            r@ == self.label(),
    ;

    /// A task became ready: add it to the pool.
    fn enqueue(&mut self, task_id: usize, tasks: &mut Vec<RuntimeTask>, now: u64)
        requires
            old(self).wf(),
            old(self).fresh_at(now),
            task_id < old(tasks).len(),
            distinct_below(old(self).pool().insert(task_id), old(tasks).len() as nat),
            levels_ok(old(tasks)@),
        ensures
            final(self).wf(),
            final(self).fresh_at(now),
            final(self).pool() == old(self).pool().insert(task_id),
            policy_only(old(tasks)@, final(tasks)@),
            levels_ok(final(tasks)@),
            final(self)@ == Self::model_enqueue(old(self)@, task_id, old(tasks)@).0,
            final(tasks)@ == Self::model_enqueue(old(self)@, task_id, old(tasks)@).1,
    ;

    /// The CPU is idle: take the next task to run out of the pool.
    fn pick_next(&mut self, tasks: &mut Vec<RuntimeTask>, now: u64) -> (next: Option<usize>)
        requires
            old(self).wf(),
            old(self).fresh_at(now),
            distinct_below(old(self).pool(), old(tasks).len() as nat),
            levels_ok(old(tasks)@),
        ensures
            final(self).wf(),
            final(self).fresh_at(now),
            match next {
                Some(t) => old(self).pool().count(t) > 0 && final(self).pool() == old(
                    self,
                ).pool().remove(t),
                None => old(self).pool().len() == 0 && final(self).pool() == old(self).pool(),
            },
            policy_only(old(tasks)@, final(tasks)@),
            levels_ok(final(tasks)@),
            final(self)@ == Self::model_pick(old(self)@, old(tasks)@).0,
            final(tasks)@ == Self::model_pick(old(self)@, old(tasks)@).1,
            next == Self::model_pick(old(self)@, old(tasks)@).2,
    ;

    /// The running task used one more tick: decide whether it keeps the CPU.
    fn on_tick(&mut self, running: usize, tasks: &mut Vec<RuntimeTask>, now: u64) -> (action:
        TickAction)
        requires
            old(self).wf(),
            old(self).fresh_at(now),
            now < MAX_TICKS,
            running < old(tasks).len(),
            distinct_below(old(self).pool(), old(tasks).len() as nat),
            levels_ok(old(tasks)@),
        ensures
            final(self).wf(),
            final(self).fresh_at((now + 1) as u64),
            final(self).pool() == old(self).pool(),
            policy_only(old(tasks)@, final(tasks)@),
            levels_ok(final(tasks)@),
            final(self)@ == Self::model_tick(old(self)@, running, old(tasks)@, now).0,
            final(tasks)@ == Self::model_tick(old(self)@, running, old(tasks)@, now).1,
            action == Self::model_tick(old(self)@, running, old(tasks)@, now).2,
    ;

    /// A task blocked for I/O.
    fn on_block(&mut self, task_id: usize, tasks: &mut Vec<RuntimeTask>, now: u64)
        requires
            old(self).wf(),
            old(self).fresh_at(now),
            levels_ok(old(tasks)@),
        ensures
            final(self).wf(),
            final(self).fresh_at(now),
            final(self).pool() == old(self).pool(),
            policy_only(old(tasks)@, final(tasks)@),
            levels_ok(final(tasks)@),
            final(self)@ == Self::model_block(old(self)@, task_id, old(tasks)@).0,
            final(tasks)@ == Self::model_block(old(self)@, task_id, old(tasks)@).1,
    ;

    /// A blocked task woke up: it becomes ready again.
    fn on_wakeup(&mut self, task_id: usize, tasks: &mut Vec<RuntimeTask>, now: u64)
        requires
            old(self).wf(),
            old(self).fresh_at(now),
            task_id < old(tasks).len(),
            distinct_below(old(self).pool().insert(task_id), old(tasks).len() as nat),
            levels_ok(old(tasks)@),
        ensures
            final(self).wf(),
            final(self).fresh_at(now),
            final(self).pool() == old(self).pool().insert(task_id),
            policy_only(old(tasks)@, final(tasks)@),
            levels_ok(final(tasks)@),
            final(self)@ == Self::model_wakeup(old(self)@, task_id, old(tasks)@).0,
            final(tasks)@ == Self::model_wakeup(old(self)@, task_id, old(tasks)@).1,
    ;

    /// Number of tasks the policy holds as ready.
    fn ready_len(&self) -> (len: usize)
        requires
            self.wf(),
        ensures
            len == self.pool().len(),
            len == Self::model_ready_len(self@),
    ;
}

} // verus!
