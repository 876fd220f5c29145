use vstd::prelude::*;
use vstd::multiset::Multiset;
use crate::sched::task::{RuntimeTask, TaskState};
use crate::sched::policy::{Scheduler, TickAction, PolicyCall, after_calls};
use crate::sched::model::{SimState, ran};
use crate::sched::pool_lemmas::{lemma_swap_remove_contents, lemma_elements_below};

verus! {

broadcast use vstd::seq_lib::group_to_multiset_ensures;

/// `k` is the first position of `ready` whose task has the least remaining CPU demand.
pub open spec fn first_shortest(ready: Seq<usize>, tasks: Seq<RuntimeTask>, k: int) -> bool {
    &&& 0 <= k < ready.len()
    &&& forall|j: int|
        0 <= j < ready.len() ==> tasks[ready[k] as int].remaining_cpu <= #[trigger] tasks[ready[j] as int].remaining_cpu
    &&& forall|j: int|
        0 <= j < k ==> tasks[ready[k] as int].remaining_cpu < #[trigger] tasks[ready[j] as int].remaining_cpu
}

/// The first position of `ready` whose task has the least remaining CPU demand.
pub open spec fn shortest_index(ready: Seq<usize>, tasks: Seq<RuntimeTask>) -> int {
    choose|k: int| first_shortest(ready, tasks, k)
}

/// At most one position is the first with the least remaining CPU demand.
pub proof fn lemma_first_shortest_unique(ready: Seq<usize>, tasks: Seq<RuntimeTask>, a: int, b: int)
    requires
        first_shortest(ready, tasks, a),
        first_shortest(ready, tasks, b),
    ensures
        a == b,
{
    if a < b {
        assert(tasks[ready[b] as int].remaining_cpu < tasks[ready[a] as int].remaining_cpu);
    } else if b < a {
        assert(tasks[ready[a] as int].remaining_cpu < tasks[ready[b] as int].remaining_cpu);
    }
}

/// Shortest job first, non-preemptive: the ready task with the least remaining
/// CPU demand runs next.
pub struct SjfScheduler {
    ready: Vec<usize>,
}

impl View for SjfScheduler {
    type V = Seq<usize>;

    /// The ready set, in insertion order as rearranged by removals.
    closed spec fn view(&self) -> Seq<usize> {
        self.ready@
    }
}

impl SjfScheduler {
    /// An SJF policy with no ready task.
    pub fn new() -> (s: Self)
        ensures
            s@ == Seq::<usize>::empty(),
            s.wf(),
            s.fresh_at(0),
            s.pool() =~= Multiset::empty(),
    {
        let s = SjfScheduler { ready: Vec::new() };
        proof {
            broadcast use vstd::multiset::group_multiset_axioms;
            assert(s.ready@ =~= Seq::<usize>::empty());
        }
        s
    }
}

impl Scheduler for SjfScheduler {
    closed spec fn pool(&self) -> Multiset<usize> {
        self.ready@.to_multiset()
    }

    closed spec fn wf(&self) -> bool {
        true
    }

    closed spec fn fresh_at(&self, now: u64) -> bool {
        true
    }

    proof fn lemma_fresh_later(&self, now: u64, later: u64) {
    }

    open spec fn label(&self) -> Seq<char> {
        "SJF"@
    }

    open spec fn model_enqueue(v: Seq<usize>, task_id: usize, tasks: Seq<RuntimeTask>) -> (
        Seq<usize>,
        Seq<RuntimeTask>,
    ) {
        (v.push(task_id), tasks)
    }

    open spec fn model_pick(v: Seq<usize>, tasks: Seq<RuntimeTask>) -> (
        Seq<usize>,
        Seq<RuntimeTask>,
        Option<usize>,
    ) {
        if v.len() == 0 {
            (v, tasks, None)
        } else {
            let k = shortest_index(v, tasks);
            (v.update(k, v.last()).drop_last(), tasks, Some(v[k]))
        }
    }

    open spec fn model_tick(v: Seq<usize>, running: usize, tasks: Seq<RuntimeTask>, now: u64) -> (
        Seq<usize>,
        Seq<RuntimeTask>,
        TickAction,
    ) {
        (v, tasks, TickAction::Continue)
    }

    open spec fn model_block(v: Seq<usize>, task_id: usize, tasks: Seq<RuntimeTask>) -> (
        Seq<usize>,
        Seq<RuntimeTask>,
    ) {
        (v, tasks)
    }

    open spec fn model_wakeup(v: Seq<usize>, task_id: usize, tasks: Seq<RuntimeTask>) -> (
        Seq<usize>,
        Seq<RuntimeTask>,
    ) {
        (v.push(task_id), tasks)
    }

    proof fn lemma_models_policy_only(v: Self::V, x: usize, tasks: Seq<RuntimeTask>, now: u64) {
    }

    open spec fn model_ready_len(v: Seq<usize>) -> nat {
        v.len()
    }

    fn name(&self) -> (r: &'static str) {
        "SJF"
    }

    /// A ready task joins the ready set; the choice happens in `pick_next`.
    fn enqueue(&mut self, task_id: usize, tasks: &mut Vec<RuntimeTask>, now: u64)
        ensures
            final(self)@ == old(self)@.push(task_id),
            final(tasks)@ == old(tasks)@,
    {
        self.ready.push(task_id);
    }

    /// Takes out the first ready task with the least remaining CPU demand;
    /// the last ready task moves into its place.
    fn pick_next(&mut self, tasks: &mut Vec<RuntimeTask>, now: u64) -> (next: Option<usize>)
        ensures
            old(self)@.len() == 0 ==> next.is_none() && final(self)@ == old(self)@,
            old(self)@.len() > 0 ==> exists|k: int|
                #![trigger old(self)@[k]]
                first_shortest(old(self)@, old(tasks)@, k) && next == Some(old(self)@[k])
                    && final(self)@ == old(self)@.update(k, old(self)@.last()).drop_last(),
            final(tasks)@ == old(tasks)@,
    {
        if self.ready.len() == 0 {
            return None;
        }
        proof {
            lemma_elements_below(self.ready@, tasks.len() as nat);
        }
        let mut best_idx: usize = 0;
        let mut best_remain: u64 = tasks[self.ready[0]].remaining_cpu;
        let mut i: usize = 1;
        while i < self.ready.len()
            invariant
                1 <= i <= self.ready@.len(),
                best_idx < i,
                forall|j: int| 0 <= j < self.ready@.len() ==> #[trigger] self.ready@[j] < tasks@.len(),
                best_remain == tasks@[self.ready@[best_idx as int] as int].remaining_cpu,
                forall|j: int| 0 <= j < i ==> best_remain <= #[trigger] tasks@[self.ready@[j] as int].remaining_cpu,
                forall|j: int| 0 <= j < best_idx ==> best_remain < #[trigger] tasks@[self.ready@[j] as int].remaining_cpu,
            decreases self.ready@.len() - i,
        {
            let tid = self.ready[i];
            let remain = tasks[tid].remaining_cpu;
            if remain < best_remain {
                best_remain = remain;
                best_idx = i;
            }
            i += 1;
        }
        proof {
            lemma_swap_remove_contents(self.ready@, best_idx as int);
            assert(first_shortest(self.ready@, tasks@, best_idx as int));
            lemma_first_shortest_unique(
                self.ready@,
                tasks@,
                best_idx as int,
                shortest_index(self.ready@, tasks@),
            );
        }
        Some(self.ready.swap_remove(best_idx))
    }

    /// SJF never preempts.
    fn on_tick(&mut self, running: usize, tasks: &mut Vec<RuntimeTask>, now: u64) -> (action:
        TickAction)
        ensures
            action == TickAction::Continue,
            final(self)@ == old(self)@,
            final(tasks)@ == old(tasks)@,
    {
        TickAction::Continue
    }

    fn on_block(&mut self, task_id: usize, tasks: &mut Vec<RuntimeTask>, now: u64)
        ensures
            final(self)@ == old(self)@,
            final(tasks)@ == old(tasks)@,
    {
    }

    fn on_wakeup(&mut self, task_id: usize, tasks: &mut Vec<RuntimeTask>, now: u64)
        ensures
            final(self)@ == old(self)@.push(task_id),
            final(tasks)@ == old(tasks)@,
    {
        self.enqueue(task_id, tasks, now);
    }

    fn ready_len(&self) -> (len: usize)
        ensures
            len == self@.len(),
    {
        self.ready.len()
    }
}

/// The first position of least remaining demand among the first `m` ready tasks.
pub open spec fn shortest_in_prefix(ready: Seq<usize>, tasks: Seq<RuntimeTask>, m: int) -> int
    decreases m,
{
    if m <= 1 {
        0
    } else {
        let k = shortest_in_prefix(ready, tasks, m - 1);
        if tasks[ready[m - 1] as int].remaining_cpu < tasks[ready[k] as int].remaining_cpu {
            m - 1
        } else {
            k
        }
    }
}

/// A non-empty ready set has a first position of least remaining demand.
pub proof fn lemma_first_shortest_exists(ready: Seq<usize>, tasks: Seq<RuntimeTask>, m: int)
    requires
        1 <= m <= ready.len(),
    ensures
        first_shortest(ready.subrange(0, m), tasks, shortest_in_prefix(ready, tasks, m)),
    decreases m,
{
    let p = ready.subrange(0, m);
    if m > 1 {
        lemma_first_shortest_exists(ready, tasks, m - 1);
        let q = ready.subrange(0, m - 1);
        assert forall|j: int| 0 <= j < m - 1 implies p[j] == q[j] by {}
    }
}

/// Shortest job first: a pick from a non-empty ready set takes the first
/// ready task with the least remaining demand, out of the set, and leaves the
/// task table alone.
pub proof fn lemma_sjf_pick(v: Seq<usize>, tasks: Seq<RuntimeTask>)
    requires
        v.len() > 0,
    ensures
        first_shortest(v, tasks, shortest_index(v, tasks)),
        SjfScheduler::model_pick(v, tasks).2 == Some(v[shortest_index(v, tasks)]),
        SjfScheduler::model_pick(v, tasks).0.to_multiset() == v.to_multiset().remove(
            v[shortest_index(v, tasks)],
        ),
        SjfScheduler::model_pick(v, tasks).0.len() == v.len() - 1,
        SjfScheduler::model_pick(v, tasks).1 == tasks,
{
    lemma_first_shortest_exists(v, tasks, v.len() as int);
    assert(v.subrange(0, v.len() as int) =~= v);
    lemma_swap_remove_contents(v, shortest_index(v, tasks));
}

/// What `k` picks in a row give, the task table left as it is.
pub open spec fn sjf_picks(v: Seq<usize>, tasks: Seq<RuntimeTask>, k: nat) -> Seq<Option<usize>>
    decreases k,
{
    if k == 0 {
        Seq::empty()
    } else {
        let r = SjfScheduler::model_pick(v, tasks);
        seq![r.2] + sjf_picks(r.0, tasks, (k - 1) as nat)
    }
}

/// The ids the first `k` of `picks` returned.
pub open spec fn picked_prefix(picks: Seq<Option<usize>>, k: int) -> Seq<usize> {
    picks.take(k).map_values(|o: Option<usize>| o.unwrap())
}

/// Draining a ready set: as many picks as there are ready tasks return each
/// of them once, in order of non-decreasing remaining demand, and one more
/// pick returns `None`.
pub proof fn lemma_sjf_drain(v: Seq<usize>, tasks: Seq<RuntimeTask>)
    ensures
        ({
            let p = sjf_picks(v, tasks, v.len() + 1);
            &&& p.len() == v.len() + 1
            &&& forall|i: int| 0 <= i < v.len() ==> (#[trigger] p[i]) is Some
            &&& p[v.len() as int] is None
            &&& picked_prefix(p, v.len() as int).to_multiset() == v.to_multiset()
            &&& forall|i: int, j: int|
                0 <= i <= j < v.len() ==> tasks[(#[trigger] p[i]).unwrap() as int].remaining_cpu
                    <= tasks[(#[trigger] p[j]).unwrap() as int].remaining_cpu
        }),
    decreases v.len(),
{
    broadcast use vstd::multiset::group_multiset_axioms;
    broadcast use vstd::seq_lib::lemma_multiset_commutative;

    let n = v.len() as int;
    let p = sjf_picks(v, tasks, v.len() + 1);
    if n == 0 {
        assert(sjf_picks(v, tasks, 0) =~= Seq::<Option<usize>>::empty());
        assert(p =~= seq![None]);
        assert(picked_prefix(p, 0) =~= Seq::<usize>::empty());
    } else {
        lemma_sjf_pick(v, tasks);
        let k = shortest_index(v, tasks);
        let y = v[k];
        let v1 = SjfScheduler::model_pick(v, tasks).0;
        lemma_sjf_drain(v1, tasks);
        let q = sjf_picks(v1, tasks, v1.len() + 1);
        assert(p =~= seq![Some(y)] + q);
        assert(picked_prefix(p, n) =~= seq![y] + picked_prefix(q, n - 1));
        assert(seq![y].to_multiset() =~= Multiset::empty().insert(y));
        assert(v.to_multiset().count(y) > 0) by {
            assert(v.contains(y));
        }
        assert(picked_prefix(p, n).to_multiset() =~= v.to_multiset());
        assert forall|i: int, j: int|
            0 <= i <= j < v.len() implies tasks[(#[trigger] p[i]).unwrap() as int].remaining_cpu
                <= tasks[(#[trigger] p[j]).unwrap() as int].remaining_cpu by {
            if i > 0 {
                assert(p[i] == q[i - 1] && p[j] == q[j - 1]);
            } else {
                let z = p[j].unwrap();
                if j > 0 {
                    assert(p[j] == q[j - 1]);
                    assert(picked_prefix(q, n - 1)[j - 1] == z);
                    assert(picked_prefix(q, n - 1).contains(z));
                    assert(v1.to_multiset().count(z) > 0);
                    assert(v.to_multiset().count(z) > 0);
                    assert(v.contains(z));
                    let w = choose|w: int| 0 <= w < v.len() && v[w] == z;
                    assert(tasks[v[k] as int].remaining_cpu <= tasks[v[w] as int].remaining_cpu);
                }
            }
        }
    }
}

/// Shortest job first from a new policy: when ids `xs` are queued and then
/// picked with the task table unchanged, the first `xs.len()` picks return
/// the queued ids, each once, in order of non-decreasing remaining demand; the
/// next pick returns `None`; and no call changes the task table.
pub proof fn lemma_sjf_shortest_first(tasks: Seq<RuntimeTask>, xs: Seq<usize>)
    ensures
        ({
            let s = after_calls::<SjfScheduler>(
                Seq::empty(),
                tasks,
                xs.map_values(|x: usize| PolicyCall::Enqueue(x)),
            );
            let p = sjf_picks(s.0, tasks, xs.len() + 1);
            &&& s.1 == tasks
            &&& forall|i: int| 0 <= i < xs.len() ==> (#[trigger] p[i]) is Some
            &&& p[xs.len() as int] is None
            &&& picked_prefix(p, xs.len() as int).to_multiset() == xs.to_multiset()
            &&& forall|i: int, j: int|
                0 <= i <= j < xs.len() ==> tasks[(#[trigger] p[i]).unwrap() as int].remaining_cpu
                    <= tasks[(#[trigger] p[j]).unwrap() as int].remaining_cpu
        }),
{
    lemma_sjf_enqueued(tasks, xs);
    lemma_sjf_drain(xs, tasks);
}

/// Queueing ids on a new policy puts exactly them in its ready set, in order.
pub proof fn lemma_sjf_enqueued(tasks: Seq<RuntimeTask>, xs: Seq<usize>)
    ensures
        after_calls::<SjfScheduler>(
            Seq::empty(),
            tasks,
            xs.map_values(|x: usize| PolicyCall::Enqueue(x)),
        ) == (xs, tasks),
    decreases xs.len(),
{
    if xs.len() > 0 {
        let c = xs.map_values(|x: usize| PolicyCall::Enqueue(x));
        assert(c.drop_last() =~= xs.drop_last().map_values(|x: usize| PolicyCall::Enqueue(x)));
        lemma_sjf_enqueued(tasks, xs.drop_last());
        assert(xs.drop_last().push(xs.last()) =~= xs);
    } else {
        assert(xs.map_values(|x: usize| PolicyCall::Enqueue(x)) =~= Seq::<PolicyCall>::empty());
        assert(xs =~= Seq::<usize>::empty());
    }
}

/// Non-preemptive: in a simulation tick, the running task leaves the CPU
/// only when it finishes or blocks for I/O.
pub proof fn lemma_sjf_never_preempts(st: SimState<Seq<usize>>, now: u64, tid: usize)
    requires
        st.running == Some(tid),
        tid < st.tasks.len(),
    ensures
        ran::<SjfScheduler>(st, now).running.is_none() ==> ran::<SjfScheduler>(st, now).tasks[tid as int].state
            == TaskState::Done || ran::<SjfScheduler>(st, now).tasks[tid as int].state == TaskState::Blocked,
{
}

} // verus!
