use vstd::prelude::*;
use vstd::multiset::Multiset;
use crate::sched::task::{RuntimeTask, TaskClass, same_but_policy};
use crate::sched::policy::{Scheduler, TickAction};
use crate::sched::pool_lemmas::{lemma_swap_remove_contents, lemma_elements_below};

verus! {

broadcast use vstd::seq_lib::group_to_multiset_ensures;

/// Arithmetic on encoded virtual runtimes, supplied by the user of the
/// CFS-like policy.
///
/// Runtimes are handled as `u64` encodings whose integer order must be the
/// order of the runtimes they encode; a fresh task's runtime is encoded as 0.
/// The policy compares and selects encodings itself and leaves to the clock
/// what a tick costs and when a task has run too far ahead.
pub trait VirtualClock {
    /// What `charge` gives: a function of the clock and the arguments alone.
    spec fn spec_charge(&self, vruntime: u64, class: TaskClass) -> u64;

    /// What `runs_ahead` gives: a function of the clock and the arguments alone.
    spec fn spec_runs_ahead(&self, min_ready: u64, current: u64) -> bool;

    /// The runtime `vruntime` advanced by one tick charged at the weight of `class`.
    fn charge(&self, vruntime: u64, class: TaskClass) -> (r: u64)
        ensures
            r == self.spec_charge(vruntime, class),
    ;

    /// Whether a task at runtime `current` is so far ahead of the least ready
    /// runtime `min_ready` that it should give up the CPU.
    fn runs_ahead(&self, min_ready: u64, current: u64) -> (r: bool)
        ensures
            r == self.spec_runs_ahead(min_ready, current),
    ;
}

/// Weight of a class in hundredths of a tick: interactive tasks are charged
/// least and CPU-bound tasks most.
pub open spec fn centi_weight(class: TaskClass) -> u64 {
    match class {
        TaskClass::Interactive => 85,
        TaskClass::IoBound => 100,
        TaskClass::CpuBound => 115,
    }
}

/// Virtual runtimes counted exactly in hundredths of a tick: a tick costs the
/// class weight (saturating at `u64::MAX`), and a task runs ahead once its
/// runtime exceeds the least ready one by more than half a tick.
#[derive(Clone, Copy)]
pub struct CentiClock;

impl VirtualClock for CentiClock {
    open spec fn spec_charge(&self, vruntime: u64, class: TaskClass) -> u64 {
        if vruntime + centi_weight(class) <= u64::MAX {
            (vruntime + centi_weight(class)) as u64
        } else {
            u64::MAX
        }
    }

    open spec fn spec_runs_ahead(&self, min_ready: u64, current: u64) -> bool {
        min_ready + 50 < current
    }

    fn charge(&self, vruntime: u64, class: TaskClass) -> (r: u64) {
        let w: u64 = match class {
            TaskClass::Interactive => 85,
            TaskClass::IoBound => 100,
            TaskClass::CpuBound => 115,
        };
        vruntime.saturating_add(w)
    }

    fn runs_ahead(&self, min_ready: u64, current: u64) -> (r: bool) {
        min_ready < current && current - min_ready > 50
    }
}

/// The state of a CFS-like policy.
pub struct CfsView<C> {
    /// Ready set, in insertion order as rearranged by removals.
    pub ready: Seq<usize>,
    /// The task the policy believes is running.
    pub running: Option<usize>,
    /// Ticks of the current slice used so far.
    pub used_slice: u64,
    /// Lower bound of a slice.
    pub min_granularity: u64,
    /// Slice length shared out among the ready tasks.
    pub target_slice: u64,
    /// The clock that charges runtimes.
    pub clock: C,
}

/// `k` is the first position of `ready` whose task has the least virtual runtime.
pub open spec fn first_least_vruntime(ready: Seq<usize>, tasks: Seq<RuntimeTask>, k: int) -> bool {
    &&& 0 <= k < ready.len()
    &&& forall|j: int|
        0 <= j < ready.len() ==> tasks[ready[k] as int].vruntime <= #[trigger] tasks[ready[j] as int].vruntime
    &&& forall|j: int|
        0 <= j < k ==> tasks[ready[k] as int].vruntime < #[trigger] tasks[ready[j] as int].vruntime
}

/// `m` is the least virtual runtime among the ready tasks.
pub open spec fn is_min_vruntime(ready: Seq<usize>, tasks: Seq<RuntimeTask>, m: u64) -> bool {
    &&& exists|j: int| 0 <= j < ready.len() && #[trigger] tasks[ready[j] as int].vruntime == m
    &&& forall|j: int| 0 <= j < ready.len() ==> m <= #[trigger] tasks[ready[j] as int].vruntime
}

/// The first position of `ready` whose task has the least virtual runtime.
pub open spec fn least_index(ready: Seq<usize>, tasks: Seq<RuntimeTask>) -> int {
    choose|k: int| first_least_vruntime(ready, tasks, k)
}

/// The least virtual runtime among the ready tasks.
pub open spec fn least_vruntime(ready: Seq<usize>, tasks: Seq<RuntimeTask>) -> u64 {
    choose|m: u64| is_min_vruntime(ready, tasks, m)
}

/// At most one position is the first with the least virtual runtime.
pub proof fn lemma_first_least_unique(ready: Seq<usize>, tasks: Seq<RuntimeTask>, a: int, b: int)
    requires
        first_least_vruntime(ready, tasks, a),
        first_least_vruntime(ready, tasks, b),
    ensures
        a == b,
{
    if a < b {
        assert(tasks[ready[b] as int].vruntime < tasks[ready[a] as int].vruntime);
    } else if b < a {
        assert(tasks[ready[a] as int].vruntime < tasks[ready[b] as int].vruntime);
    }
}

/// The least virtual runtime is unique.
pub proof fn lemma_min_vruntime_unique(ready: Seq<usize>, tasks: Seq<RuntimeTask>, m: u64)
    requires
        is_min_vruntime(ready, tasks, m),
    ensures
        least_vruntime(ready, tasks) == m,
{
    let l = least_vruntime(ready, tasks);
    assert(is_min_vruntime(ready, tasks, l));
    let wl = choose|j: int| 0 <= j < ready.len() && #[trigger] tasks[ready[j] as int].vruntime == l;
    let wm = choose|j: int| 0 <= j < ready.len() && #[trigger] tasks[ready[j] as int].vruntime == m;
    assert(m <= tasks[ready[wl] as int].vruntime);
    assert(l <= tasks[ready[wm] as int].vruntime);
}

/// The slice a running task gets when `ready_count` tasks wait: the target
/// slice shared among them, but never less than the minimum granularity.
pub open spec fn dynamic_slice(target_slice: u64, min_granularity: u64, ready_count: nat) -> u64 {
    let share = target_slice / (if ready_count == 0 { 1 } else { ready_count as u64 });
    if share >= min_granularity { share } else { min_granularity }
}

/// A simplified completely-fair policy: the ready task with the least virtual
/// runtime runs next; every tick charges the running task's runtime, and once
/// its slice is used up it is preempted if it has run ahead of the ready tasks.
pub struct CfsLikeScheduler<C: VirtualClock> {
    ready: Vec<usize>,
    running: Option<usize>,
    used_slice: u64,
    min_granularity: u64,
    target_slice: u64,
    clock: C,
}

impl<C: VirtualClock> View for CfsLikeScheduler<C> {
    type V = CfsView<C>;

    closed spec fn view(&self) -> CfsView<C> {
        CfsView {
            ready: self.ready@,
            running: self.running,
            used_slice: self.used_slice,
            min_granularity: self.min_granularity,
            target_slice: self.target_slice,
            clock: self.clock,
        }
    }
}

impl<C: VirtualClock> CfsLikeScheduler<C> {
    /// A CFS-like policy with minimum granularity 2 and target slice 6,
    /// charging runtimes with `clock`.
    pub fn new(clock: C) -> (s: Self)
        ensures
            s@ == (CfsView {
                ready: Seq::empty(),
                running: None,
                used_slice: 0,
                min_granularity: 2,
                target_slice: 6,
                clock,
            }),
            s.wf(),
            s.fresh_at(0),
            s.pool() =~= Multiset::empty(),
    {
        let s = CfsLikeScheduler {
            ready: Vec::new(),
            running: None,
            used_slice: 0,
            min_granularity: 2,
            target_slice: 6,
            clock,
        };
        proof {
            broadcast use vstd::multiset::group_multiset_axioms;
            assert(s.ready@ =~= Seq::<usize>::empty());
        }
        s
    }

    /// The least virtual runtime among the ready tasks, if any task is ready.
    pub fn min_ready_vruntime(&self, tasks: &Vec<RuntimeTask>) -> (r: Option<u64>)
        requires
            forall|j: int| 0 <= j < self@.ready.len() ==> #[trigger] self@.ready[j] < tasks@.len(),
        ensures
            match r {
                None => self@.ready.len() == 0,
                Some(m) => is_min_vruntime(self@.ready, tasks@, m),
            },
    {
        let mut best: Option<u64> = None;
        let mut i: usize = 0;
        while i < self.ready.len()
            invariant
                i <= self@.ready.len(),
                forall|j: int| 0 <= j < self@.ready.len() ==> #[trigger] self@.ready[j] < tasks@.len(),
                match best {
                    None => i == 0,
                    Some(m) => is_min_vruntime(self@.ready.subrange(0, i as int), tasks@, m),
                },
            decreases self@.ready.len() - i,
        {
            let v = tasks[self.ready[i]].vruntime;
            let ghost pre = best;
            best = match best {
                None => Some(v),
                Some(cur) => Some(if cur <= v { cur } else { v }),
            };
            proof {
                let s1 = self@.ready.subrange(0, i + 1);
                assert(s1[i as int] == self@.ready[i as int]);
                assert forall|j: int| 0 <= j < i implies s1[j] == #[trigger] self@.ready.subrange(0, i as int)[j] by {}
                match pre {
                    None => {
                        assert(tasks@[s1[0] as int].vruntime == v);
                    },
                    Some(cur) => {
                        let s0 = self@.ready.subrange(0, i as int);
                        let w = choose|j: int| 0 <= j < s0.len() && #[trigger] tasks@[s0[j] as int].vruntime == cur;
                        assert(s1[w] == s0[w]);
                        assert(tasks@[s1[i as int] as int].vruntime == v);
                        assert forall|j: int| 0 <= j < s1.len() implies best.unwrap() <= #[trigger] tasks@[s1[j] as int].vruntime by {
                            if j < i {
                                assert(s1[j] == s0[j]);
                            }
                        }
                    },
                }
            }
            i += 1;
        }
        proof {
            assert(self@.ready.subrange(0, self@.ready.len() as int) =~= self@.ready);
        }
        best
    }
}

impl<C: VirtualClock> Scheduler for CfsLikeScheduler<C> {
    closed spec fn pool(&self) -> Multiset<usize> {
        self.ready@.to_multiset()
    }

    closed spec fn wf(&self) -> bool {
        true
    }

    closed spec fn fresh_at(&self, now: u64) -> bool {
        self.used_slice <= now
    }

    proof fn lemma_fresh_later(&self, now: u64, later: u64) {
    }

    open spec fn label(&self) -> Seq<char> {
        "CFS-like"@
    }

    open spec fn model_enqueue(v: CfsView<C>, task_id: usize, tasks: Seq<RuntimeTask>) -> (
        CfsView<C>,
        Seq<RuntimeTask>,
    ) {
        (CfsView { ready: v.ready.push(task_id), ..v }, tasks)
    }

    open spec fn model_pick(v: CfsView<C>, tasks: Seq<RuntimeTask>) -> (
        CfsView<C>,
        Seq<RuntimeTask>,
        Option<usize>,
    ) {
        if v.ready.len() == 0 {
            (CfsView { running: None, ..v }, tasks, None)
        } else {
            let k = least_index(v.ready, tasks);
            (
                CfsView {
                    ready: v.ready.update(k, v.ready.last()).drop_last(),
                    running: Some(v.ready[k]),
                    used_slice: 0,
                    ..v
                },
                tasks,
                Some(v.ready[k]),
            )
        }
    }

    /// The running task's runtime is charged by the clock; once the slice for
    /// the number of ready tasks is used up, it is preempted if some task is
    /// ready and the clock says it runs ahead of the least ready runtime.
    open spec fn model_tick(v: CfsView<C>, running: usize, tasks: Seq<RuntimeTask>, now: u64) -> (
        CfsView<C>,
        Seq<RuntimeTask>,
        TickAction,
    ) {
        let used = (if v.running == Some(running) { v.used_slice } else { 0 }) + 1;
        let slice = dynamic_slice(v.target_slice, v.min_granularity, v.ready.len());
        let t = tasks[running as int];
        let tasks1 = tasks.update(
            running as int,
            RuntimeTask { vruntime: v.clock.spec_charge(t.vruntime, t.class), ..t },
        );
        if used >= slice && v.ready.len() > 0 && v.clock.spec_runs_ahead(
            least_vruntime(v.ready, tasks1),
            tasks1[running as int].vruntime,
        ) {
            (CfsView { running: None, used_slice: 0, ..v }, tasks1, TickAction::Preempt)
        } else {
            (
                CfsView { running: Some(running), used_slice: used as u64, ..v },
                tasks1,
                TickAction::Continue,
            )
        }
    }

    open spec fn model_block(v: CfsView<C>, task_id: usize, tasks: Seq<RuntimeTask>) -> (
        CfsView<C>,
        Seq<RuntimeTask>,
    ) {
        (
            if v.running == Some(task_id) {
                CfsView { running: None, used_slice: 0, ..v }
            } else {
                v
            },
            tasks,
        )
    }

    open spec fn model_wakeup(v: CfsView<C>, task_id: usize, tasks: Seq<RuntimeTask>) -> (
        CfsView<C>,
        Seq<RuntimeTask>,
    ) {
        (CfsView { ready: v.ready.push(task_id), ..v }, tasks)
    }

    proof fn lemma_models_policy_only(v: Self::V, x: usize, tasks: Seq<RuntimeTask>, now: u64) {
        let r = Self::model_tick(v, x, tasks, now).1;
        assert forall|i: int| 0 <= i < tasks.len() implies #[trigger] same_but_policy(tasks[i], r[i]) by {}
    }

    open spec fn model_ready_len(v: CfsView<C>) -> nat {
        v.ready.len()
    }

    fn name(&self) -> (r: &'static str) {
        "CFS-like"
    }

    /// A ready task joins the ready set.
    fn enqueue(&mut self, task_id: usize, tasks: &mut Vec<RuntimeTask>, now: u64)
        ensures
            final(self)@ == (CfsView { ready: old(self)@.ready.push(task_id), ..old(self)@ }),
            final(tasks)@ == old(tasks)@,
    {
        self.ready.push(task_id);
    }

    /// Takes out the first ready task with the least virtual runtime (the last
    /// ready task moves into its place) and starts a fresh slice.
    fn pick_next(&mut self, tasks: &mut Vec<RuntimeTask>, now: u64) -> (next: Option<usize>)
        ensures
            old(self)@.ready.len() == 0 ==> next.is_none() && final(self)@ == (CfsView {
                running: None,
                ..old(self)@
            }),
            old(self)@.ready.len() > 0 ==> exists|k: int|
                #![trigger old(self)@.ready[k]]
                first_least_vruntime(old(self)@.ready, old(tasks)@, k) && next == Some(
                    old(self)@.ready[k],
                ) && final(self)@ == (CfsView {
                    ready: old(self)@.ready.update(k, old(self)@.ready.last()).drop_last(),
                    running: next,
                    used_slice: 0,
                    ..old(self)@
                }),
            final(tasks)@ == old(tasks)@,
    {
        if self.ready.len() == 0 {
            self.running = None;
            return None;
        }
        proof {
            lemma_elements_below(self.ready@, tasks.len() as nat);
        }
        let mut best_idx: usize = 0;
        let mut best_vr: u64 = tasks[self.ready[0]].vruntime;
        let mut i: usize = 1;
        while i < self.ready.len()
            invariant
                1 <= i <= self.ready@.len(),
                best_idx < i,
                forall|j: int| 0 <= j < self.ready@.len() ==> #[trigger] self.ready@[j] < tasks@.len(),
                best_vr == tasks@[self.ready@[best_idx as int] as int].vruntime,
                forall|j: int| 0 <= j < i ==> best_vr <= #[trigger] tasks@[self.ready@[j] as int].vruntime,
                forall|j: int| 0 <= j < best_idx ==> best_vr < #[trigger] tasks@[self.ready@[j] as int].vruntime,
            decreases self.ready@.len() - i,
        {
            let tid = self.ready[i];
            let vr = tasks[tid].vruntime;
            if vr < best_vr {
                best_vr = vr;
                best_idx = i;
            }
            i += 1;
        }
        proof {
            lemma_swap_remove_contents(self.ready@, best_idx as int);
            assert(first_least_vruntime(self.ready@, tasks@, best_idx as int));
            lemma_first_least_unique(
                self.ready@,
                tasks@,
                best_idx as int,
                least_index(self.ready@, tasks@),
            );
        }
        let tid = self.ready.swap_remove(best_idx);
        self.running = Some(tid);
        self.used_slice = 0;
        Some(tid)
    }

    /// Charges the tick to the running task's runtime (a slice restarts when
    /// another task is found running). Once the slice for the current number of
    /// ready tasks is used up, the task is preempted if the clock says it runs
    /// ahead of the least ready runtime; otherwise it keeps the CPU.
    fn on_tick(&mut self, running: usize, tasks: &mut Vec<RuntimeTask>, now: u64) -> (action:
        TickAction)
    {
        if self.running != Some(running) {
            self.running = Some(running);
            self.used_slice = 0;
        }
        let class = tasks[running].class;
        let charged = self.clock.charge(tasks[running].vruntime, class);
        tasks[running].vruntime = charged;
        self.used_slice += 1;
        let ready_count: u64 = if self.ready.len() > 1 { self.ready.len() as u64 } else { 1 };
        let share = self.target_slice / ready_count;
        let slice = if share >= self.min_granularity { share } else { self.min_granularity };
        if self.used_slice < slice {
            return TickAction::Continue;
        }
        proof {
            lemma_elements_below(self.ready@, tasks.len() as nat);
        }
        match self.min_ready_vruntime(tasks) {
            Some(min_ready) => {
                proof {
                    lemma_min_vruntime_unique(self@.ready, tasks@, min_ready);
                }
                if self.clock.runs_ahead(min_ready, tasks[running].vruntime) {
                    self.used_slice = 0;
                    self.running = None;
                    return TickAction::Preempt;
                }
            },
            None => {},
        }
        TickAction::Continue
    }

    /// A blocking running task gives up the rest of its slice.
    fn on_block(&mut self, task_id: usize, tasks: &mut Vec<RuntimeTask>, now: u64)
        ensures
            final(self)@ == (if old(self)@.running == Some(task_id) {
                CfsView { running: None, used_slice: 0, ..old(self)@ }
            } else {
                old(self)@
            }),
            final(tasks)@ == old(tasks)@,
    {
        if self.running == Some(task_id) {
            self.running = None;
            self.used_slice = 0;
        }
    }

    fn on_wakeup(&mut self, task_id: usize, tasks: &mut Vec<RuntimeTask>, now: u64)
        ensures
            final(self)@ == (CfsView { ready: old(self)@.ready.push(task_id), ..old(self)@ }),
            final(tasks)@ == old(tasks)@,
    {
        self.enqueue(task_id, tasks, now);
    }

    fn ready_len(&self) -> (len: usize)
        ensures
            len == self@.ready.len(),
    {
        self.ready.len()
    }
}

/// The first position of least virtual runtime among the first `m` ready tasks.
pub open spec fn least_in_prefix(ready: Seq<usize>, tasks: Seq<RuntimeTask>, m: int) -> int
    decreases m,
{
    if m <= 1 {
        0
    } else {
        let k = least_in_prefix(ready, tasks, m - 1);
        if tasks[ready[m - 1] as int].vruntime < tasks[ready[k] as int].vruntime {
            m - 1
        } else {
            k
        }
    }
}

/// A non-empty ready set has a first position of least virtual runtime.
pub proof fn lemma_first_least_exists(ready: Seq<usize>, tasks: Seq<RuntimeTask>, m: int)
    requires
        1 <= m <= ready.len(),
    ensures
        first_least_vruntime(ready.subrange(0, m), tasks, least_in_prefix(ready, tasks, m)),
    decreases m,
{
    let p = ready.subrange(0, m);
    if m > 1 {
        lemma_first_least_exists(ready, tasks, m - 1);
        let q = ready.subrange(0, m - 1);
        assert forall|j: int| 0 <= j < m - 1 implies p[j] == q[j] by {}
    }
}

/// The pick goes to the least: from a non-empty ready set, the pick takes the
/// first ready task with the least virtual runtime, whose runtime is the least
/// ready runtime, and starts a fresh slice for it.
pub proof fn lemma_cfs_pick<C: VirtualClock>(v: CfsView<C>, tasks: Seq<RuntimeTask>)
    requires
        v.ready.len() > 0,
    ensures
        first_least_vruntime(v.ready, tasks, least_index(v.ready, tasks)),
        is_min_vruntime(v.ready, tasks, least_vruntime(v.ready, tasks)),
        tasks[v.ready[least_index(v.ready, tasks)] as int].vruntime == least_vruntime(v.ready, tasks),
        CfsLikeScheduler::<C>::model_pick(v, tasks).2 == Some(v.ready[least_index(v.ready, tasks)]),
        CfsLikeScheduler::<C>::model_pick(v, tasks).0.used_slice == 0,
        CfsLikeScheduler::<C>::model_pick(v, tasks).1 == tasks,
{
    lemma_first_least_exists(v.ready, tasks, v.ready.len() as int);
    assert(v.ready.subrange(0, v.ready.len() as int) =~= v.ready);
    let k = least_index(v.ready, tasks);
    let m = tasks[v.ready[k] as int].vruntime;
    assert(is_min_vruntime(v.ready, tasks, m));
    lemma_min_vruntime_unique(v.ready, tasks, m);
}

/// A runtime charged `j` times at the weight of `class`.
pub open spec fn charged_times<C: VirtualClock>(clock: C, vruntime: u64, class: TaskClass, j: nat) -> u64
    decreases j,
{
    if j == 0 {
        vruntime
    } else {
        clock.spec_charge(charged_times(clock, vruntime, class, (j - 1) as nat), class)
    }
}

/// The view and task table after task `t` runs `j` ticks in a row from tick `now` on.
pub open spec fn cfs_ticks<C: VirtualClock>(
    v: CfsView<C>,
    t: usize,
    tasks: Seq<RuntimeTask>,
    now: u64,
    j: nat,
) -> (CfsView<C>, Seq<RuntimeTask>)
    decreases j,
{
    if j == 0 {
        (v, tasks)
    } else {
        let p = cfs_ticks(v, t, tasks, now, (j - 1) as nat);
        let r = CfsLikeScheduler::<C>::model_tick(p.0, t, p.1, (now + j - 1) as u64);
        (r.0, r.1)
    }
}

/// None of the first `j` ticks in a row preempted the task.
pub open spec fn cfs_kept<C: VirtualClock>(
    v: CfsView<C>,
    t: usize,
    tasks: Seq<RuntimeTask>,
    now: u64,
    j: nat,
) -> bool {
    forall|i: nat|
        i < j ==> (#[trigger] CfsLikeScheduler::<C>::model_tick(
            cfs_ticks(v, t, tasks, now, i).0,
            t,
            cfs_ticks(v, t, tasks, now, i).1,
            (now + i) as u64,
        )).2 == TickAction::Continue
}

/// Over ticks in a row: a task that starts counting afresh (just picked, just
/// preempted, or not the task the policy last counted) and was not preempted
/// by its first `j` ticks has used `j` ticks of its slice and had its runtime
/// charged once per tick, with the ready set and every other task unchanged;
/// its next tick charges it once more and preempts it exactly when the slice
/// for the ready count is used up, some task is ready, and the clock finds it
/// running ahead of the least ready runtime.
pub proof fn lemma_cfs_slice<C: VirtualClock>(
    v: CfsView<C>,
    t: usize,
    tasks: Seq<RuntimeTask>,
    now: u64,
    j: nat,
)
    requires
        v.running != Some(t) || v.used_slice == 0,
        t < tasks.len(),
        cfs_kept(v, t, tasks, now, j),
        j < u64::MAX,
    ensures
        ({
            let p = cfs_ticks(v, t, tasks, now, j);
            let c = tasks[t as int].class;
            &&& (if p.0.running == Some(t) { p.0.used_slice as int } else { 0 }) == j
            &&& p.0.ready == v.ready
            &&& p.0.clock == v.clock
            &&& p.0.target_slice == v.target_slice
            &&& p.0.min_granularity == v.min_granularity
            &&& p.1 == tasks.update(
                t as int,
                RuntimeTask {
                    vruntime: charged_times(v.clock, tasks[t as int].vruntime, c, j),
                    ..tasks[t as int]
                },
            )
        }),
        ({
            let p = cfs_ticks(v, t, tasks, now, j);
            let r = CfsLikeScheduler::<C>::model_tick(p.0, t, p.1, (now + j) as u64);
            let c = tasks[t as int].class;
            &&& r.1[t as int].vruntime == charged_times(v.clock, tasks[t as int].vruntime, c, j + 1)
            &&& r.0.ready == v.ready
            &&& (r.2 == TickAction::Preempt <==> (j + 1 >= dynamic_slice(
                v.target_slice,
                v.min_granularity,
                v.ready.len(),
            ) && v.ready.len() > 0 && v.clock.spec_runs_ahead(
                least_vruntime(v.ready, r.1),
                r.1[t as int].vruntime,
            )))
        }),
    decreases j,
{
    if j > 0 {
        assert(cfs_kept(v, t, tasks, now, (j - 1) as nat));
        lemma_cfs_slice(v, t, tasks, now, (j - 1) as nat);
        let i = (j - 1) as nat;
        assert(CfsLikeScheduler::<C>::model_tick(
            cfs_ticks(v, t, tasks, now, i).0,
            t,
            cfs_ticks(v, t, tasks, now, i).1,
            (now + i) as u64,
        ).2 == TickAction::Continue);
        let p = cfs_ticks(v, t, tasks, now, j);
        assert(p.1 =~= tasks.update(
            t as int,
            RuntimeTask {
                vruntime: charged_times(v.clock, tasks[t as int].vruntime, tasks[t as int].class, j),
                ..tasks[t as int]
            },
        ));
    } else {
        assert(tasks.update(t as int, RuntimeTask { vruntime: tasks[t as int].vruntime, ..tasks[t as int] })
            =~= tasks);
    }
}

/// With the hundredths clock a runtime only grows: each charge adds the
/// class weight (saturating at `u64::MAX`).
pub proof fn lemma_centi_grows(vruntime: u64, class: TaskClass, j: nat, k: nat)
    requires
        j <= k,
    ensures
        vruntime <= charged_times(CentiClock, vruntime, class, j) <= charged_times(
            CentiClock,
            vruntime,
            class,
            k,
        ),
    decreases k,
{
    if k > j {
        lemma_centi_grows(vruntime, class, j, (k - 1) as nat);
    } else if j > 0 {
        lemma_centi_grows(vruntime, class, (j - 1) as nat, (j - 1) as nat);
    }
}

/// With the hundredths clock, a task runs ahead of a non-empty ready set
/// exactly when some ready task's runtime is more than half a tick behind it.
pub proof fn lemma_centi_runs_ahead(ready: Seq<usize>, tasks: Seq<RuntimeTask>, current: u64)
    requires
        ready.len() > 0,
    ensures
        CentiClock.spec_runs_ahead(least_vruntime(ready, tasks), current) <==> exists|i: int|
            0 <= i < ready.len() && #[trigger] tasks[ready[i] as int].vruntime + 50 < current,
{
    lemma_first_least_exists(ready, tasks, ready.len() as int);
    assert(ready.subrange(0, ready.len() as int) =~= ready);
    let k = least_in_prefix(ready, tasks, ready.len() as int);
    let m = tasks[ready[k] as int].vruntime;
    assert(is_min_vruntime(ready, tasks, m));
    lemma_min_vruntime_unique(ready, tasks, m);
}

} // verus!
