use vstd::prelude::*;
use vstd::multiset::Multiset;
use std::collections::VecDeque;
use crate::sched::task::{RuntimeTask, MLFQ_LEVELS, policy_only, levels_ok, same_but_policy};
use crate::sched::policy::{Scheduler, TickAction, distinct_below, lemma_distinct_below_len};
use crate::sched::pool_lemmas::{lemma_drop_first_contents, lemma_elements_below};

verus! {

broadcast use {
    vstd::seq_lib::group_to_multiset_ensures,
    vstd::multiset::group_multiset_axioms,
    vstd::seq_lib::lemma_multiset_commutative,
};

/// The state of a multi-level feedback queue policy.
pub struct MlfqView {
    /// Ready queues, highest priority first, each front first.
    pub levels: Seq<Seq<usize>>,
    /// Slice length of each level.
    pub quantums: Seq<u64>,
    /// Ticks between two priority boosts.
    pub boost_interval: u64,
    /// Tick at or after which the next boost happens.
    pub next_boost_at: u64,
    /// The task the policy believes is running.
    pub running: Option<usize>,
    /// Ticks of the current slice used so far.
    pub used_slice: u64,
}

/// All queued task ids, level by level, each level front first.
pub open spec fn all_queued(levels: Seq<Seq<usize>>) -> Seq<usize> {
    levels[0] + levels[1] + levels[2] + levels[3]
}

/// The queues after a boost: everything at the top level, in level order.
pub open spec fn boosted(levels: Seq<Seq<usize>>) -> Seq<Seq<usize>> {
    seq![all_queued(levels), Seq::empty(), Seq::empty(), Seq::empty()]
}

/// The task table after the tasks in `ids` are lifted to the top level.
pub open spec fn lifted(tasks: Seq<RuntimeTask>, ids: Seq<usize>) -> Seq<RuntimeTask> {
    Seq::new(
        tasks.len(),
        |i: int|
            if ids.contains(i as usize) {
                RuntimeTask { mlfq_level: 0, ..tasks[i] }
            } else {
                tasks[i]
            },
    )
}

/// The level at which a task with the given level is queued.
pub open spec fn queue_level(level: usize) -> int {
    if level < MLFQ_LEVELS { level as int } else { MLFQ_LEVELS - 1 }
}

/// The first non-empty level, or the number of levels when all are empty.
pub open spec fn first_nonempty(levels: Seq<Seq<usize>>) -> int {
    if levels[0].len() > 0 {
        0
    } else if levels[1].len() > 0 {
        1
    } else if levels[2].len() > 0 {
        2
    } else if levels[3].len() > 0 {
        3
    } else {
        4
    }
}

/// Total length of the first `k` levels.
pub open spec fn levels_len(levels: Seq<Seq<usize>>, k: int) -> int
    decreases k,
{
    if k <= 0 {
        0
    } else {
        levels_len(levels, k - 1) + levels[k - 1].len()
    }
}

/// Multi-level feedback queue: four FIFO levels with slices 2, 4, 8 and 16
/// ticks. A task that uses up its slice drops one level, a task that wakes
/// from I/O rises one level, and every 60 ticks all queued tasks are lifted
/// to the top level.
pub struct MlfqScheduler {
    queues: Vec<VecDeque<usize>>,
    quantums: Vec<u64>,
    boost_interval: u64,
    next_boost_at: u64,
    running: Option<usize>,
    used_slice: u64,
}

impl View for MlfqScheduler {
    type V = MlfqView;

    closed spec fn view(&self) -> MlfqView {
        MlfqView {
            levels: self.queues@.map_values(|q: VecDeque<usize>| q@),
            quantums: self.quantums@,
            boost_interval: self.boost_interval,
            next_boost_at: self.next_boost_at,
            running: self.running,
            used_slice: self.used_slice,
        }
    }
}

impl MlfqScheduler {
    /// An MLFQ policy with four empty levels and its first boost due at tick 60.
    pub fn new() -> (s: Self)
        ensures
            s@ == (MlfqView {
                levels: seq![Seq::empty(), Seq::empty(), Seq::empty(), Seq::empty()],
                quantums: seq![2u64, 4, 8, 16],
                boost_interval: 60,
                next_boost_at: 60,
                running: None,
                used_slice: 0,
            }),
            s.wf(),
            s.fresh_at(0),
            s.pool() =~= Multiset::empty(),
    {
        let s = MlfqScheduler {
            queues: vec![VecDeque::new(), VecDeque::new(), VecDeque::new(), VecDeque::new()],
            quantums: vec![2, 4, 8, 16],
            boost_interval: 60,
            next_boost_at: 60,
            running: None,
            used_slice: 0,
        };
        assert(s@.levels =~= seq![Seq::<usize>::empty(), Seq::empty(), Seq::empty(), Seq::empty()]);
        assert(s@.quantums =~= seq![2u64, 4, 8, 16]);
        assert(all_queued(s@.levels) =~= Seq::<usize>::empty());
        s
    }

    /// Queues a task at the given level, or at the lowest level if `level` is past it.
    pub fn push_level(&mut self, task_id: usize, level: usize)
        requires
            old(self).wf(),
            old(self).pool().insert(task_id).len() <= usize::MAX,
        ensures
            final(self)@ == (MlfqView {
                levels: old(self)@.levels.update(
                    queue_level(level),
                    old(self)@.levels[queue_level(level)].push(task_id),
                ),
                ..old(self)@
            }),
            final(self).wf(),
            final(self).pool() == old(self).pool().insert(task_id),
    {
        let level = if level < self.queues.len() - 1 { level } else { self.queues.len() - 1 };
        self.queues[level].push_back(task_id);
        proof {
            assert(self@.levels =~= old(self)@.levels.update(
                queue_level(level),
                old(self)@.levels[queue_level(level)].push(task_id),
            ));
        }
    }

    /// Moves every queued task to the top level, in level order, and sets its level to 0.
    pub fn boost_all(&mut self, tasks: &mut Vec<RuntimeTask>)
        requires
            old(self).wf(),
            distinct_below(old(self).pool(), old(tasks).len() as nat),
            levels_ok(old(tasks)@),
        ensures
            final(self)@ == (MlfqView { levels: boosted(old(self)@.levels), ..old(self)@ }),
            final(tasks)@ == lifted(old(tasks)@, all_queued(old(self)@.levels)),
            final(self).wf(),
            final(self).pool() == old(self).pool(),
            policy_only(old(tasks)@, final(tasks)@),
            levels_ok(final(tasks)@),
    {
        let ghost old_levels = self@.levels;
        let ghost all = all_queued(old_levels);
        proof {
            lemma_elements_below(all, tasks.len() as nat);
            reveal_with_fuel(queued_prefix, 5);
            assert(queued_prefix(old_levels, 4) =~= all);
        }
        let mut all_tasks: Vec<usize> = Vec::new();
        let mut i: usize = 0;
        while i < self.queues.len()
            invariant
                self.wf_shape(),
                self.quantums@ == old(self).quantums@,
                self.next_boost_at == old(self).next_boost_at,
                self.running == old(self).running,
                self.used_slice == old(self).used_slice,
                i <= 4,
                forall|j: int| 0 <= j < i ==> (#[trigger] self@.levels[j]).len() == 0,
                forall|j: int| i <= j < 4 ==> #[trigger] self@.levels[j] == old_levels[j],
                all_tasks@ == queued_prefix(old_levels, i as int),
            decreases 4 - i,
        {
            while self.queues[i].len() > 0
                invariant
                    self.wf_shape(),
                    self.quantums@ == old(self).quantums@,
                    self.next_boost_at == old(self).next_boost_at,
                    self.running == old(self).running,
                    self.used_slice == old(self).used_slice,
                    i < 4,
                    forall|j: int| 0 <= j < i ==> (#[trigger] self@.levels[j]).len() == 0,
                    forall|j: int| i < j < 4 ==> #[trigger] self@.levels[j] == old_levels[j],
                    all_tasks@ + self@.levels[i as int] == queued_prefix(old_levels, i + 1),
                decreases self@.levels[i as int].len(),
            {
                let ghost q = self@.levels[i as int];
                let ghost pre = self@.levels;
                let ghost acc = all_tasks@;
                let tid = self.queues[i].pop_front().unwrap();
                proof {
                    lemma_drop_first_contents(q);
                    assert(self@.levels =~= pre.update(i as int, q.drop_first()));
                }
                all_tasks.push(tid);
                proof {
                    assert(all_tasks@ + self@.levels[i as int] =~= acc + q);
                }
            }
            proof {
                assert(self@.levels[i as int] =~= Seq::<usize>::empty());
                assert(all_tasks@ =~= queued_prefix(old_levels, i + 1));
            }
            i += 1;
        }
        let n_tasks = tasks.len();
        let mut k: usize = 0;
        while k < all_tasks.len()
            invariant
                n_tasks == old(tasks)@.len(),
                self.wf_shape(),
                self.quantums@ == old(self).quantums@,
                self.next_boost_at == old(self).next_boost_at,
                self.running == old(self).running,
                self.used_slice == old(self).used_slice,
                all_tasks@ == all,
                k <= all.len(),
                self@.levels[0] == all.subrange(0, k as int),
                self@.levels[1].len() == 0,
                self@.levels[2].len() == 0,
                self@.levels[3].len() == 0,
                forall|j: int| 0 <= j < all.len() ==> #[trigger] all[j] < old(tasks)@.len(),
                tasks@ == lifted(old(tasks)@, all.subrange(0, k as int)),
            decreases all.len() - k,
        {
            let tid = all_tasks[k];
            let ghost pre_tasks = tasks@;
            let ghost pre_levels = self@.levels;
            tasks[tid].mlfq_level = 0;
            self.queues[0].push_back(tid);
            proof {
                let done = all.subrange(0, k as int);
                assert(all.subrange(0, k + 1) =~= done.push(tid));
                assert(self@.levels =~= pre_levels.update(0, pre_levels[0].push(tid)));
                assert forall|t: int| 0 <= t < tasks@.len() implies #[trigger] tasks@[t] == lifted(
                    old(tasks)@,
                    done.push(tid),
                )[t] by {
                    broadcast use vstd::seq_lib::group_seq_properties;
                    let tu = t as usize;
                    assert(tu as int == t);
                    if tu != tid {
                        assert(done.push(tid).contains(tu) == done.contains(tu));
                        assert(tasks@[t] == pre_tasks[t]);
                    } else {
                        assert(done.push(tid)[k as int] == tid);
                        assert(done.push(tid).contains(tid));
                        assert(tasks@[t] == RuntimeTask { mlfq_level: 0, ..pre_tasks[t] });
                    }
                }
                assert(tasks@ =~= lifted(old(tasks)@, all.subrange(0, k + 1)));
            }
            k += 1;
        }
        proof {
            assert(all.subrange(0, all.len() as int) =~= all);
            assert(self@.levels[1] =~= Seq::<usize>::empty());
            assert(self@.levels[2] =~= Seq::<usize>::empty());
            assert(self@.levels[3] =~= Seq::<usize>::empty());
            assert(self@.levels =~= boosted(old_levels));
            assert(self.pool() =~= old(self).pool());
        }
    }
}

/// The queued tasks of the first `k` levels, level by level.
pub open spec fn queued_prefix(levels: Seq<Seq<usize>>, k: int) -> Seq<usize>
    decreases k,
{
    if k <= 0 {
        Seq::empty()
    } else {
        queued_prefix(levels, k - 1) + levels[k - 1]
    }
}

impl MlfqScheduler {
    /// The fixed shape of the policy: four levels with their slice lengths.
    pub closed spec fn wf_shape(&self) -> bool {
        &&& self.queues@.len() == MLFQ_LEVELS
        &&& self.quantums@ == seq![2u64, 4, 8, 16]
        &&& self.boost_interval == 60
        &&& self.used_slice < 16
    }
}

impl Scheduler for MlfqScheduler {
    closed spec fn pool(&self) -> Multiset<usize> {
        all_queued(self@.levels).to_multiset()
    }

    closed spec fn wf(&self) -> bool {
        &&& self.wf_shape()
        &&& self.pool().len() <= usize::MAX
    }

    closed spec fn fresh_at(&self, now: u64) -> bool {
        true
    }

    proof fn lemma_fresh_later(&self, now: u64, later: u64) {
    }

    open spec fn label(&self) -> Seq<char> {
        "MLFQ"@
    }

    open spec fn model_enqueue(v: MlfqView, task_id: usize, tasks: Seq<RuntimeTask>) -> (
        MlfqView,
        Seq<RuntimeTask>,
    ) {
        let l = queue_level(tasks[task_id as int].mlfq_level);
        (MlfqView { levels: v.levels.update(l, v.levels[l].push(task_id)), ..v }, tasks)
    }

    open spec fn model_pick(v: MlfqView, tasks: Seq<RuntimeTask>) -> (
        MlfqView,
        Seq<RuntimeTask>,
        Option<usize>,
    ) {
        let l = first_nonempty(v.levels);
        if l < 4 {
            let tid = v.levels[l][0];
            (
                MlfqView {
                    levels: v.levels.update(l, v.levels[l].drop_first()),
                    running: Some(tid),
                    used_slice: 0,
                    ..v
                },
                tasks.update(tid as int, RuntimeTask { mlfq_level: l as usize, ..tasks[tid as int] }),
                Some(tid),
            )
        } else {
            (MlfqView { running: None, ..v }, tasks, None)
        }
    }

    open spec fn model_tick(v: MlfqView, running: usize, tasks: Seq<RuntimeTask>, now: u64) -> (
        MlfqView,
        Seq<RuntimeTask>,
        TickAction,
    ) {
        let boost = now >= v.next_boost_at;
        let levels1 = if boost { boosted(v.levels) } else { v.levels };
        let tasks1 = if boost { lifted(tasks, all_queued(v.levels)) } else { tasks };
        let next_boost = if boost { (now + 60) as u64 } else { v.next_boost_at };
        let used = (if v.running == Some(running) { v.used_slice } else { 0 }) + 1;
        let level = tasks1[running as int].mlfq_level;
        if used >= v.quantums[level as int] {
            (
                MlfqView {
                    levels: levels1,
                    next_boost_at: next_boost,
                    running: None,
                    used_slice: 0,
                    ..v
                },
                tasks1.update(
                    running as int,
                    RuntimeTask {
                        mlfq_level: if level + 1 < MLFQ_LEVELS { (level + 1) as usize } else { level },
                        ..tasks1[running as int]
                    },
                ),
                TickAction::Preempt,
            )
        } else {
            (
                MlfqView {
                    levels: levels1,
                    next_boost_at: next_boost,
                    running: Some(running),
                    used_slice: used as u64,
                    ..v
                },
                tasks1,
                TickAction::Continue,
            )
        }
    }

    open spec fn model_block(v: MlfqView, task_id: usize, tasks: Seq<RuntimeTask>) -> (
        MlfqView,
        Seq<RuntimeTask>,
    ) {
        (
            if v.running == Some(task_id) {
                MlfqView { running: None, used_slice: 0, ..v }
            } else {
                v
            },
            tasks,
        )
    }

    open spec fn model_wakeup(v: MlfqView, task_id: usize, tasks: Seq<RuntimeTask>) -> (
        MlfqView,
        Seq<RuntimeTask>,
    ) {
        let old_level = tasks[task_id as int].mlfq_level;
        let new_level = if old_level > 0 { (old_level - 1) as usize } else { old_level };
        let l = queue_level(new_level);
        (
            MlfqView { levels: v.levels.update(l, v.levels[l].push(task_id)), ..v },
            tasks.update(task_id as int, RuntimeTask { mlfq_level: new_level, ..tasks[task_id as int] }),
        )
    }

    proof fn lemma_models_policy_only(v: Self::V, x: usize, tasks: Seq<RuntimeTask>, now: u64) {
        let r = Self::model_tick(v, x, tasks, now).1;
        let t1 = lifted(tasks, all_queued(v.levels));
        assert forall|i: int| 0 <= i < tasks.len() implies #[trigger] same_but_policy(tasks[i], r[i]) by {
            assert(same_but_policy(tasks[i], t1[i]));
        }
        let w = Self::model_wakeup(v, x, tasks).1;
        assert forall|i: int| 0 <= i < tasks.len() implies #[trigger] same_but_policy(tasks[i], w[i]) by {}
    }

    open spec fn model_ready_len(v: MlfqView) -> nat {
        all_queued(v.levels).len()
    }

    fn name(&self) -> (r: &'static str) {
        "MLFQ"
    }

    /// A ready task is queued at its current level.
    fn enqueue(&mut self, task_id: usize, tasks: &mut Vec<RuntimeTask>, now: u64)
        ensures
            ({
                let l = queue_level(old(tasks)@[task_id as int].mlfq_level);
                final(self)@ == (MlfqView {
                    levels: old(self)@.levels.update(l, old(self)@.levels[l].push(task_id)),
                    ..old(self)@
                })
            }),
            final(tasks)@ == old(tasks)@,
    {
        proof {
            lemma_distinct_below_len(self.pool().insert(task_id), tasks.len() as nat);
        }
        let level = tasks[task_id].mlfq_level;
        self.push_level(task_id, level);
    }

    /// Takes the front task of the highest non-empty level, records that level
    /// as the task's level, and starts a fresh slice.
    fn pick_next(&mut self, tasks: &mut Vec<RuntimeTask>, now: u64) -> (next: Option<usize>)
        ensures
            ({
                let l = first_nonempty(old(self)@.levels);
                if l < 4 {
                    let tid = old(self)@.levels[l][0];
                    &&& next == Some(tid)
                    &&& final(self)@ == (MlfqView {
                        levels: old(self)@.levels.update(l, old(self)@.levels[l].drop_first()),
                        running: Some(tid),
                        used_slice: 0,
                        ..old(self)@
                    })
                    &&& final(tasks)@ == old(tasks)@.update(
                        tid as int,
                        RuntimeTask { mlfq_level: l as usize, ..old(tasks)@[tid as int] },
                    )
                } else {
                    &&& next.is_none()
                    &&& final(self)@ == (MlfqView { running: None, ..old(self)@ })
                    &&& final(tasks)@ == old(tasks)@
                }
            }),
    {
        proof {
            lemma_elements_below(all_queued(self@.levels), tasks.len() as nat);
        }
        let mut level: usize = 0;
        while level < self.queues.len()
            invariant
                self == old(self),
                tasks == old(tasks),
                self.wf(),
                level <= 4,
                forall|j: int| 0 <= j < level ==> (#[trigger] self@.levels[j]).len() == 0,
                forall|j: int|
                    0 <= j < all_queued(self@.levels).len() ==> #[trigger] all_queued(self@.levels)[j]
                        < tasks@.len(),
                levels_ok(tasks@),
            decreases 4 - level,
        {
            if self.queues[level].len() > 0 {
                let ghost q = self@.levels[level as int];
                let ghost pre = self@;
                let tid = self.queues[level].pop_front().unwrap();
                proof {
                    lemma_drop_first_contents(q);
                    assert(self@.levels =~= pre.levels.update(level as int, q.drop_first()));
                    let lv = pre.levels;
                    assert(all_queued(lv).contains(tid)) by {
                        if level == 0 {
                            assert(all_queued(lv)[0] == tid);
                        } else if level == 1 {
                            assert(all_queued(lv)[lv[0].len() as int] == tid);
                        } else if level == 2 {
                            assert(all_queued(lv)[(lv[0].len() + lv[1].len()) as int] == tid);
                        } else {
                            assert(all_queued(lv)[(lv[0].len() + lv[1].len() + lv[2].len()) as int] == tid);
                        }
                    }
                    assert(first_nonempty(lv) == level as int);
                }
                tasks[tid].mlfq_level = level;
                proof {
                    assert forall|j: int| 0 <= j < tasks@.len() implies #[trigger] tasks@[j].mlfq_level
                        < MLFQ_LEVELS by {
                        if j != tid as int {
                            assert(tasks@[j] == old(tasks)@[j]);
                        }
                    }
                }
                self.running = Some(tid);
                self.used_slice = 0;
                proof {
                    assert(self.pool() =~= old(self).pool().remove(tid));
                }
                return Some(tid);
            }
            level += 1;
        }
        self.running = None;
        proof {
            assert(self@.levels =~= old(self)@.levels);
        }
        None
    }

    /// Boosts all queued tasks once the boost tick is reached, then counts the
    /// tick against the running task's slice; when the slice of the task's
    /// level is used up the task drops one level (if there is one below) and
    /// is preempted.
    fn on_tick(&mut self, running: usize, tasks: &mut Vec<RuntimeTask>, now: u64) -> (action:
        TickAction)
        ensures
            ({
                let boost = now >= old(self)@.next_boost_at;
                let levels1 = if boost { boosted(old(self)@.levels) } else { old(self)@.levels };
                let tasks1 = if boost {
                    lifted(old(tasks)@, all_queued(old(self)@.levels))
                } else {
                    old(tasks)@
                };
                let next_boost = if boost { (now + 60) as u64 } else { old(self)@.next_boost_at };
                let used = (if old(self)@.running == Some(running) {
                    old(self)@.used_slice
                } else {
                    0
                }) + 1;
                let level = tasks1[running as int].mlfq_level;
                if used >= old(self)@.quantums[level as int] {
                    &&& action == TickAction::Preempt
                    &&& final(self)@ == (MlfqView {
                        levels: levels1,
                        next_boost_at: next_boost,
                        running: None,
                        used_slice: 0,
                        ..old(self)@
                    })
                    &&& final(tasks)@ == tasks1.update(
                        running as int,
                        RuntimeTask {
                            mlfq_level: if level + 1 < MLFQ_LEVELS { (level + 1) as usize } else { level },
                            ..tasks1[running as int]
                        },
                    )
                } else {
                    &&& action == TickAction::Continue
                    &&& final(self)@ == (MlfqView {
                        levels: levels1,
                        next_boost_at: next_boost,
                        running: Some(running),
                        used_slice: used as u64,
                        ..old(self)@
                    })
                    &&& final(tasks)@ == tasks1
                }
            }),
    {
        if now >= self.next_boost_at {
            self.boost_all(tasks);
            self.next_boost_at = now + self.boost_interval;
        }
        if self.running != Some(running) {
            self.running = Some(running);
            self.used_slice = 0;
        }
        self.used_slice += 1;
        let level = tasks[running].mlfq_level;
        let quantum = self.quantums[level];
        if self.used_slice >= quantum {
            self.used_slice = 0;
            self.running = None;
            if level + 1 < self.queues.len() {
                tasks[running].mlfq_level = level + 1;
            }
            TickAction::Preempt
        } else {
            TickAction::Continue
        }
    }

    /// A blocking running task gives up the rest of its slice.
    fn on_block(&mut self, task_id: usize, tasks: &mut Vec<RuntimeTask>, now: u64)
        ensures
            final(self)@ == (if old(self)@.running == Some(task_id) {
                MlfqView { running: None, used_slice: 0, ..old(self)@ }
            } else {
                old(self)@
            }),
            final(tasks)@ == old(tasks)@,
    {
        if self.running == Some(task_id) {
            self.running = None;
            self.used_slice = 0;
        }
    }

    /// A task back from I/O rises one level (unless at the top) and is queued there.
    fn on_wakeup(&mut self, task_id: usize, tasks: &mut Vec<RuntimeTask>, now: u64)
        ensures
            ({
                let old_level = old(tasks)@[task_id as int].mlfq_level;
                let new_level = if old_level > 0 { (old_level - 1) as usize } else { old_level };
                let l = queue_level(new_level);
                &&& final(tasks)@ == old(tasks)@.update(
                    task_id as int,
                    RuntimeTask { mlfq_level: new_level, ..old(tasks)@[task_id as int] },
                )
                &&& final(self)@ == (MlfqView {
                    levels: old(self)@.levels.update(l, old(self)@.levels[l].push(task_id)),
                    ..old(self)@
                })
            }),
    {
        let level = tasks[task_id].mlfq_level;
        if level > 0 {
            tasks[task_id].mlfq_level = level - 1;
        }
        self.enqueue(task_id, tasks, now);
        proof {
            if level == 0 {
                assert(tasks@ =~= old(tasks)@.update(
                    task_id as int,
                    RuntimeTask { mlfq_level: level, ..old(tasks)@[task_id as int] },
                ));
            }
        }
    }

    /// Total number of queued tasks over all levels.
    fn ready_len(&self) -> (len: usize)
        ensures
            len == all_queued(self@.levels).len(),
    {
        proof {
            reveal_with_fuel(levels_len, 5);
            assert(levels_len(self@.levels, 4) == all_queued(self@.levels).len());
        }
        let mut total: usize = 0;
        let mut i: usize = 0;
        while i < self.queues.len()
            invariant
                self.wf(),
                i <= 4,
                total == levels_len(self@.levels, i as int),
                levels_len(self@.levels, 4) == all_queued(self@.levels).len(),
                forall|j: int| 0 <= j <= 4 ==> #[trigger] levels_len(self@.levels, j) <= levels_len(self@.levels, 4),
            decreases 4 - i,
        {
            proof {
                assert(levels_len(self@.levels, (i + 1) as int) <= levels_len(self@.levels, 4));
                assert(levels_len(self@.levels, (i + 1) as int) == total + self@.levels[i as int].len());
            }
            total = total + self.queues[i].len();
            i += 1;
        }
        total
    }
}

/// A boost lifts every queued task: at a tick at or after the boost tick, all
/// queued tasks move to the top level (level by level, each in queue order)
/// and have level 0 in the task table, unless it is the ticking task, and the
/// next boost is due `60` ticks later.
pub proof fn lemma_mlfq_boost(v: MlfqView, running: usize, tasks: Seq<RuntimeTask>, now: u64)
    requires
        now >= v.next_boost_at,
        now + 60 <= u64::MAX,
        running < tasks.len(),
    ensures
        ({
            let r = MlfqScheduler::model_tick(v, running, tasks, now);
            &&& r.0.levels == boosted(v.levels)
            &&& r.0.next_boost_at == now + 60
            &&& forall|id: usize|
                id < tasks.len() && id != running && #[trigger] all_queued(v.levels).contains(id)
                    ==> r.1[id as int].mlfq_level == 0
        }),
{
    let r = MlfqScheduler::model_tick(v, running, tasks, now);
    let tasks1 = lifted(tasks, all_queued(v.levels));
    assert forall|id: usize|
        id < tasks.len() && id != running && #[trigger] all_queued(v.levels).contains(id)
            implies r.1[id as int].mlfq_level == 0 by {
        assert(tasks1[id as int].mlfq_level == 0);
        assert(r.1[id as int] == tasks1[id as int]);
    }
}

/// The view and task table after task `t` runs `j` ticks in a row from tick `now` on.
pub open spec fn mlfq_ticks(v: MlfqView, t: usize, tasks: Seq<RuntimeTask>, now: u64, j: nat) -> (
    MlfqView,
    Seq<RuntimeTask>,
)
    decreases j,
{
    if j == 0 {
        (v, tasks)
    } else {
        let p = mlfq_ticks(v, t, tasks, now, (j - 1) as nat);
        let r = MlfqScheduler::model_tick(p.0, t, p.1, (now + j - 1) as u64);
        (r.0, r.1)
    }
}

/// A boost keeps the set of queued tasks.
pub proof fn lemma_boosted_queued(levels: Seq<Seq<usize>>)
    ensures
        all_queued(boosted(levels)) == all_queued(levels),
{
    assert(all_queued(boosted(levels)) =~= all_queued(levels));
}

/// Where a task's slice stands after `j` ticks in a row that did not preempt
/// it: it has used `j` ticks of the slice its level grants, it is still the
/// task the policy counts for (after at least one tick), it is still in no
/// queue, and its record in the task table is unchanged, boosts or not.
pub proof fn lemma_mlfq_count(v: MlfqView, t: usize, tasks: Seq<RuntimeTask>, now: u64, j: nat)
    requires
        v.running != Some(t) || v.used_slice == 0,
        !all_queued(v.levels).contains(t),
        t < tasks.len(),
        tasks[t as int].mlfq_level < MLFQ_LEVELS,
        v.quantums.len() == MLFQ_LEVELS,
        j < v.quantums[tasks[t as int].mlfq_level as int],
    ensures
        ({
            let p = mlfq_ticks(v, t, tasks, now, j);
            &&& (if p.0.running == Some(t) { p.0.used_slice as int } else { 0 }) == j
            &&& !all_queued(p.0.levels).contains(t)
            &&& p.0.quantums == v.quantums
            &&& p.1.len() == tasks.len()
            &&& p.1[t as int] == tasks[t as int]
        }),
    decreases j,
{
    if j > 0 {
        lemma_mlfq_count(v, t, tasks, now, (j - 1) as nat);
        let p = mlfq_ticks(v, t, tasks, now, (j - 1) as nat);
        lemma_boosted_queued(p.0.levels);
        let tasks1 = lifted(p.1, all_queued(p.0.levels));
        assert(tasks1[t as int] == p.1[t as int]);
    }
}

/// A task that uses up its slice drops a level: a task at level `l` that is
/// in no queue and starts counting afresh (just picked, just preempted, or not
/// the task the policy last counted) continues for the first `quantums[l] - 1`
/// ticks in a row, whether or not a boost falls due meanwhile, and the next
/// tick preempts it and moves it one level down (the bottom level stays).
pub proof fn lemma_mlfq_slice(v: MlfqView, t: usize, tasks: Seq<RuntimeTask>, now: u64, j: nat)
    requires
        v.running != Some(t) || v.used_slice == 0,
        !all_queued(v.levels).contains(t),
        t < tasks.len(),
        tasks[t as int].mlfq_level < MLFQ_LEVELS,
        v.quantums.len() == MLFQ_LEVELS,
        j < v.quantums[tasks[t as int].mlfq_level as int],
    ensures
        ({
            let l = tasks[t as int].mlfq_level;
            let p = mlfq_ticks(v, t, tasks, now, j);
            let r = MlfqScheduler::model_tick(p.0, t, p.1, (now + j) as u64);
            &&& r.2 == (if j + 1 < v.quantums[l as int] {
                TickAction::Continue
            } else {
                TickAction::Preempt
            })
            &&& r.1[t as int].mlfq_level == (if r.2 == TickAction::Preempt && l + 1 < MLFQ_LEVELS {
                (l + 1) as usize
            } else {
                l
            })
        }),
{
    lemma_mlfq_count(v, t, tasks, now, j);
    let p = mlfq_ticks(v, t, tasks, now, j);
    let tasks1 = lifted(p.1, all_queued(p.0.levels));
    assert(tasks1[t as int] == p.1[t as int]);
}

} // verus!
