use vstd::prelude::*;
use vstd::multiset::Multiset;
use std::collections::VecDeque;
use crate::sched::task::RuntimeTask;
use crate::sched::policy::{Scheduler, TickAction};
use crate::sched::pool_lemmas::lemma_drop_first_contents;

verus! {

broadcast use vstd::seq_lib::group_to_multiset_ensures;

/// The state of a round-robin policy.
pub struct RrView {
    /// Ready queue, front first.
    pub queue: Seq<usize>,
    /// Length of a time slice in ticks.
    pub quantum: u64,
    /// The task the policy believes is running.
    pub running: Option<usize>,
    /// Ticks of the current slice used so far.
    pub used_slice: u64,
}

/// Round robin: FIFO ready queue, and a running task is preempted once it has
/// used `quantum` ticks in a row.
pub struct RrScheduler {
    queue: VecDeque<usize>,
    quantum: u64,
    running: Option<usize>,
    used_slice: u64,
}

impl View for RrScheduler {
    type V = RrView;

    closed spec fn view(&self) -> RrView {
        RrView {
            queue: self.queue@,
            quantum: self.quantum,
            running: self.running,
            used_slice: self.used_slice,
        }
    }
}

impl RrScheduler {
    /// A round-robin policy with the given slice length and an empty queue.
    pub fn new(quantum: u64) -> (s: Self)
        ensures
            s@ == (RrView { queue: Seq::empty(), quantum, running: None, used_slice: 0 }),
            s.wf(),
            s.fresh_at(0),
            s.pool() =~= Multiset::empty(),
    {
        let s = RrScheduler { queue: VecDeque::new(), quantum, running: None, used_slice: 0 };
        proof {
            broadcast use vstd::multiset::group_multiset_axioms;
            assert(s.queue@ =~= Seq::<usize>::empty());
        }
        s
    }
}

impl Scheduler for RrScheduler {
    closed spec fn pool(&self) -> Multiset<usize> {
        self.queue@.to_multiset()
    }

    closed spec fn wf(&self) -> bool {
        self.used_slice == 0 || self.used_slice < self.quantum
    }

    closed spec fn fresh_at(&self, now: u64) -> bool {
        true
    }

    proof fn lemma_fresh_later(&self, now: u64, later: u64) {
    }

    open spec fn label(&self) -> Seq<char> {
        "RR"@
    }

    open spec fn model_enqueue(v: RrView, task_id: usize, tasks: Seq<RuntimeTask>) -> (
        RrView,
        Seq<RuntimeTask>,
    ) {
        (RrView { queue: v.queue.push(task_id), ..v }, tasks)
    }

    open spec fn model_pick(v: RrView, tasks: Seq<RuntimeTask>) -> (
        RrView,
        Seq<RuntimeTask>,
        Option<usize>,
    ) {
        let next = if v.queue.len() == 0 { None } else { Some(v.queue[0]) };
        (
            RrView {
                queue: if v.queue.len() == 0 { v.queue } else { v.queue.drop_first() },
                running: next,
                used_slice: 0,
                ..v
            },
            tasks,
            next,
        )
    }

    open spec fn model_tick(v: RrView, running: usize, tasks: Seq<RuntimeTask>, now: u64) -> (
        RrView,
        Seq<RuntimeTask>,
        TickAction,
    ) {
        let used = (if v.running == Some(running) { v.used_slice } else { 0 }) + 1;
        if used >= v.quantum {
            (RrView { running: None, used_slice: 0, ..v }, tasks, TickAction::Preempt)
        } else {
            (
                RrView { running: Some(running), used_slice: used as u64, ..v },
                tasks,
                TickAction::Continue,
            )
        }
    }

    open spec fn model_block(v: RrView, task_id: usize, tasks: Seq<RuntimeTask>) -> (
        RrView,
        Seq<RuntimeTask>,
    ) {
        (
            if v.running == Some(task_id) {
                RrView { running: None, used_slice: 0, ..v }
            } else {
                v
            },
            tasks,
        )
    }

    open spec fn model_wakeup(v: RrView, task_id: usize, tasks: Seq<RuntimeTask>) -> (
        RrView,
        Seq<RuntimeTask>,
    ) {
        (RrView { queue: v.queue.push(task_id), ..v }, tasks)
    }

    proof fn lemma_models_policy_only(v: Self::V, x: usize, tasks: Seq<RuntimeTask>, now: u64) {
    }

    open spec fn model_ready_len(v: RrView) -> nat {
        v.queue.len()
    }

    fn name(&self) -> (r: &'static str) {
        "RR"
    }

    /// A ready task goes to the back of the queue for its next turn.
    fn enqueue(&mut self, task_id: usize, tasks: &mut Vec<RuntimeTask>, now: u64)
        ensures
            final(self)@ == (RrView { queue: old(self)@.queue.push(task_id), ..old(self)@ }),
            final(tasks)@ == old(tasks)@,
    {
        self.queue.push_back(task_id);
    }

    /// The front task runs next, with a fresh slice.
    fn pick_next(&mut self, tasks: &mut Vec<RuntimeTask>, now: u64) -> (next: Option<usize>)
        ensures
            next == (if old(self)@.queue.len() == 0 { None } else { Some(old(self)@.queue[0]) }),
            final(self)@ == (RrView {
                queue: if old(self)@.queue.len() == 0 {
                    old(self)@.queue
                } else {
                    old(self)@.queue.drop_first()
                },
                running: next,
                used_slice: 0,
                ..old(self)@
            }),
            final(tasks)@ == old(tasks)@,
    {
        proof {
            if self.queue@.len() > 0 {
                lemma_drop_first_contents(self.queue@);
            }
        }
        let next = self.queue.pop_front();
        self.running = next;
        self.used_slice = 0;
        next
    }

    /// Counts the tick against the running task's slice (a slice restarts when
    /// another task is found running) and preempts once the slice is used up.
    fn on_tick(&mut self, running: usize, tasks: &mut Vec<RuntimeTask>, now: u64) -> (action:
        TickAction)
        ensures
            ({
                let used = (if old(self)@.running == Some(running) {
                    old(self)@.used_slice
                } else {
                    0
                }) + 1;
                if used >= old(self)@.quantum {
                    action == TickAction::Preempt && final(self)@ == (RrView {
                        running: None,
                        used_slice: 0,
                        ..old(self)@
                    })
                } else {
                    action == TickAction::Continue && final(self)@ == (RrView {
                        running: Some(running),
                        used_slice: used as u64,
                        ..old(self)@
                    })
                }
            }),
            final(tasks)@ == old(tasks)@,
    {
        if self.running != Some(running) {
            self.running = Some(running);
            self.used_slice = 0;
        }
        self.used_slice += 1;
        if self.used_slice >= self.quantum {
            self.running = None;
            self.used_slice = 0;
            TickAction::Preempt
        } else {
            TickAction::Continue
        }
    }

    /// A blocking running task gives up the rest of its slice.
    fn on_block(&mut self, task_id: usize, tasks: &mut Vec<RuntimeTask>, now: u64)
        ensures
            final(self)@ == (if old(self)@.running == Some(task_id) {
                RrView { running: None, used_slice: 0, ..old(self)@ }
            } else {
                old(self)@
            }),
            final(tasks)@ == old(tasks)@,
    {
        if self.running == Some(task_id) {
            self.running = None;
            self.used_slice = 0;
        }
    }

    fn on_wakeup(&mut self, task_id: usize, tasks: &mut Vec<RuntimeTask>, now: u64)
        ensures
            final(self)@ == (RrView { queue: old(self)@.queue.push(task_id), ..old(self)@ }),
            final(tasks)@ == old(tasks)@,
    {
        self.enqueue(task_id, tasks, now);
    }

    fn ready_len(&self) -> (len: usize)
        ensures
            len == self@.queue.len(),
    {
        self.queue.len()
    }
}

/// The view after `j` ticks of task `t` in a row.
pub open spec fn rr_ticks(v: RrView, t: usize, tasks: Seq<RuntimeTask>, now: u64, j: nat) -> RrView
    decreases j,
{
    if j == 0 {
        v
    } else {
        RrScheduler::model_tick(rr_ticks(v, t, tasks, now, (j - 1) as nat), t, tasks, now).0
    }
}

/// Counting one more modulo `q`: the remainder steps up by one and wraps to 0 at `q`.
pub proof fn lemma_mod_step(j: int, q: int)
    requires
        0 <= j,
        0 < q,
    ensures
        (j + 1) % q == (if j % q + 1 == q { 0 } else { j % q + 1 }),
        0 <= j % q < q,
{
    vstd::arithmetic::div_mod::lemma_fundamental_div_mod(j, q);
    let d = j / q;
    let r = j % q;
    assert(0 <= r < q) by {
        vstd::arithmetic::div_mod::lemma_mod_bound(j, q);
    }
    if r + 1 == q {
        assert(j + 1 == (d + 1) * q + 0) by (nonlinear_arith)
            requires
                j == q * d + r,
                r + 1 == q,
        ;
        vstd::arithmetic::div_mod::lemma_fundamental_div_mod_converse_mod(j + 1, q, d + 1, 0);
    } else {
        assert(j + 1 == d * q + (r + 1)) by (nonlinear_arith)
            requires
                j == q * d + r,
        ;
        vstd::arithmetic::div_mod::lemma_fundamental_div_mod_converse_mod(j + 1, q, d, r + 1);
    }
}

/// Where a task's slice count stands after `j` ticks in a row: it has used `j`
/// modulo the quantum ticks of its current slice, and is still the task the
/// policy counts for unless a slice has just ended.
pub proof fn lemma_rr_count(v: RrView, t: usize, tasks: Seq<RuntimeTask>, now: u64, j: nat)
    requires
        v.running != Some(t) || v.used_slice == 0,
    ensures
        rr_ticks(v, t, tasks, now, j).queue == v.queue,
        rr_ticks(v, t, tasks, now, j).quantum == v.quantum,
        v.quantum > 0 ==> (if rr_ticks(v, t, tasks, now, j).running == Some(t) {
            rr_ticks(v, t, tasks, now, j).used_slice as int
        } else {
            0
        }) == (j as int) % (v.quantum as int),
        v.quantum > 0 && (j as int) % (v.quantum as int) != 0 ==> rr_ticks(v, t, tasks, now, j).running
            == Some(t),
        v.quantum == 0 && j > 0 ==> rr_ticks(v, t, tasks, now, j).used_slice == 0,
    decreases j,
{
    if j > 0 {
        lemma_rr_count(v, t, tasks, now, (j - 1) as nat);
        let p = rr_ticks(v, t, tasks, now, (j - 1) as nat);
        assert(rr_ticks(v, t, tasks, now, j) == RrScheduler::model_tick(p, t, tasks, now).0);
        if v.quantum > 0 {
            lemma_mod_step(j - 1, v.quantum as int);
            let used = (if p.running == Some(t) { p.used_slice } else { 0 }) + 1;
            assert(used == ((j - 1) as int) % (v.quantum as int) + 1);
        }
    } else if v.quantum > 0 {
        assert(0int % (v.quantum as int) == 0) by (nonlinear_arith)
            requires
                v.quantum > 0,
        ;
    }
}

/// Round robin: a task that starts counting afresh (just picked, just
/// preempted, or not the one the policy last counted) is preempted on exactly
/// every `quantum`-th tick in a row, and on every tick when the quantum is 0;
/// these ticks change neither the task table nor the ready queue.
pub proof fn lemma_rr_slice(v: RrView, t: usize, tasks: Seq<RuntimeTask>, now: u64, j: nat)
    requires
        v.running != Some(t) || v.used_slice == 0,
    ensures
        ({
            let r = RrScheduler::model_tick(rr_ticks(v, t, tasks, now, j), t, tasks, now);
            &&& r.0.queue == v.queue
            &&& r.1 == tasks
            &&& r.2 == (if v.quantum == 0 || (j as int + 1) % (v.quantum as int) == 0 {
                TickAction::Preempt
            } else {
                TickAction::Continue
            })
        }),
{
    lemma_rr_count(v, t, tasks, now, j);
    if v.quantum > 0 {
        lemma_mod_step(j as int, v.quantum as int);
    }
}

} // verus!
