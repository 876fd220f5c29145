use vstd::prelude::*;
use crate::sched::task::{
    RuntimeTask, TaskSpec, TaskClass, TaskState, MAX_TICKS, initial_task, same_but_policy,
};
use crate::sched::policy::{Scheduler, TickAction};
use crate::sched::sim::{ContextSwitchEvent, after_wait, starving_count};

verus! {

/// The state of a simulation between two steps, the policy taken by its view.
pub struct SimState<V> {
    /// The task table.
    pub tasks: Seq<RuntimeTask>,
    /// The policy's view.
    pub policy: V,
    /// The task on the CPU, if any.
    pub running: Option<usize>,
    /// Tick at which the current occupant of the CPU started.
    pub run_start: u64,
    /// Starvation events counted so far.
    pub starvation: u64,
    /// Ready-to-running delays of interactive tasks so far.
    pub latencies: Seq<u64>,
    /// Context switch log so far.
    pub events: Seq<ContextSwitchEvent>,
}

/// Saturating difference `a - b` of two ticks.
pub open spec fn ticks_since(a: u64, b: u64) -> u64 {
    if a >= b { (a - b) as u64 } else { 0 }
}

/// The state after the CPU switches to `next` at tick `ts` (nothing happens
/// when `next` already runs): the switch is logged, and a task that starts
/// running leaves the ready state, its ready-to-running delay recorded if it
/// is interactive.
pub open spec fn switched<V>(st: SimState<V>, next: Option<usize>, ts: u64, ready_len: usize) -> SimState<V> {
    if st.running == next {
        st
    } else {
        let ev = ContextSwitchEvent {
            ts,
            from: st.running,
            to: next,
            ready_len,
            run_fragment: if st.running.is_some() { ticks_since(ts, st.run_start) } else { 0 },
        };
        match next {
            Some(t) => {
                let task = st.tasks[t as int];
                SimState {
                    tasks: st.tasks.update(
                        t as int,
                        RuntimeTask {
                            ready_since: None,
                            starvation_marked: false,
                            state: TaskState::Running,
                            ..task
                        },
                    ),
                    running: next,
                    run_start: ts,
                    latencies: if task.class == TaskClass::Interactive && task.ready_since.is_some() {
                        st.latencies.push(ticks_since(ts, task.ready_since.unwrap()))
                    } else {
                        st.latencies
                    },
                    events: st.events.push(ev),
                    ..st
                }
            },
            None => SimState { running: next, run_start: ts, events: st.events.push(ev), ..st },
        }
    }
}

/// Step 1 of tick `now`, done for the tasks below `k`: each blocked task whose
/// wake-up tick is `now` becomes ready and the policy is told.
pub open spec fn woken<S: Scheduler>(st: SimState<S::V>, now: u64, k: int) -> SimState<S::V>
    decreases k,
{
    if k <= 0 {
        st
    } else {
        let s1 = woken::<S>(st, now, k - 1);
        let i = k - 1;
        if i < s1.tasks.len() && s1.tasks[i].state == TaskState::Blocked && s1.tasks[i].unblock_at
            == Some(now) {
            let t1 = s1.tasks.update(
                i,
                RuntimeTask {
                    unblock_at: None,
                    state: TaskState::Ready,
                    ready_since: Some(now),
                    ..s1.tasks[i]
                },
            );
            let r = S::model_wakeup(s1.policy, i as usize, t1);
            SimState { policy: r.0, tasks: r.1, ..s1 }
        } else {
            s1
        }
    }
}

/// Step 2 of tick `now`, done for the tasks below `k`: each new task whose
/// arrival tick has come becomes ready and is queued with the policy.
pub open spec fn arrived<S: Scheduler>(st: SimState<S::V>, now: u64, k: int) -> SimState<S::V>
    decreases k,
{
    if k <= 0 {
        st
    } else {
        let s1 = arrived::<S>(st, now, k - 1);
        let i = k - 1;
        if i < s1.tasks.len() && s1.tasks[i].state == TaskState::New && s1.tasks[i].arrival <= now {
            let t1 = s1.tasks.update(
                i,
                RuntimeTask { state: TaskState::Ready, ready_since: Some(now), ..s1.tasks[i] },
            );
            let r = S::model_enqueue(s1.policy, i as usize, t1);
            SimState { policy: r.0, tasks: r.1, ..s1 }
        } else {
            s1
        }
    }
}

/// Step 3 of tick `now`: an idle CPU switches to the task the policy picks, if any.
pub open spec fn picked<S: Scheduler>(st: SimState<S::V>, now: u64) -> SimState<S::V> {
    if st.running.is_none() {
        let r = S::model_pick(st.policy, st.tasks);
        let s1 = SimState { policy: r.0, tasks: r.1, ..st };
        match r.2 {
            Some(n) => switched(s1, Some(n), now, S::model_ready_len(r.0) as usize),
            None => s1,
        }
    } else {
        st
    }
}

/// Step 4 of tick `now`: every ready task waits one more tick, and those that
/// start starving are counted.
pub open spec fn waited<V>(st: SimState<V>, now: u64, threshold: u64) -> SimState<V> {
    SimState {
        tasks: Seq::new(st.tasks.len(), |i: int| after_wait(st.tasks[i], now, threshold)),
        starvation: (st.starvation + starving_count(st.tasks, now, threshold, st.tasks.len() as int)) as u64,
        ..st
    }
}

/// Whether a task has reached the end of its CPU burst and blocks for I/O.
pub open spec fn burst_done(t: RuntimeTask) -> bool {
    match t.io_every {
        Some(e) => e > 0 && t.run_since_io >= e,
        None => false,
    }
}

/// Step 5 of tick `now`: the running task uses the tick. It finishes when its
/// CPU demand is met, blocks when its burst is done, goes back to the policy
/// when preempted, and otherwise keeps the CPU.
pub open spec fn ran<S: Scheduler>(st: SimState<S::V>, now: u64) -> SimState<S::V> {
    match st.running {
        None => st,
        Some(tid) => {
            let t = st.tasks[tid as int];
            let t0 = RuntimeTask {
                remaining_cpu: if t.remaining_cpu > 0 { (t.remaining_cpu - 1) as u64 } else { 0 },
                run_since_io: (t.run_since_io + 1) as u64,
                ..t
            };
            let r = S::model_tick(st.policy, tid, st.tasks.update(tid as int, t0), now);
            let s2 = SimState { policy: r.0, tasks: r.1, ..st };
            let t2 = r.1[tid as int];
            let ts = (now + 1) as u64;
            if t2.remaining_cpu == 0 {
                let s3 = SimState {
                    tasks: r.1.update(
                        tid as int,
                        RuntimeTask { state: TaskState::Done, completion_time: Some(ts), ..t2 },
                    ),
                    ..s2
                };
                switched(s3, None, ts, S::model_ready_len(r.0) as usize)
            } else if burst_done(t2) {
                let t3 = r.1.update(
                    tid as int,
                    RuntimeTask {
                        run_since_io: 0,
                        state: TaskState::Blocked,
                        unblock_at: Some((ts + t2.io_block) as u64),
                        ..t2
                    },
                );
                let b = S::model_block(r.0, tid, t3);
                switched(
                    SimState { policy: b.0, tasks: b.1, ..s2 },
                    None,
                    ts,
                    S::model_ready_len(b.0) as usize,
                )
            } else if r.2 == TickAction::Preempt {
                let t3 = r.1.update(
                    tid as int,
                    RuntimeTask { state: TaskState::Ready, ready_since: Some(ts), ..t2 },
                );
                let e = S::model_enqueue(r.0, tid, t3);
                switched(
                    SimState { policy: e.0, tasks: e.1, ..s2 },
                    None,
                    ts,
                    S::model_ready_len(e.0) as usize,
                )
            } else {
                s2
            }
        },
    }
}

/// One whole tick `now`: wake, admit, pick, wait, run.
pub open spec fn ticked<S: Scheduler>(st: SimState<S::V>, now: u64, threshold: u64) -> SimState<S::V> {
    let n = st.tasks.len() as int;
    ran::<S>(waited(picked::<S>(arrived::<S>(woken::<S>(st, now, n), now, n), now), now, threshold), now)
}

/// Every task has finished.
pub open spec fn all_finished(tasks: Seq<RuntimeTask>) -> bool {
    forall|i: int| 0 <= i < tasks.len() ==> #[trigger] tasks[i].state == TaskState::Done
}

/// The run from tick `now` on: ticks follow each other until every task is
/// done or `MAX_TICKS` is reached. Gives the final state and the number of
/// ticks run in all.
pub open spec fn run_from<S: Scheduler>(st: SimState<S::V>, now: u64, threshold: u64) -> (
    SimState<S::V>,
    u64,
)
    decreases MAX_TICKS - now,
{
    if now >= MAX_TICKS {
        (st, now)
    } else {
        let s1 = ticked::<S>(st, now, threshold);
        if all_finished(s1.tasks) {
            (s1, (now + 1) as u64)
        } else {
            run_from::<S>(s1, (now + 1) as u64, threshold)
        }
    }
}

/// The state a run starts from: every task new, the CPU idle, nothing logged.
pub open spec fn start_state<V>(specs: Seq<TaskSpec>, policy: V) -> SimState<V> {
    SimState {
        tasks: Seq::new(specs.len(), |i: int| initial_task(specs[i])),
        policy,
        running: None,
        run_start: 0,
        starvation: 0,
        latencies: Seq::empty(),
        events: Seq::empty(),
    }
}

/// The whole run of a policy that starts with view `policy` on the tasks
/// `specs` with starvation threshold `threshold`.
pub open spec fn experiment_run<S: Scheduler>(specs: Seq<TaskSpec>, threshold: u64, policy: S::V) -> (
    SimState<S::V>,
    u64,
) {
    run_from::<S>(start_state(specs, policy), 0, threshold)
}

/// A task made ready at tick `w`: ready, waiting since `w`, no wake-up pending.
pub open spec fn ready_at(t: RuntimeTask, w: u64) -> bool {
    &&& t.state == TaskState::Ready
    &&& t.ready_since == Some(w)
    &&& t.unblock_at.is_none()
}

proof fn lemma_woken_upto<S: Scheduler>(st: SimState<S::V>, now: u64, k: int)
    requires
        0 <= k <= st.tasks.len(),
    ensures
        ({
            let r = woken::<S>(st, now, k);
            &&& r == (SimState { tasks: r.tasks, policy: r.policy, ..st })
            &&& r.tasks.len() == st.tasks.len()
            &&& forall|i: int|
                0 <= i < st.tasks.len() ==> if i < k && st.tasks[i].state == TaskState::Blocked
                    && st.tasks[i].unblock_at == Some(now) {
                    ready_at(#[trigger] r.tasks[i], now) && same_but_policy(
                        RuntimeTask { state: TaskState::Ready, ready_since: Some(now), unblock_at: None, ..st.tasks[i] },
                        r.tasks[i],
                    )
                } else {
                    same_but_policy(st.tasks[i], r.tasks[i])
                }
        }),
    decreases k,
{
    if k > 0 {
        lemma_woken_upto::<S>(st, now, k - 1);
        let s1 = woken::<S>(st, now, k - 1);
        let i = k - 1;
        assert(same_but_policy(st.tasks[i], s1.tasks[i]));
        if s1.tasks[i].state == TaskState::Blocked && s1.tasks[i].unblock_at == Some(now) {
            let t1 = s1.tasks.update(
                i,
                RuntimeTask {
                    unblock_at: None,
                    state: TaskState::Ready,
                    ready_since: Some(now),
                    ..s1.tasks[i]
                },
            );
            S::lemma_models_policy_only(s1.policy, i as usize, t1, now);
            let r = S::model_wakeup(s1.policy, i as usize, t1).1;
            assert forall|j: int| 0 <= j < st.tasks.len() implies (if j < k && st.tasks[j].state
                == TaskState::Blocked && st.tasks[j].unblock_at == Some(now) {
                ready_at(#[trigger] r[j], now) && same_but_policy(
                    RuntimeTask { state: TaskState::Ready, ready_since: Some(now), unblock_at: None, ..st.tasks[j] },
                    r[j],
                )
            } else {
                same_but_policy(st.tasks[j], r[j])
            }) by {
                assert(same_but_policy(t1[j], r[j]));
            }
        }
    }
}

/// A blocked task wakes at its wake-up tick: after step 1 of tick `now`,
/// every task that was blocked until `now` is ready, waiting since `now`, with
/// no wake-up pending, and differs from before only there and in
/// policy-owned fields; every other task changes in policy-owned fields at
/// most; nothing but the table and the policy changes.
pub proof fn lemma_wake_makes_ready<S: Scheduler>(st: SimState<S::V>, now: u64)
    ensures
        ({
            let r = woken::<S>(st, now, st.tasks.len() as int);
            &&& r == (SimState { tasks: r.tasks, policy: r.policy, ..st })
            &&& r.tasks.len() == st.tasks.len()
            &&& forall|i: int|
                0 <= i < st.tasks.len() ==> if st.tasks[i].state == TaskState::Blocked
                    && st.tasks[i].unblock_at == Some(now) {
                    ready_at(#[trigger] r.tasks[i], now) && same_but_policy(
                        RuntimeTask { state: TaskState::Ready, ready_since: Some(now), unblock_at: None, ..st.tasks[i] },
                        r.tasks[i],
                    )
                } else {
                    same_but_policy(st.tasks[i], r.tasks[i])
                }
        }),
{
    lemma_woken_upto::<S>(st, now, st.tasks.len() as int);
}

proof fn lemma_arrived_upto<S: Scheduler>(st: SimState<S::V>, now: u64, k: int)
    requires
        0 <= k <= st.tasks.len(),
    ensures
        ({
            let r = arrived::<S>(st, now, k);
            &&& r == (SimState { tasks: r.tasks, policy: r.policy, ..st })
            &&& r.tasks.len() == st.tasks.len()
            &&& forall|i: int|
                0 <= i < st.tasks.len() ==> if i < k && st.tasks[i].state == TaskState::New
                    && st.tasks[i].arrival <= now {
                    (#[trigger] r.tasks[i]).state == TaskState::Ready && r.tasks[i].ready_since == Some(now)
                        && same_but_policy(
                        RuntimeTask { state: TaskState::Ready, ready_since: Some(now), ..st.tasks[i] },
                        r.tasks[i],
                    )
                } else {
                    same_but_policy(st.tasks[i], r.tasks[i])
                }
        }),
    decreases k,
{
    if k > 0 {
        lemma_arrived_upto::<S>(st, now, k - 1);
        let s1 = arrived::<S>(st, now, k - 1);
        let i = k - 1;
        assert(same_but_policy(st.tasks[i], s1.tasks[i]));
        if s1.tasks[i].state == TaskState::New && s1.tasks[i].arrival <= now {
            let t1 = s1.tasks.update(
                i,
                RuntimeTask { state: TaskState::Ready, ready_since: Some(now), ..s1.tasks[i] },
            );
            S::lemma_models_policy_only(s1.policy, i as usize, t1, now);
            let r = S::model_enqueue(s1.policy, i as usize, t1).1;
            assert forall|j: int| 0 <= j < st.tasks.len() implies (if j < k && st.tasks[j].state
                == TaskState::New && st.tasks[j].arrival <= now {
                (#[trigger] r[j]).state == TaskState::Ready && r[j].ready_since == Some(now)
                    && same_but_policy(
                    RuntimeTask { state: TaskState::Ready, ready_since: Some(now), ..st.tasks[j] },
                    r[j],
                )
            } else {
                same_but_policy(st.tasks[j], r[j])
            }) by {
                assert(same_but_policy(t1[j], r[j]));
            }
        }
    }
}

/// A task is admitted at its arrival: after step 2 of tick `now`, every new
/// task whose arrival tick has come is ready, waiting since `now`, and
/// differs from before only there and in policy-owned fields; every other
/// task changes in policy-owned fields at most.
pub proof fn lemma_arrival_makes_ready<S: Scheduler>(st: SimState<S::V>, now: u64)
    ensures
        ({
            let r = arrived::<S>(st, now, st.tasks.len() as int);
            &&& r == (SimState { tasks: r.tasks, policy: r.policy, ..st })
            &&& r.tasks.len() == st.tasks.len()
            &&& forall|i: int|
                0 <= i < st.tasks.len() ==> if st.tasks[i].state == TaskState::New
                    && st.tasks[i].arrival <= now {
                    (#[trigger] r.tasks[i]).state == TaskState::Ready && r.tasks[i].ready_since == Some(now)
                } else {
                    same_but_policy(st.tasks[i], r.tasks[i])
                }
        }),
{
    lemma_arrived_upto::<S>(st, now, st.tasks.len() as int);
}

/// A preempted task is ready from the next tick: when the running task ends
/// tick `now` ready again, it is waiting since tick `now + 1`.
pub proof fn lemma_preempt_makes_ready<S: Scheduler>(st: SimState<S::V>, now: u64, tid: usize)
    requires
        st.running == Some(tid),
        tid < st.tasks.len(),
        st.tasks[tid as int].state == TaskState::Running,
        now < MAX_TICKS,
    ensures
        ran::<S>(st, now).tasks[tid as int].state == TaskState::Ready ==> ran::<S>(st, now).tasks[tid as int].ready_since
            == Some((now + 1) as u64),
{
    let t = st.tasks[tid as int];
    let t0 = RuntimeTask {
        remaining_cpu: if t.remaining_cpu > 0 { (t.remaining_cpu - 1) as u64 } else { 0 },
        run_since_io: (t.run_since_io + 1) as u64,
        ..t
    };
    let tasks0 = st.tasks.update(tid as int, t0);
    S::lemma_models_policy_only(st.policy, tid, tasks0, now);
    let r = S::model_tick(st.policy, tid, tasks0, now);
    assert(same_but_policy(tasks0[tid as int], r.1[tid as int]));
    let t2 = r.1[tid as int];
    let ts = (now + 1) as u64;
    if t2.remaining_cpu != 0 && burst_done(t2) {
        let t3 = r.1.update(
            tid as int,
            RuntimeTask {
                run_since_io: 0,
                state: TaskState::Blocked,
                unblock_at: Some((ts + t2.io_block) as u64),
                ..t2
            },
        );
        S::lemma_models_policy_only(r.0, tid, t3, now);
        assert(same_but_policy(t3[tid as int], S::model_block(r.0, tid, t3).1[tid as int]));
    } else if t2.remaining_cpu != 0 && r.2 == TickAction::Preempt {
        let t3 = r.1.update(
            tid as int,
            RuntimeTask { state: TaskState::Ready, ready_since: Some(ts), ..t2 },
        );
        S::lemma_models_policy_only(r.0, tid, t3, now);
        assert(same_but_policy(t3[tid as int], S::model_enqueue(r.0, tid, t3).1[tid as int]));
    }
}

/// Switching to a task records its wait: when the CPU switches at tick `ts`
/// to an interactive task that has been ready since `w <= ts`, exactly one
/// latency sample, `ts - w`, is added; a switch to any other task, or away
/// from a task, adds none; the task leaves the ready state.
pub proof fn lemma_switch_samples_wait<V>(st: SimState<V>, next: Option<usize>, ts: u64, ready_len: usize)
    requires
        st.running != next,
        match next {
            Some(t) => t < st.tasks.len(),
            None => true,
        },
    ensures
        ({
            let r = switched(st, next, ts, ready_len);
            &&& match next {
                Some(t) => {
                    let task = st.tasks[t as int];
                    &&& r.tasks[t as int].state == TaskState::Running
                    &&& r.tasks[t as int].ready_since.is_none()
                    &&& (task.class == TaskClass::Interactive && task.ready_since.is_some()
                        && task.ready_since.unwrap() <= ts) ==> r.latencies == st.latencies.push(
                        (ts - task.ready_since.unwrap()) as u64,
                    )
                    &&& task.class != TaskClass::Interactive ==> r.latencies == st.latencies
                },
                None => r.latencies == st.latencies,
            }
            &&& r.events.len() == st.events.len() + 1
            &&& r.events.last().ts == ts
            &&& r.events.last().to == next
        }),
{
}

} // verus!
