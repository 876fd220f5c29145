use vstd::prelude::*;
use vstd::multiset::Multiset;
use crate::sched::task::{
    RuntimeTask, TaskSpec, TaskClass, TaskState, MAX_TICKS, MLFQ_LEVELS, levels_ok, policy_only,
    same_but_policy, initial_task,
};
use crate::sched::policy::{Scheduler, TickAction, distinct_below};
use crate::sched::model::{
    SimState, woken, arrived, picked, waited, ran, ticked, run_from, experiment_run, start_state,
    all_finished,
};

verus! {

/// One context switch seen by the simulator: at tick `ts` the CPU went from
/// `from` to `to` while `ready_len` tasks were ready; `run_fragment` is how
/// long `from` had run without interruption.
#[derive(Clone, Copy, Debug)]
pub struct ContextSwitchEvent {
    pub ts: u64,
    pub from: Option<usize>,
    pub to: Option<usize>,
    pub ready_len: usize,
    pub run_fragment: u64,
}

/// Records a switch of the CPU from `*running` to `next` at tick `ts`.
///
/// Nothing happens when `next` is what already runs. Otherwise an event is
/// logged, `next` becomes the running task from `ts` on, and a task that
/// starts running leaves the ready state: if it is interactive and has been
/// ready since some tick, the delay until `ts` is added to `interactive_latencies`.
pub fn switch_context(
    running: &mut Option<usize>,
    run_start: &mut u64,
    next: Option<usize>,
    ts: u64,
    tasks: &mut Vec<RuntimeTask>,
    ready_len: usize,
    events: &mut Vec<ContextSwitchEvent>,
    interactive_latencies: &mut Vec<u64>,
)
    requires
        *old(running) != next ==> match next {
            Some(t) => t < old(tasks)@.len(),
            None => true,
        },
    ensures
        *old(running) == next ==> {
            &&& *final(running) == *old(running)
            &&& *final(run_start) == *old(run_start)
            &&& final(tasks)@ == old(tasks)@
            &&& final(events)@ == old(events)@
            &&& final(interactive_latencies)@ == old(interactive_latencies)@
        },
        *old(running) != next ==> {
            &&& *final(running) == next
            &&& *final(run_start) == ts
            &&& final(events)@ == old(events)@.push(
                ContextSwitchEvent {
                    ts,
                    from: *old(running),
                    to: next,
                    ready_len,
                    run_fragment: if old(running).is_some() {
                        if ts >= *old(run_start) { (ts - *old(run_start)) as u64 } else { 0 }
                    } else {
                        0
                    },
                },
            )
            &&& match next {
                Some(t) => {
                    let task = old(tasks)@[t as int];
                    &&& final(tasks)@ == old(tasks)@.update(
                        t as int,
                        RuntimeTask {
                            ready_since: None,
                            starvation_marked: false,
                            state: TaskState::Running,
                            ..task
                        },
                    )
                    &&& final(interactive_latencies)@ == (if task.class == TaskClass::Interactive
                        && task.ready_since.is_some() {
                        let since = task.ready_since.unwrap();
                        old(interactive_latencies)@.push(
                            if ts >= since { (ts - since) as u64 } else { 0 },
                        )
                    } else {
                        old(interactive_latencies)@
                    })
                },
                None => {
                    &&& final(tasks)@ == old(tasks)@
                    &&& final(interactive_latencies)@ == old(interactive_latencies)@
                },
            }
        },
{
    if *running == next {
        return;
    }
    let run_fragment = if running.is_some() {
        ts.saturating_sub(*run_start)
    } else {
        0
    };
    events.push(ContextSwitchEvent { ts, from: *running, to: next, ready_len, run_fragment });
    *running = next;
    *run_start = ts;
    match next {
        Some(tid) => {
            if tasks[tid].class == TaskClass::Interactive {
                match tasks[tid].ready_since {
                    Some(ready_since) => {
                        interactive_latencies.push(ts.saturating_sub(ready_since));
                    },
                    None => {},
                }
            }
            tasks[tid].ready_since = None;
            tasks[tid].starvation_marked = false;
            tasks[tid].state = TaskState::Running;
        },
        None => {},
    }
}

/// Whether every task has finished.
pub fn all_done(tasks: &Vec<RuntimeTask>) -> (r: bool)
    ensures
        r == forall|i: int| 0 <= i < tasks@.len() ==> #[trigger] tasks@[i].state == TaskState::Done,
{
    let mut i: usize = 0;
    while i < tasks.len()
        invariant
            i <= tasks@.len(),
            forall|j: int| 0 <= j < i ==> #[trigger] tasks@[j].state == TaskState::Done,
        decreases tasks@.len() - i,
    {
        if tasks[i].state != TaskState::Done {
            return false;
        }
        i += 1;
    }
    true
}

/// Number of tasks that have a completion time.
pub open spec fn completed_count(tasks: Seq<RuntimeTask>) -> nat
    decreases tasks.len(),
{
    if tasks.len() == 0 {
        0
    } else {
        completed_count(tasks.drop_last()) + if tasks.last().completion_time.is_some() {
            1nat
        } else {
            0nat
        }
    }
}

/// Sum of the tasks' waiting times.
pub open spec fn total_waiting(tasks: Seq<RuntimeTask>) -> nat
    decreases tasks.len(),
{
    if tasks.len() == 0 {
        0
    } else {
        total_waiting(tasks.drop_last()) + tasks.last().waiting_time as nat
    }
}

/// Turnaround of a task: from arrival to completion, or to `end` if it has not completed.
pub open spec fn turnaround(task: RuntimeTask, end: u64) -> nat {
    let finish = match task.completion_time {
        Some(c) => c,
        None => end,
    };
    if finish >= task.arrival { (finish - task.arrival) as nat } else { 0 }
}

/// Sum of the tasks' turnaround times.
pub open spec fn total_turnaround(tasks: Seq<RuntimeTask>, end: u64) -> nat
    decreases tasks.len(),
{
    if tasks.len() == 0 {
        0
    } else {
        total_turnaround(tasks.drop_last(), end) + turnaround(tasks.last(), end)
    }
}

/// Integer totals of one experiment, from which the averages are formed.
#[derive(Clone, Copy, Debug)]
pub struct ExperimentTotals {
    /// Number of completed tasks, at least 1 (the divisor of the averages).
    pub completed: u64,
    /// Sum of all waiting times.
    pub total_waiting: u64,
    /// Sum of all turnaround times.
    pub total_turnaround: u64,
    /// Number of tasks in the workload.
    pub task_count: u64,
    /// Number of starvation events.
    pub starvation_count: u64,
    /// Ticks the experiment ran.
    pub makespan: u64,
    /// Number of context switches.
    pub context_switches: u64,
}

/// The totals over a final task table: completed tasks (at least one), total
/// waiting and total turnaround, where an unfinished task counts until `end`.
pub fn summarize(tasks: &Vec<RuntimeTask>, end: u64) -> (r: (u64, u64, u64))
    requires
        forall|i: int| 0 <= i < tasks@.len() ==> #[trigger] tasks@[i].waiting_time <= MAX_TICKS,
        end <= MAX_TICKS,
        forall|i: int|
            0 <= i < tasks@.len() ==> match #[trigger] tasks@[i].completion_time {
                Some(c) => c <= MAX_TICKS,
                None => true,
            },
        tasks@.len() * MAX_TICKS <= u64::MAX,
    ensures
        r.0 == (if completed_count(tasks@) == 0 { 1 } else { completed_count(tasks@) }),
        r.1 == total_waiting(tasks@),
        r.2 == total_turnaround(tasks@, end),
{
    let mut completed: u64 = 0;
    let mut wait: u64 = 0;
    let mut turn: u64 = 0;
    let mut i: usize = 0;
    while i < tasks.len()
        invariant
            i <= tasks@.len(),
            tasks@.len() * MAX_TICKS <= u64::MAX,
            end <= MAX_TICKS,
            forall|j: int| 0 <= j < tasks@.len() ==> #[trigger] tasks@[j].waiting_time <= MAX_TICKS,
            forall|j: int|
                0 <= j < tasks@.len() ==> match #[trigger] tasks@[j].completion_time {
                    Some(c) => c <= MAX_TICKS,
                    None => true,
                },
            completed == completed_count(tasks@.subrange(0, i as int)),
            wait == total_waiting(tasks@.subrange(0, i as int)),
            turn == total_turnaround(tasks@.subrange(0, i as int), end),
            completed <= i,
            wait <= i * MAX_TICKS,
            turn <= i * MAX_TICKS,
        decreases tasks@.len() - i,
    {
        let t = tasks[i];
        proof {
            let s1 = tasks@.subrange(0, i + 1);
            assert(s1.drop_last() =~= tasks@.subrange(0, i as int));
            assert(s1.last() == t);
            assert((i + 1) * MAX_TICKS <= tasks@.len() * MAX_TICKS) by (nonlinear_arith)
                requires
                    i + 1 <= tasks@.len(),
            ;
            assert((i + 1) * MAX_TICKS == i * MAX_TICKS + MAX_TICKS) by (nonlinear_arith);
        }
        if t.completion_time.is_some() {
            completed += 1;
        }
        wait = wait + t.waiting_time;
        let finish = match t.completion_time {
            Some(c) => c,
            None => end,
        };
        turn = turn + finish.saturating_sub(t.arrival);
        i += 1;
    }
    proof {
        assert(tasks@.subrange(0, tasks@.len() as int) =~= tasks@);
    }
    let completed = if completed > 1 { completed } else { 1 };
    (completed, wait, turn)
}


/// A workload can be simulated without arithmetic overflow: its totals fit in
/// `u64` and no wake-up tick overflows.
pub open spec fn workload_fits(specs: Seq<TaskSpec>) -> bool {
    &&& specs.len() * MAX_TICKS <= u64::MAX
    &&& forall|i: int|
        0 <= i < specs.len() && io_interval(#[trigger] specs[i]) > 0 ==> specs[i].io_block <= u64::MAX
            - MAX_TICKS
}

/// Ticks a task has been charged with: waiting while ready, plus the ticks it ran.
pub open spec fn charged(t: RuntimeTask, s: TaskSpec) -> int {
    t.waiting_time + ticks_run(t, s)
}

/// The I/O interval of a task: its CPU ticks between two blocking waits, 0
/// when it never blocks.
pub open spec fn io_interval(s: TaskSpec) -> nat {
    match s.io_every {
        Some(e) => e as nat,
        None => 0,
    }
}

/// How many times the task has blocked for I/O: its completed bursts before
/// the current one.
pub open spec fn times_blocked(t: RuntimeTask, s: TaskSpec) -> nat {
    if io_interval(s) == 0 {
        0
    } else {
        ((ticks_run(t, s) - t.run_since_io) / (io_interval(s) as int)) as nat
    }
}

/// Ticks the task has spent blocked, counting a wait in progress in full.
pub open spec fn blocked_ticks(t: RuntimeTask, s: TaskSpec) -> nat {
    times_blocked(t, s) * (s.io_block as nat)
}

/// A finished task has blocked once after each full burst but its last.
proof fn lemma_times_blocked_done(t: RuntimeTask, s: TaskSpec)
    requires
        t.state == TaskState::Done,
        t.run_since_io >= 1,
        t.run_since_io <= ticks_run(t, s),
        io_interval(s) > 0 ==> {
            &&& (ticks_run(t, s) - t.run_since_io) % (io_interval(s) as int) == 0
            &&& t.run_since_io <= io_interval(s)
        },
    ensures
        times_blocked(t, s) == (if io_interval(s) == 0 || s.total_cpu == 0 {
            0
        } else {
            (s.total_cpu - 1) / (io_interval(s) as int)
        }),
{
    let e = io_interval(s) as int;
    if e > 0 {
        let x = ticks_run(t, s) - t.run_since_io;
        let r = t.run_since_io as int;
        if s.total_cpu == 0 {
            assert(ticks_run(t, s) == 1);
            assert(x == 0);
            assert(0int / e == 0) by (nonlinear_arith)
                requires
                    e > 0,
            ;
        } else {
            assert(ticks_run(t, s) == s.total_cpu);
            assert(x / e == (x + (r - 1)) / e) by (nonlinear_arith)
                requires
                    e > 0,
                    x >= 0,
                    x % e == 0,
                    0 <= r - 1 < e,
            {
                vstd::arithmetic::div_mod::lemma_fundamental_div_mod(x, e);
                vstd::arithmetic::div_mod::lemma_fundamental_div_mod_converse(
                    x + (r - 1),
                    e,
                    x / e,
                    r - 1,
                );
            }
        }
    }
}

/// A task that has not run has not blocked.
proof fn lemma_none_blocked_yet(t: RuntimeTask, s: TaskSpec)
    requires
        ticks_run(t, s) == 0,
        t.run_since_io == 0,
    ensures
        blocked_ticks(t, s) == 0,
{
    if io_interval(s) > 0 {
        assert(0int / (io_interval(s) as int) == 0) by (nonlinear_arith)
            requires
                io_interval(s) > 0,
        ;
        assert(ticks_run(t, s) - t.run_since_io == 0);
    }
    assert(times_blocked(t, s) == 0);
    assert(blocked_ticks(t, s) == 0);
}

/// The facts that hold of one task during tick `now` of a simulation.
///
/// A task whose demand is used up is done, unless it had none; new tasks
/// have not arrived before `new_after`; a blocked task wakes no
/// earlier than `blocked_after`; an arrived task has been charged at most one
/// tick per tick since its arrival (plus the current tick, when `extra` is set
/// and it is ready); a finished task's waiting time plus CPU demand (at least
/// one tick) fits in its turnaround.
pub open spec fn task_ok(
    t: RuntimeTask,
    s: TaskSpec,
    now: int,
    new_after: int,
    blocked_after: int,
    extra: bool,
) -> bool {
    &&& t.class == s.class
    &&& t.arrival == s.arrival
    &&& t.io_every == s.io_every
    &&& t.io_block == s.io_block
    &&& t.remaining_cpu <= s.total_cpu
    &&& t.remaining_cpu == 0 && t.state != TaskState::Done ==> s.total_cpu == 0
    &&& t.run_since_io <= now
    &&& t.state == TaskState::New ==> {
        &&& t.arrival >= new_after
        &&& t.waiting_time == 0
        &&& t.remaining_cpu == s.total_cpu
        &&& t.completion_time.is_none()
        &&& t.run_since_io == 0
    }
    &&& t.state != TaskState::New ==> {
        &&& t.arrival <= now
        &&& charged(t, s) <= now - t.arrival + (if extra && t.state == TaskState::Ready {
            1int
        } else {
            0int
        })
    }
    &&& t.run_since_io <= ticks_run(t, s)
    &&& io_interval(s) > 0 ==> {
        &&& (ticks_run(t, s) - t.run_since_io) % (io_interval(s) as int) == 0
        &&& t.run_since_io <= io_interval(s)
        &&& t.state != TaskState::Done ==> t.run_since_io < io_interval(s)
    }
    &&& t.state != TaskState::New ==> charged(t, s) + blocked_ticks(t, s) == (match t.state {
        TaskState::Blocked => t.unblock_at.unwrap() - t.arrival,
        TaskState::Done => t.completion_time.unwrap() - t.arrival,
        _ => now - t.arrival + (if extra && t.state == TaskState::Ready {
            1int
        } else {
            0int
        }),
    })
    &&& t.state == TaskState::Ready ==> {
        &&& t.ready_since.is_some()
        &&& t.arrival <= t.ready_since.unwrap() <= now
    }
    &&& t.state == TaskState::Blocked ==> {
        &&& t.unblock_at.is_some()
        &&& t.unblock_at.unwrap() >= blocked_after
        &&& io_interval(s) > 0
    }
    &&& (t.state == TaskState::Done) == t.completion_time.is_some()
    &&& t.state == TaskState::Done ==> {
        &&& t.remaining_cpu == 0
        &&& t.completion_time.unwrap() <= now
        &&& charged(t, s) <= t.completion_time.unwrap() - t.arrival
        &&& t.run_since_io >= 1
    }
}

/// `task_ok` for every task of the table.
pub open spec fn tasks_ok(
    tasks: Seq<RuntimeTask>,
    specs: Seq<TaskSpec>,
    now: int,
    new_after: int,
    blocked_after: int,
    extra: bool,
) -> bool {
    &&& tasks.len() == specs.len()
    &&& forall|i: int|
        0 <= i < tasks.len() ==> #[trigger] task_ok(
            tasks[i],
            specs[i],
            now,
            new_after,
            blocked_after,
            extra,
        )
}

/// The policy's pool holds exactly the ready tasks, each once.
pub open spec fn pool_matches(pool: Multiset<usize>, tasks: Seq<RuntimeTask>) -> bool {
    forall|id: usize|
        #[trigger] pool.count(id) == (if id < tasks.len() && tasks[id as int].state
            == TaskState::Ready {
            1nat
        } else {
            0nat
        })
}

/// `running` names the one running task, if there is one.
pub open spec fn running_matches(running: Option<usize>, tasks: Seq<RuntimeTask>) -> bool {
    &&& match running {
        Some(r) => r < tasks.len() && tasks[r as int].state == TaskState::Running,
        None => true,
    }
    &&& forall|i: int|
        0 <= i < tasks.len() && #[trigger] tasks[i].state == TaskState::Running ==> running == Some(
            i as usize,
        )
}

/// The whole simulation state is consistent during tick `now`.
pub open spec fn sim_ok<S: Scheduler>(
    tasks: Seq<RuntimeTask>,
    sched: S,
    running: Option<usize>,
    specs: Seq<TaskSpec>,
    now: u64,
    new_after: int,
    blocked_after: int,
    extra: bool,
) -> bool {
    &&& tasks_ok(tasks, specs, now as int, new_after, blocked_after, extra)
    &&& pool_matches(sched.pool(), tasks)
    &&& running_matches(running, tasks)
    &&& sched.wf()
    &&& sched.fresh_at(now)
    &&& levels_ok(tasks)
    &&& workload_fits(specs)
}

/// Changes confined to policy-owned fields keep the simulation's facts.
proof fn lemma_policy_keeps(
    a: Seq<RuntimeTask>,
    b: Seq<RuntimeTask>,
    specs: Seq<TaskSpec>,
    pool: Multiset<usize>,
    running: Option<usize>,
    now: int,
    new_after: int,
    blocked_after: int,
    extra: bool,
)
    requires
        policy_only(a, b),
    ensures
        tasks_ok(a, specs, now, new_after, blocked_after, extra) ==> tasks_ok(
            b,
            specs,
            now,
            new_after,
            blocked_after,
            extra,
        ),
        pool_matches(pool, a) ==> pool_matches(pool, b),
        running_matches(running, a) ==> running_matches(running, b),
{
    if tasks_ok(a, specs, now, new_after, blocked_after, extra) {
        assert forall|i: int| 0 <= i < b.len() implies #[trigger] task_ok(
            b[i],
            specs[i],
            now,
            new_after,
            blocked_after,
            extra,
        ) by {
            assert(same_but_policy(a[i], b[i]));
            assert(task_ok(a[i], specs[i], now, new_after, blocked_after, extra));
        }
    }
    if pool_matches(pool, a) {
        assert forall|id: usize| #[trigger] pool.count(id) == (if id < b.len() && b[id as int].state
            == TaskState::Ready {
            1nat
        } else {
            0nat
        }) by {
            if id < b.len() {
                assert(same_but_policy(a[id as int], b[id as int]));
            }
        }
    }
    if running_matches(running, a) {
        assert forall|i: int|
            0 <= i < b.len() && #[trigger] b[i].state == TaskState::Running implies running == Some(
            i as usize,
        ) by {
            assert(same_but_policy(a[i], b[i]));
        }
        if let Some(r) = running {
            assert(same_but_policy(a[r as int], b[r as int]));
        }
    }
}

/// Step 1 of a tick: every blocked task whose wake-up tick is `now` becomes
/// ready (in index order) and the policy is told.
fn wake_step<S: Scheduler>(
    tasks: &mut Vec<RuntimeTask>,
    sched: &mut S,
    Ghost(running): Ghost<Option<usize>>,
    now: u64,
    Ghost(specs): Ghost<Seq<TaskSpec>>,
    Ghost(st): Ghost<SimState<S::V>>,
)
    requires
        sim_ok(old(tasks)@, *old(sched), running, specs, now, now as int, now as int, false),
        st.tasks == old(tasks)@,
        st.policy == old(sched)@,
    ensures
        sim_ok(final(tasks)@, *final(sched), running, specs, now, now as int, now + 1, false),
        same_progress(old(tasks)@, final(tasks)@),
        woken::<S>(st, now, st.tasks.len() as int) == (SimState {
            tasks: final(tasks)@,
            policy: final(sched)@,
            ..st
        }),
{
    let n_tasks = tasks.len();
    let mut tid: usize = 0;
    while tid < n_tasks
        invariant
            tasks@.len() == n_tasks,
            st.tasks.len() == n_tasks,
            tid <= n_tasks,
            sim_ok(tasks@, *sched, running, specs, now, now as int, now as int, false),
            forall|i: int|
                0 <= i < tid && #[trigger] tasks@[i].state == TaskState::Blocked
                    ==> tasks@[i].unblock_at.unwrap() >= now + 1,
            woken::<S>(st, now, tid as int) == (SimState { tasks: tasks@, policy: sched@, ..st }),
            same_progress(st.tasks, tasks@),
        decreases n_tasks - tid,
    {
        let ghost t0 = tasks@;
        if tasks[tid].state == TaskState::Blocked && tasks[tid].unblock_at == Some(now) {
            tasks[tid].unblock_at = None;
            tasks[tid].state = TaskState::Ready;
            tasks[tid].ready_since = Some(now);
            proof {
                assert(tasks@ =~= t0.update(
                    tid as int,
                    RuntimeTask {
                        unblock_at: None,
                        state: TaskState::Ready,
                        ready_since: Some(now),
                        ..t0[tid as int]
                    },
                ));
                assert(sched.pool().count(tid) == 0);
                assert(tasks_ok(tasks@, specs, now as int, now as int, now as int, false)) by {
                    assert forall|i: int| 0 <= i < tasks@.len() implies #[trigger] task_ok(
                        tasks@[i],
                        specs[i],
                        now as int,
                        now as int,
                        now as int,
                        false,
                    ) by {
                        assert(task_ok(t0[i], specs[i], now as int, now as int, now as int, false));
                    }
                }
                assert(distinct_below(sched.pool().insert(tid), tasks@.len() as nat));
            }
            let ghost t1 = tasks@;
            let ghost pool1 = sched.pool();
            sched.on_wakeup(tid, tasks, now);
            proof {
                lemma_policy_keeps(t1, tasks@, specs, pool1.insert(tid), running, now as int, now as int, now as int, false);
                assert(pool_matches(pool1.insert(tid), t1)) by {
                    assert forall|id: usize| #[trigger] pool1.insert(tid).count(id) == (if id < t1.len() && t1[id as int].state
                        == TaskState::Ready {
                        1nat
                    } else {
                        0nat
                    }) by {
                        assert(pool1.count(id) == (if id < t0.len() && t0[id as int].state == TaskState::Ready { 1nat } else { 0nat }));
                    }
                }
                assert(running_matches(running, t1)) by {
                    assert forall|i: int|
                        0 <= i < t1.len() && #[trigger] t1[i].state == TaskState::Running implies running == Some(
                        i as usize,
                    ) by {
                        assert(t0[i].state == TaskState::Running);
                    }
                }
                assert forall|i: int|
                    0 <= i < tid + 1 && #[trigger] tasks@[i].state == TaskState::Blocked
                        implies tasks@[i].unblock_at.unwrap() >= now + 1 by {
                    assert(same_but_policy(t1[i], tasks@[i]));
                }
                assert(woken::<S>(st, now, tid + 1) == (SimState { tasks: tasks@, policy: sched@, ..st }));
                assert forall|i: int| 0 <= i < st.tasks.len() implies (#[trigger] tasks@[i]).remaining_cpu
                    == st.tasks[i].remaining_cpu && (tasks@[i].state == TaskState::Done) == (
                    st.tasks[i].state == TaskState::Done) by {
                    assert(same_but_policy(t1[i], tasks@[i]));
                    assert(t0[i].remaining_cpu == st.tasks[i].remaining_cpu);
                }
            }
        } else {
            proof {
                assert(task_ok(t0[tid as int], specs[tid as int], now as int, now as int, now as int, false));
                assert(woken::<S>(st, now, tid + 1) == woken::<S>(st, now, tid as int));
            }
        }
        tid += 1;
    }
    proof {
        assert(tasks_ok(tasks@, specs, now as int, now as int, now + 1, false)) by {
            assert forall|i: int| 0 <= i < tasks@.len() implies #[trigger] task_ok(
                tasks@[i],
                specs[i],
                now as int,
                now as int,
                now + 1,
                false,
            ) by {
                assert(task_ok(tasks@[i], specs[i], now as int, now as int, now as int, false));
            }
        }
    }
}

/// Step 2 of a tick: every new task whose arrival tick has come becomes ready
/// (in index order) and is queued with the policy.
fn arrive_step<S: Scheduler>(
    tasks: &mut Vec<RuntimeTask>,
    sched: &mut S,
    Ghost(running): Ghost<Option<usize>>,
    now: u64,
    Ghost(specs): Ghost<Seq<TaskSpec>>,
    Ghost(st): Ghost<SimState<S::V>>,
)
    requires
        sim_ok(old(tasks)@, *old(sched), running, specs, now, now as int, now + 1, false),
        st.tasks == old(tasks)@,
        st.policy == old(sched)@,
    ensures
        sim_ok(final(tasks)@, *final(sched), running, specs, now, now + 1, now + 1, false),
        same_progress(old(tasks)@, final(tasks)@),
        arrived::<S>(st, now, st.tasks.len() as int) == (SimState {
            tasks: final(tasks)@,
            policy: final(sched)@,
            ..st
        }),
{
    let n_tasks = tasks.len();
    let mut tid: usize = 0;
    while tid < n_tasks
        invariant
            tasks@.len() == n_tasks,
            st.tasks.len() == n_tasks,
            tid <= n_tasks,
            sim_ok(tasks@, *sched, running, specs, now, now as int, now + 1, false),
            forall|i: int|
                0 <= i < tid && #[trigger] tasks@[i].state == TaskState::New ==> tasks@[i].arrival
                    >= now + 1,
            arrived::<S>(st, now, tid as int) == (SimState { tasks: tasks@, policy: sched@, ..st }),
            same_progress(st.tasks, tasks@),
        decreases n_tasks - tid,
    {
        let ghost t0 = tasks@;
        if tasks[tid].state == TaskState::New && tasks[tid].arrival <= now {
            tasks[tid].state = TaskState::Ready;
            tasks[tid].ready_since = Some(now);
            proof {
                assert(tasks@ =~= t0.update(
                    tid as int,
                    RuntimeTask { state: TaskState::Ready, ready_since: Some(now), ..t0[tid as int] },
                ));
                assert(sched.pool().count(tid) == 0);
                assert(tasks_ok(tasks@, specs, now as int, now as int, now + 1, false)) by {
                    assert forall|i: int| 0 <= i < tasks@.len() implies #[trigger] task_ok(
                        tasks@[i],
                        specs[i],
                        now as int,
                        now as int,
                        now + 1,
                        false,
                    ) by {
                        assert(task_ok(t0[i], specs[i], now as int, now as int, now + 1, false));
                        if i == tid as int {
                            lemma_none_blocked_yet(tasks@[i], specs[i]);
                        }
                    }
                }
                assert(distinct_below(sched.pool().insert(tid), tasks@.len() as nat));
            }
            let ghost t1 = tasks@;
            let ghost pool1 = sched.pool();
            sched.enqueue(tid, tasks, now);
            proof {
                lemma_policy_keeps(
                    t1,
                    tasks@,
                    specs,
                    pool1.insert(tid),
                    running,
                    now as int,
                    now as int,
                    now + 1,
                    false,
                );
                assert(pool_matches(pool1.insert(tid), t1)) by {
                    assert forall|id: usize| #[trigger] pool1.insert(tid).count(id) == (if id < t1.len()
                        && t1[id as int].state == TaskState::Ready {
                        1nat
                    } else {
                        0nat
                    }) by {
                        assert(pool1.count(id) == (if id < t0.len() && t0[id as int].state
                            == TaskState::Ready {
                            1nat
                        } else {
                            0nat
                        }));
                    }
                }
                assert(running_matches(running, t1)) by {
                    assert forall|i: int|
                        0 <= i < t1.len() && #[trigger] t1[i].state == TaskState::Running implies running
                        == Some(i as usize) by {
                        assert(t0[i].state == TaskState::Running);
                    }
                }
                assert forall|i: int|
                    0 <= i < tid + 1 && #[trigger] tasks@[i].state == TaskState::New implies tasks@[i].arrival
                        >= now + 1 by {
                    assert(same_but_policy(t1[i], tasks@[i]));
                }
                assert(arrived::<S>(st, now, tid + 1) == (SimState { tasks: tasks@, policy: sched@, ..st }));
                assert forall|i: int| 0 <= i < st.tasks.len() implies (#[trigger] tasks@[i]).remaining_cpu
                    == st.tasks[i].remaining_cpu && (tasks@[i].state == TaskState::Done) == (
                    st.tasks[i].state == TaskState::Done) by {
                    assert(same_but_policy(t1[i], tasks@[i]));
                    assert(t0[i].remaining_cpu == st.tasks[i].remaining_cpu);
                }
            }
        } else {
            proof {
                assert(arrived::<S>(st, now, tid + 1) == arrived::<S>(st, now, tid as int));
            }
        }
        tid += 1;
    }
    proof {
        assert(tasks_ok(tasks@, specs, now as int, now + 1, now + 1, false)) by {
            assert forall|i: int| 0 <= i < tasks@.len() implies #[trigger] task_ok(
                tasks@[i],
                specs[i],
                now as int,
                now + 1,
                now + 1,
                false,
            ) by {
                assert(task_ok(tasks@[i], specs[i], now as int, now as int, now + 1, false));
            }
        }
    }
}

/// The switch log records only real switches (from one occupant of the CPU
/// to another), in time order, none after tick `now`.
pub open spec fn log_ok(events: Seq<ContextSwitchEvent>, now: int) -> bool {
    &&& forall|k: int|
        0 <= k < events.len() ==> #[trigger] events[k].from != events[k].to && events[k].ts <= now
    &&& forall|a: int, b: int| 0 <= a <= b < events.len() ==> events[a].ts <= events[b].ts
}

/// Appending a real switch at tick `t` (or nothing) keeps the log in order.
proof fn lemma_log_extend(before: Seq<ContextSwitchEvent>, after: Seq<ContextSwitchEvent>, now: int, t: int)
    requires
        log_ok(before, now),
        now <= t,
        after == before || (after.len() == before.len() + 1 && after.drop_last() == before
            && after.last().from != after.last().to && after.last().ts == t),
    ensures
        log_ok(after, t),
{
    if after != before {
        let n = before.len() as int;
        assert forall|k: int| 0 <= k < n implies after[k] == before[k] by {
            assert(after.drop_last()[k] == after[k]);
        }
        assert(after[n] == after.last());
        assert forall|k: int| 0 <= k < after.len() implies #[trigger] after[k].from != after[k].to
            && after[k].ts <= t by {
            if k < n {
                assert(before[k].ts <= now);
            }
        }
        assert forall|a: int, b: int| 0 <= a <= b < after.len() implies after[a].ts <= after[b].ts by {
            if b < n {
                assert(before[a].ts <= before[b].ts);
            } else if a < n {
                assert(before[a].from != before[a].to && before[a].ts <= now);
                assert(after[a] == before[a]);
            }
        }
    }
}

/// The switch log links up: every switch goes between an idle CPU and a task
/// below `n`; each leaves what the previous one started (the first leaves an
/// idle CPU); and a switch away from a task reports as its run fragment the
/// ticks since the previous switch.
pub open spec fn log_links(events: Seq<ContextSwitchEvent>, n: nat) -> bool {
    &&& forall|k: int|
        0 <= k < events.len() ==> (#[trigger] events[k]).from.is_none() == events[k].to.is_some()
    &&& forall|k: int|
        0 <= k < events.len() ==> match (#[trigger] events[k]).from {
            Some(t) => t < n,
            None => true,
        } && match events[k].to {
            Some(t) => t < n,
            None => true,
        }
    &&& forall|k: int|
        0 <= k < events.len() ==> (#[trigger] events[k]).from == (if k == 0 {
            None
        } else {
            events[k - 1].to
        })
    &&& forall|k: int|
        0 <= k < events.len() ==> (#[trigger] events[k]).run_fragment == (if events[k].from.is_some() {
            (events[k].ts - events[k - 1].ts) as u64
        } else {
            0
        })
}

/// The log links up, and its last switch started the current occupant of the
/// CPU (at `run_start`, when that is a task); with no switch yet the CPU is idle.
pub open spec fn log_chains(
    events: Seq<ContextSwitchEvent>,
    running: Option<usize>,
    run_start: u64,
    n: nat,
) -> bool {
    &&& log_links(events, n)
    &&& running == (if events.len() == 0 { None } else { events.last().to })
    &&& running.is_some() ==> run_start == events.last().ts
}

/// Logging a switch from the current occupant to `next` keeps the log chained.
proof fn lemma_chain_extend(
    before: Seq<ContextSwitchEvent>,
    running: Option<usize>,
    run_start: u64,
    next: Option<usize>,
    ts: u64,
    ready_len: usize,
    n: nat,
)
    requires
        log_chains(before, running, run_start, n),
        running.is_none() == next.is_some(),
        match running {
            Some(t) => t < n,
            None => true,
        },
        match next {
            Some(t) => t < n,
            None => true,
        },
        before.len() > 0 ==> before.last().ts <= ts,
    ensures
        log_chains(
            before.push(
                ContextSwitchEvent {
                    ts,
                    from: running,
                    to: next,
                    ready_len,
                    run_fragment: if running.is_some() {
                        if ts >= run_start { (ts - run_start) as u64 } else { 0 }
                    } else {
                        0
                    },
                },
            ),
            next,
            ts,
            n,
        ),
{
    let after = before.push(
        ContextSwitchEvent {
            ts,
            from: running,
            to: next,
            ready_len,
            run_fragment: if running.is_some() {
                if ts >= run_start { (ts - run_start) as u64 } else { 0 }
            } else {
                0
            },
        },
    );
    let m = before.len() as int;
    assert forall|k: int| 0 <= k < m implies after[k] == before[k] by {}
    assert forall|k: int| 0 <= k < after.len() implies (#[trigger] after[k]).from == (if k == 0 {
        None
    } else {
        after[k - 1].to
    }) by {
        if k < m {
            assert(before[k].from == (if k == 0 { None } else { before[k - 1].to }));
        }
    }
    assert forall|k: int| 0 <= k < after.len() implies (#[trigger] after[k]).run_fragment == (if after[k].from.is_some() {
        (after[k].ts - after[k - 1].ts) as u64
    } else {
        0
    }) by {
        if k < m {
            assert(before[k].run_fragment == (if before[k].from.is_some() {
                (before[k].ts - before[k - 1].ts) as u64
            } else {
                0
            }));
        }
    }
    assert forall|k: int| 0 <= k < after.len() implies (#[trigger] after[k]).from.is_none()
        == after[k].to.is_some() by {
        if k < m {
            assert(before[k].from.is_none() == before[k].to.is_some());
        }
    }
    assert forall|k: int| 0 <= k < after.len() implies match (#[trigger] after[k]).from {
        Some(t) => t < n,
        None => true,
    } && match after[k].to {
        Some(t) => t < n,
        None => true,
    } by {
        if k < m {
            assert(match before[k].from {
                Some(t) => t < n,
                None => true,
            } && match before[k].to {
                Some(t) => t < n,
                None => true,
            });
        }
    }
}

/// Ticks the CPU has given a task: its whole demand (at least one tick) once
/// it is done, the demand consumed so far before.
pub open spec fn ticks_run(t: RuntimeTask, s: TaskSpec) -> nat {
    if t.state == TaskState::Done {
        if s.total_cpu == 0 { 1 } else { s.total_cpu as nat }
    } else {
        (s.total_cpu - t.remaining_cpu) as nat
    }
}

/// Ticks the CPU has given the first `k` tasks.
pub open spec fn total_ticks_run(tasks: Seq<RuntimeTask>, specs: Seq<TaskSpec>, k: int) -> nat
    decreases k,
{
    if k <= 0 {
        0
    } else {
        total_ticks_run(tasks, specs, k - 1) + ticks_run(tasks[k - 1], specs[k - 1])
    }
}

/// CPU demand of the first `k` tasks, each counted as at least one tick.
pub open spec fn total_demand(specs: Seq<TaskSpec>, k: int) -> nat
    decreases k,
{
    if k <= 0 {
        0
    } else {
        total_demand(specs, k - 1) + if specs[k - 1].total_cpu == 0 {
            1
        } else {
            specs[k - 1].total_cpu as nat
        }
    }
}

/// Sum of the run fragments of a switch log.
pub open spec fn fragment_sum(events: Seq<ContextSwitchEvent>) -> nat
    decreases events.len(),
{
    if events.len() == 0 {
        0
    } else {
        fragment_sum(events.drop_last()) + events.last().run_fragment as nat
    }
}

/// Two task tables agree on what the CPU has given each task.
pub open spec fn same_progress(a: Seq<RuntimeTask>, b: Seq<RuntimeTask>) -> bool {
    &&& a.len() == b.len()
    &&& forall|i: int|
        0 <= i < a.len() ==> (#[trigger] b[i]).remaining_cpu == a[i].remaining_cpu && (b[i].state
            == TaskState::Done) == (a[i].state == TaskState::Done)
}

/// The CPU time accounted so far: the logged run fragments plus the current
/// occupant's ticks since it started are the ticks run by all tasks, and the
/// fragments fit before the last switch.
pub open spec fn progress_ok(
    events: Seq<ContextSwitchEvent>,
    running: Option<usize>,
    run_start: u64,
    now: int,
    tasks: Seq<RuntimeTask>,
    specs: Seq<TaskSpec>,
) -> bool {
    &&& fragment_sum(events) + (if running.is_some() { now - run_start } else { 0 })
        == total_ticks_run(tasks, specs, tasks.len() as int)
    &&& running.is_some() ==> run_start <= now
    &&& fragment_sum(events) <= (if events.len() == 0 { 0 } else { events.last().ts as int })
}

/// Tables with the same progress have run the same ticks.
proof fn lemma_same_progress_ticks(a: Seq<RuntimeTask>, b: Seq<RuntimeTask>, specs: Seq<TaskSpec>, k: int)
    requires
        same_progress(a, b),
        k <= a.len(),
    ensures
        total_ticks_run(a, specs, k) == total_ticks_run(b, specs, k),
    decreases k,
{
    if k > 0 {
        lemma_same_progress_ticks(a, b, specs, k - 1);
        assert(b[k - 1].remaining_cpu == a[k - 1].remaining_cpu);
    }
}

/// Changing one task's progress changes the total by the difference.
proof fn lemma_ticks_one_changed(
    a: Seq<RuntimeTask>,
    b: Seq<RuntimeTask>,
    specs: Seq<TaskSpec>,
    j: int,
    k: int,
)
    requires
        a.len() == b.len(),
        0 <= j < a.len(),
        k <= a.len(),
        forall|i: int|
            0 <= i < a.len() && i != j ==> (#[trigger] b[i]).remaining_cpu == a[i].remaining_cpu
                && (b[i].state == TaskState::Done) == (a[i].state == TaskState::Done),
    ensures
        total_ticks_run(b, specs, k) + (if j < k { ticks_run(a[j], specs[j]) as int } else { 0 })
            == total_ticks_run(a, specs, k) + (if j < k { ticks_run(b[j], specs[j]) as int } else { 0 }),
    decreases k,
{
    if k > 0 {
        lemma_ticks_one_changed(a, b, specs, j, k - 1);
        if k - 1 != j {
            assert(b[k - 1].remaining_cpu == a[k - 1].remaining_cpu);
        }
    }
}

/// When every task is done, the turnarounds add up to at least the waiting
/// times plus the CPU demand.
proof fn lemma_turnaround_covers(
    tasks: Seq<RuntimeTask>,
    specs: Seq<TaskSpec>,
    end: u64,
    k: int,
)
    requires
        0 <= k <= tasks.len(),
        tasks.len() == specs.len(),
        forall|i: int|
            0 <= i < tasks.len() ==> #[trigger] tasks[i].state == TaskState::Done
                && tasks[i].completion_time.is_some() && charged(tasks[i], specs[i])
                <= tasks[i].completion_time.unwrap() - tasks[i].arrival,
    ensures
        total_turnaround(tasks.subrange(0, k), end) >= total_waiting(tasks.subrange(0, k))
            + total_demand(specs, k),
    decreases k,
{
    if k > 0 {
        lemma_turnaround_covers(tasks, specs, end, k - 1);
        let sub = tasks.subrange(0, k);
        assert(sub.drop_last() =~= tasks.subrange(0, k - 1));
        assert(sub.last() == tasks[k - 1]);
        assert(tasks[k - 1].state == TaskState::Done);
    }
}

/// Before any tick no task has run.
proof fn lemma_no_ticks_yet(tasks: Seq<RuntimeTask>, specs: Seq<TaskSpec>, k: int)
    requires
        k <= tasks.len(),
        forall|i: int| 0 <= i < tasks.len() ==> #[trigger] tasks[i] == initial_task(specs[i]),
    ensures
        total_ticks_run(tasks, specs, k) == 0,
    decreases k,
{
    if k > 0 {
        lemma_no_ticks_yet(tasks, specs, k - 1);
        assert(tasks[k - 1] == initial_task(specs[k - 1]));
    }
}

/// When every task is done, the ticks run are the total demand.
proof fn lemma_done_ticks(tasks: Seq<RuntimeTask>, specs: Seq<TaskSpec>, k: int)
    requires
        k <= tasks.len(),
        forall|i: int| 0 <= i < tasks.len() ==> #[trigger] tasks[i].state == TaskState::Done,
    ensures
        total_ticks_run(tasks, specs, k) == total_demand(specs, k),
    decreases k,
{
    if k > 0 {
        lemma_done_ticks(tasks, specs, k - 1);
        assert(tasks[k - 1].state == TaskState::Done);
    }
}

/// The switches to interactive tasks in a log, in order: tick and task.
pub open spec fn interactive_switches(events: Seq<ContextSwitchEvent>, specs: Seq<TaskSpec>) -> Seq<
    (u64, usize),
>
    decreases events.len(),
{
    if events.len() == 0 {
        Seq::empty()
    } else {
        let rest = interactive_switches(events.drop_last(), specs);
        match events.last().to {
            Some(t) => if t < specs.len() && specs[t as int].class == TaskClass::Interactive {
                rest.push((events.last().ts, t))
            } else {
                rest
            },
            None => rest,
        }
    }
}

/// The latency samples are one per switch to an interactive task, in order,
/// each no longer than the time from the task's arrival to that switch.
pub open spec fn latencies_match(
    latencies: Seq<u64>,
    events: Seq<ContextSwitchEvent>,
    specs: Seq<TaskSpec>,
) -> bool {
    let sw = interactive_switches(events, specs);
    &&& latencies.len() == sw.len()
    &&& forall|k: int|
        0 <= k < latencies.len() ==> #[trigger] latencies[k] + specs[sw[k].1 as int].arrival <= sw[k].0
}

/// Logging a switch to an interactive task together with its sample keeps
/// the samples matched to the switches.
proof fn lemma_latency_push(
    lat: Seq<u64>,
    events: Seq<ContextSwitchEvent>,
    specs: Seq<TaskSpec>,
    e: ContextSwitchEvent,
    t: usize,
    sample: u64,
)
    requires
        latencies_match(lat, events, specs),
        e.to == Some(t),
        t < specs.len(),
        specs[t as int].class == TaskClass::Interactive,
        sample + specs[t as int].arrival <= e.ts,
    ensures
        latencies_match(lat.push(sample), events.push(e), specs),
{
    assert(events.push(e).drop_last() =~= events);
    let sw = interactive_switches(events, specs);
    let sw2 = interactive_switches(events.push(e), specs);
    assert(sw2 == sw.push((e.ts, t)));
    let l2 = lat.push(sample);
    assert forall|k: int| 0 <= k < l2.len() implies #[trigger] l2[k] + specs[sw2[k].1 as int].arrival
        <= sw2[k].0 by {
        if k < lat.len() {
            assert(l2[k] == lat[k] && sw2[k] == sw[k]);
        }
    }
}

/// Logging a switch that starts no interactive task keeps the samples matched.
proof fn lemma_latency_none(
    lat: Seq<u64>,
    events: Seq<ContextSwitchEvent>,
    specs: Seq<TaskSpec>,
    e: ContextSwitchEvent,
)
    requires
        latencies_match(lat, events, specs),
        match e.to {
            Some(t) => t < specs.len() && specs[t as int].class != TaskClass::Interactive,
            None => true,
        },
    ensures
        latencies_match(lat, events.push(e), specs),
{
    assert(events.push(e).drop_last() =~= events);
    assert(interactive_switches(events.push(e), specs) == interactive_switches(events, specs));
}

/// No task of the workload is interactive.
pub open spec fn no_interactive(specs: Seq<TaskSpec>) -> bool {
    forall|i: int| 0 <= i < specs.len() ==> #[trigger] specs[i].class != TaskClass::Interactive
}

/// Step 3 of a tick: an idle CPU takes the task the policy picks, if any.
#[verifier::rlimit(30)]
fn pick_step<S: Scheduler>(
    tasks: &mut Vec<RuntimeTask>,
    sched: &mut S,
    running: &mut Option<usize>,
    run_start: &mut u64,
    now: u64,
    events: &mut Vec<ContextSwitchEvent>,
    interactive_latencies: &mut Vec<u64>,
    Ghost(specs): Ghost<Seq<TaskSpec>>,
    Ghost(st): Ghost<SimState<S::V>>,
)
    requires
        sim_ok(old(tasks)@, *old(sched), *old(running), specs, now, now + 1, now + 1, false),
        log_ok(old(events)@, now as int),
        log_chains(old(events)@, *old(running), *old(run_start), old(tasks)@.len()),
        progress_ok(old(events)@, *old(running), *old(run_start), now as int, old(tasks)@, specs),
        latencies_match(old(interactive_latencies)@, old(events)@, specs),
        st == (SimState {
            tasks: old(tasks)@,
            policy: old(sched)@,
            running: *old(running),
            run_start: *old(run_start),
            latencies: old(interactive_latencies)@,
            events: old(events)@,
            ..st
        }),
    ensures
        picked::<S>(st, now) == (SimState {
            tasks: final(tasks)@,
            policy: final(sched)@,
            running: *final(running),
            run_start: *final(run_start),
            latencies: final(interactive_latencies)@,
            events: final(events)@,
            ..st
        }),
        sim_ok(
            final(tasks)@,
            *final(sched),
            *final(running),
            specs,
            now,
            now + 1,
            now + 1,
            false,
        ),
        log_ok(final(events)@, now as int),
        log_chains(final(events)@, *final(running), *final(run_start), final(tasks)@.len()),
        progress_ok(final(events)@, *final(running), *final(run_start), now as int, final(tasks)@, specs),
        latencies_match(final(interactive_latencies)@, final(events)@, specs),
        no_interactive(specs) ==> final(interactive_latencies)@ == old(interactive_latencies)@,
        old(running).is_some() ==> {
            &&& *final(running) == *old(running)
            &&& *final(run_start) == *old(run_start)
            &&& *final(sched) == *old(sched)
            &&& final(tasks)@ == old(tasks)@
            &&& final(events)@ == old(events)@
            &&& final(interactive_latencies)@ == old(interactive_latencies)@
        },
        old(running).is_none() ==> match *final(running) {
            None => {
                &&& old(sched).pool().len() == 0
                &&& final(sched).pool() == old(sched).pool()
                &&& final(events)@ == old(events)@
            },
            Some(t) => {
                &&& old(sched).pool().count(t) > 0
                &&& final(sched).pool() == old(sched).pool().remove(t)
                &&& final(tasks)@[t as int].state == TaskState::Running
                &&& *final(run_start) == now
                &&& final(events)@ == old(events)@.push(
                    ContextSwitchEvent {
                        ts: now,
                        from: None,
                        to: Some(t),
                        ready_len: final(sched).pool().len() as usize,
                        run_fragment: 0,
                    },
                )
            },
        },
        final(running).is_none() ==> forall|i: int|
            0 <= i < final(tasks)@.len() ==> #[trigger] final(tasks)@[i].state != TaskState::Ready,
{
    let ghost ev0 = events@;
    let ghost lat0 = interactive_latencies@;
    if running.is_none() {
        let ghost t0 = tasks@;
        let ghost pool0 = sched.pool();
        match sched.pick_next(tasks, now) {
            Some(next) => {
                let ghost t1 = tasks@;
                proof {
                    lemma_policy_keeps(
                        t0,
                        t1,
                        specs,
                        pool0,
                        *running,
                        now as int,
                        now + 1,
                        now + 1,
                        false,
                    );
                    assert(pool0.count(next) == (if next < t0.len() && t0[next as int].state
                        == TaskState::Ready {
                        1nat
                    } else {
                        0nat
                    }));
                    assert(same_but_policy(t0[next as int], t1[next as int]));
                }
                let ready_len = sched.ready_len();
                let ghost rs0 = *run_start;
                switch_context(
                    running,
                    run_start,
                    Some(next),
                    now,
                    tasks,
                    ready_len,
                    events,
                    interactive_latencies,
                );
                proof {
                    lemma_chain_extend(ev0, None, rs0, Some(next), now, ready_len, t1.len());
                    assert(t1[next as int].state == TaskState::Ready);
                    assert(task_ok(t0[next as int], specs[next as int], now as int, now + 1, now + 1, false));
                    if specs[next as int].class == TaskClass::Interactive {
                        lemma_latency_push(lat0, ev0, specs, events@.last(), next, interactive_latencies@.last());
                        assert(events@ == ev0.push(events@.last()));
                        assert(interactive_latencies@ == lat0.push(interactive_latencies@.last()));
                    } else {
                        lemma_latency_none(lat0, ev0, specs, events@.last());
                        assert(events@ == ev0.push(events@.last()));
                    }
                    assert(events@.drop_last() =~= ev0);
                    assert(fragment_sum(events@) == fragment_sum(ev0));
                    assert(same_progress(t0, tasks@)) by {
                        assert forall|i: int| 0 <= i < t0.len() implies (#[trigger] tasks@[i]).remaining_cpu
                            == t0[i].remaining_cpu && (tasks@[i].state == TaskState::Done) == (t0[i].state
                            == TaskState::Done) by {
                            assert(same_but_policy(t0[i], t1[i]));
                        }
                    }
                    lemma_same_progress_ticks(t0, tasks@, specs, t0.len() as int);
                    assert(t1[next as int].class == specs[next as int].class) by {
                        assert(task_ok(t0[next as int], specs[next as int], now as int, now + 1, now + 1, false));
                    }
                }
                proof {
                    assert(events@.drop_last() =~= ev0);
                    lemma_log_extend(ev0, events@, now as int, now as int);
                    let t2 = tasks@;
                    assert(tasks_ok(t2, specs, now as int, now + 1, now + 1, false)) by {
                        assert forall|i: int| 0 <= i < t2.len() implies #[trigger] task_ok(
                            t2[i],
                            specs[i],
                            now as int,
                            now + 1,
                            now + 1,
                            false,
                        ) by {
                            assert(task_ok(t1[i], specs[i], now as int, now + 1, now + 1, false));
                        }
                    }
                    assert(pool_matches(sched.pool(), t2)) by {
                        assert forall|id: usize| #[trigger] sched.pool().count(id) == (if id < t2.len()
                            && t2[id as int].state == TaskState::Ready {
                            1nat
                        } else {
                            0nat
                        }) by {
                            assert(pool0.count(id) == (if id < t1.len() && t1[id as int].state
                                == TaskState::Ready {
                                1nat
                            } else {
                                0nat
                            }));
                        }
                    }
                    assert(running_matches(*running, t2)) by {
                        assert forall|i: int|
                            0 <= i < t2.len() && #[trigger] t2[i].state == TaskState::Running implies *running
                            == Some(i as usize) by {
                            if i != next as int {
                                assert(t1[i].state == TaskState::Running);
                            }
                        }
                    }
                    assert(levels_ok(t2)) by {
                        assert forall|i: int| 0 <= i < t2.len() implies #[trigger] t2[i].mlfq_level
                            < MLFQ_LEVELS by {
                            assert(t1[i].mlfq_level < MLFQ_LEVELS);
                        }
                    }
                }
            },
            None => {
                proof {
                    lemma_policy_keeps(
                        t0,
                        tasks@,
                        specs,
                        pool0,
                        *running,
                        now as int,
                        now + 1,
                        now + 1,
                        false,
                    );
                    let t1 = tasks@;
                    let pool1 = sched.pool();
                    assert(same_progress(t0, t1)) by {
                        assert forall|i: int| 0 <= i < t0.len() implies (#[trigger] t1[i]).remaining_cpu
                            == t0[i].remaining_cpu && (t1[i].state == TaskState::Done) == (t0[i].state
                            == TaskState::Done) by {
                            assert(same_but_policy(t0[i], t1[i]));
                        }
                    }
                    lemma_same_progress_ticks(t0, t1, specs, t0.len() as int);
                    assert forall|i: int| 0 <= i < t1.len() implies #[trigger] t1[i].state
                        != TaskState::Ready by {
                        broadcast use vstd::multiset::group_multiset_axioms;

                        let id = i as usize;
                        assert(pool1.count(id) <= pool1.len());
                        assert(pool1.count(id) == (if id < t1.len() && t1[id as int].state
                            == TaskState::Ready {
                            1nat
                        } else {
                            0nat
                        }));
                    }
                }
            },
        }
    }
}

/// A ready task whose current wait, measured at tick `now`, exceeds
/// `threshold` and has not been counted yet.
pub open spec fn starts_starving(t: RuntimeTask, now: u64, threshold: u64) -> bool {
    &&& t.state == TaskState::Ready
    &&& t.ready_since.is_some()
    &&& (if now >= t.ready_since.unwrap() { now - t.ready_since.unwrap() } else { 0 }) > threshold
    &&& !t.starvation_marked
}

/// A task after one tick of waiting: a ready task waits one tick more and is
/// marked once it starts starving; other tasks are unchanged.
pub open spec fn after_wait(t: RuntimeTask, now: u64, threshold: u64) -> RuntimeTask {
    if t.state == TaskState::Ready {
        RuntimeTask {
            waiting_time: (t.waiting_time + 1) as u64,
            starvation_marked: t.starvation_marked || starts_starving(t, now, threshold),
            ..t
        }
    } else {
        t
    }
}

/// Number of tasks among the first `k` that start starving at tick `now`.
pub open spec fn starving_count(tasks: Seq<RuntimeTask>, now: u64, threshold: u64, k: int) -> nat
    decreases k,
{
    if k <= 0 {
        0
    } else {
        starving_count(tasks, now, threshold, k - 1) + if starts_starving(tasks[k - 1], now, threshold) {
            1nat
        } else {
            0nat
        }
    }
}

/// Charges every ready task one tick of waiting and marks the tasks whose
/// current wait exceeds `threshold` for the first time; returns how many
/// tasks were newly marked.
pub fn account_waiting(tasks: &mut Vec<RuntimeTask>, now: u64, threshold: u64) -> (starved: u64)
    requires
        forall|i: int|
            0 <= i < old(tasks)@.len() && #[trigger] old(tasks)@[i].state == TaskState::Ready
                ==> old(tasks)@[i].waiting_time < u64::MAX,
    ensures
        final(tasks)@ == Seq::new(
            old(tasks)@.len(),
            |i: int| after_wait(old(tasks)@[i], now, threshold),
        ),
        starved == starving_count(old(tasks)@, now, threshold, old(tasks)@.len() as int),
{
    let ghost before = tasks@;
    let mut starved: u64 = 0;
    let n_tasks = tasks.len();
    let mut i: usize = 0;
    while i < n_tasks
        invariant
            tasks@.len() == n_tasks,
            before.len() == n_tasks,
            i <= n_tasks,
            starved == starving_count(before, now, threshold, i as int),
            starved <= i,
            forall|j: int| 0 <= j < i ==> #[trigger] tasks@[j] == after_wait(before[j], now, threshold),
            forall|j: int| i <= j < n_tasks ==> #[trigger] tasks@[j] == before[j],
            forall|j: int|
                0 <= j < n_tasks && #[trigger] before[j].state == TaskState::Ready
                    ==> before[j].waiting_time < u64::MAX,
        decreases n_tasks - i,
    {
        proof {
            assert(tasks@[i as int] == before[i as int]);
        }
        if tasks[i].state == TaskState::Ready {
            tasks[i].waiting_time += 1;
            match tasks[i].ready_since {
                Some(ready_since) => {
                    let wait_span = now.saturating_sub(ready_since);
                    if wait_span > threshold && !tasks[i].starvation_marked {
                        starved += 1;
                        tasks[i].starvation_marked = true;
                    }
                },
                None => {},
            }
        }
        i += 1;
    }
    proof {
        assert(tasks@ =~= Seq::new(before.len(), |j: int| after_wait(before[j], now, threshold)));
    }
    starved
}

/// Step 4 of a tick: every ready task waits one more tick; a task whose
/// current wait exceeds `threshold` counts as starving once per wait.
/// Returns the number of newly starving tasks.
fn wait_step<S: Scheduler>(
    tasks: &mut Vec<RuntimeTask>,
    sched: &S,
    Ghost(running): Ghost<Option<usize>>,
    now: u64,
    threshold: u64,
    Ghost(specs): Ghost<Seq<TaskSpec>>,
) -> (starved: u64)
    requires
        sim_ok(old(tasks)@, *sched, running, specs, now, now + 1, now + 1, false),
        now < MAX_TICKS,
    ensures
        sim_ok(final(tasks)@, *sched, running, specs, now, now + 1, now + 1, true),
        starved <= final(tasks)@.len(),
        final(tasks)@ == Seq::new(
            old(tasks)@.len(),
            |i: int| after_wait(old(tasks)@[i], now, threshold),
        ),
        starved == starving_count(old(tasks)@, now, threshold, old(tasks)@.len() as int),
        now <= threshold ==> starved == 0,
        same_progress(old(tasks)@, final(tasks)@),
{
    let ghost t_old = tasks@;
    proof {
        assert forall|i: int|
            0 <= i < t_old.len() && #[trigger] t_old[i].state == TaskState::Ready implies t_old[i].waiting_time
                < u64::MAX by {
            assert(task_ok(t_old[i], specs[i], now as int, now + 1, now + 1, false));
        }
    }
    let starved = account_waiting(tasks, now, threshold);
    proof {
        let t = tasks@;
        assert(tasks_ok(t, specs, now as int, now + 1, now + 1, true)) by {
            assert forall|j: int| 0 <= j < t.len() implies #[trigger] task_ok(
                t[j],
                specs[j],
                now as int,
                now + 1,
                now + 1,
                true,
            ) by {
                assert(task_ok(t_old[j], specs[j], now as int, now + 1, now + 1, false));
                assert(t[j] == after_wait(t_old[j], now, threshold));
            }
        }
        assert(pool_matches(sched.pool(), t)) by {
            assert forall|id: usize| #[trigger] sched.pool().count(id) == (if id < t.len() && t[id as int].state
                == TaskState::Ready {
                1nat
            } else {
                0nat
            }) by {
                assert(sched.pool().count(id) == (if id < t_old.len() && t_old[id as int].state
                    == TaskState::Ready {
                    1nat
                } else {
                    0nat
                }));
                if id < t.len() {
                    assert(t[id as int] == after_wait(t_old[id as int], now, threshold));
                }
            }
        }
        assert(running_matches(running, t)) by {
            assert forall|j: int|
                0 <= j < t.len() && #[trigger] t[j].state == TaskState::Running implies running == Some(
                j as usize,
            ) by {
                assert(t[j] == after_wait(t_old[j], now, threshold));
            }
            if let Some(r) = running {
                assert(t[r as int] == after_wait(t_old[r as int], now, threshold));
            }
        }
        assert(levels_ok(t)) by {
            assert forall|j: int| 0 <= j < t.len() implies #[trigger] t[j].mlfq_level < MLFQ_LEVELS by {
                assert(t[j] == after_wait(t_old[j], now, threshold));
            }
        }
        lemma_starving_count_bound(t_old, now, threshold, t_old.len() as int);
        if now <= threshold {
            lemma_no_starving_early(t_old, now, threshold, t_old.len() as int);
        }
    }
    starved
}

/// No wait measured at tick `now` exceeds a threshold of at least `now`.
proof fn lemma_no_starving_early(tasks: Seq<RuntimeTask>, now: u64, threshold: u64, k: int)
    requires
        0 <= k,
        now <= threshold,
    ensures
        starving_count(tasks, now, threshold, k) == 0,
    decreases k,
{
    if k > 0 {
        lemma_no_starving_early(tasks, now, threshold, k - 1);
    }
}

proof fn lemma_starving_count_bound(tasks: Seq<RuntimeTask>, now: u64, threshold: u64, k: int)
    requires
        0 <= k,
    ensures
        starving_count(tasks, now, threshold, k) <= k,
    decreases k,
{
    if k > 0 {
        lemma_starving_count_bound(tasks, now, threshold, k - 1);
    }
}

/// A task that did not run in tick `now` meets the facts of the next tick.
proof fn lemma_advance(t: RuntimeTask, s: TaskSpec, now: int)
    requires
        task_ok(t, s, now, now + 1, now + 1, true),
        t.state != TaskState::Running,
    ensures
        task_ok(t, s, now + 1, now + 1, now + 1, false),
{
}

/// The running task after tick `now`: it ran one more tick, and then finished,
/// blocked, went back to the ready pool or kept running. Its facts hold at
/// the next tick.
proof fn lemma_ran_one_tick(t0: RuntimeTask, tf: RuntimeTask, s: TaskSpec, now: int)
    requires
        task_ok(t0, s, now, now + 1, now + 1, true),
        t0.state == TaskState::Running,
        now + 1 <= MAX_TICKS,
        io_interval(s) > 0 ==> s.io_block <= u64::MAX - MAX_TICKS,
        tf.class == t0.class,
        tf.arrival == t0.arrival,
        tf.io_every == t0.io_every,
        tf.io_block == t0.io_block,
        tf.waiting_time == t0.waiting_time,
        tf.remaining_cpu == (if t0.remaining_cpu > 0 { t0.remaining_cpu - 1 } else { 0 }),
        tf.remaining_cpu == 0 ==> {
            &&& tf.state == TaskState::Done
            &&& tf.completion_time == Some((now + 1) as u64)
            &&& tf.run_since_io == t0.run_since_io + 1
        },
        tf.remaining_cpu > 0 && io_interval(s) > 0 && t0.run_since_io + 1 >= io_interval(s) ==> {
            &&& tf.state == TaskState::Blocked
            &&& tf.run_since_io == 0
            &&& tf.unblock_at == Some((now + 1 + s.io_block) as u64)
            &&& tf.completion_time.is_none()
        },
        tf.remaining_cpu > 0 && !(io_interval(s) > 0 && t0.run_since_io + 1 >= io_interval(s)) ==> {
            &&& (tf.state == TaskState::Ready || tf.state == TaskState::Running)
            &&& tf.state == TaskState::Ready ==> tf.ready_since == Some((now + 1) as u64)
            &&& tf.run_since_io == t0.run_since_io + 1
            &&& tf.completion_time.is_none()
        },
    ensures
        task_ok(tf, s, now + 1, now + 1, now + 1, false),
        ticks_run(tf, s) == ticks_run(t0, s) + 1,
{
    let e = io_interval(s) as int;
    let x = ticks_run(t0, s) - t0.run_since_io;
    assert(ticks_run(tf, s) == ticks_run(t0, s) + 1);
    if e > 0 {
        if tf.remaining_cpu > 0 && t0.run_since_io + 1 >= e {
            assert(t0.run_since_io + 1 == e);
            assert(ticks_run(tf, s) - tf.run_since_io == e + x);
            vstd::arithmetic::div_mod::lemma_div_plus_one(x, e);
            vstd::arithmetic::div_mod::lemma_mod_add_multiples_vanish(x, e);
            assert(times_blocked(tf, s) == times_blocked(t0, s) + 1);
            vstd::arithmetic::mul::lemma_mul_is_distributive_add_other_way(
                s.io_block as int,
                times_blocked(t0, s) as int,
                1,
            );
            assert(blocked_ticks(tf, s) == blocked_ticks(t0, s) + s.io_block);
        } else {
            assert(ticks_run(tf, s) - tf.run_since_io == x);
            assert(times_blocked(tf, s) == times_blocked(t0, s));
        }
    }
}

/// Step 5 of a tick: the running task uses the tick. It finishes when its CPU
/// demand is met, blocks when its I/O interval is reached, goes back to the
/// ready pool when the policy preempts it, and otherwise keeps running.
#[verifier::rlimit(80)]
fn run_step<S: Scheduler>(
    tasks: &mut Vec<RuntimeTask>,
    sched: &mut S,
    running: &mut Option<usize>,
    run_start: &mut u64,
    now: u64,
    events: &mut Vec<ContextSwitchEvent>,
    interactive_latencies: &mut Vec<u64>,
    Ghost(specs): Ghost<Seq<TaskSpec>>,
    Ghost(st): Ghost<SimState<S::V>>,
)
    requires
        sim_ok(old(tasks)@, *old(sched), *old(running), specs, now, now + 1, now + 1, true),
        log_ok(old(events)@, now as int),
        log_chains(old(events)@, *old(running), *old(run_start), old(tasks)@.len()),
        progress_ok(old(events)@, *old(running), *old(run_start), now as int, old(tasks)@, specs),
        latencies_match(old(interactive_latencies)@, old(events)@, specs),
        now < MAX_TICKS,
        st == (SimState {
            tasks: old(tasks)@,
            policy: old(sched)@,
            running: *old(running),
            run_start: *old(run_start),
            latencies: old(interactive_latencies)@,
            events: old(events)@,
            ..st
        }),
    ensures
        ran::<S>(st, now) == (SimState {
            tasks: final(tasks)@,
            policy: final(sched)@,
            running: *final(running),
            run_start: *final(run_start),
            latencies: final(interactive_latencies)@,
            events: final(events)@,
            ..st
        }),
        sim_ok(
            final(tasks)@,
            *final(sched),
            *final(running),
            specs,
            (now + 1) as u64,
            now + 1,
            now + 1,
            false,
        ),
        log_ok(final(events)@, now + 1),
        log_chains(final(events)@, *final(running), *final(run_start), final(tasks)@.len()),
        progress_ok(final(events)@, *final(running), *final(run_start), now + 1, final(tasks)@, specs),
        latencies_match(final(interactive_latencies)@, final(events)@, specs),
        final(interactive_latencies)@ == old(interactive_latencies)@,
{
    let ghost t0 = tasks@;
    let ghost ev0 = events@;
    let ghost rs0 = *run_start;
    let n_tasks = tasks.len();
    match *running {
        Some(tid) => {
            proof {
                assert(task_ok(t0[tid as int], specs[tid as int], now as int, now + 1, now + 1, true));
            }
            if tasks[tid].remaining_cpu > 0 {
                tasks[tid].remaining_cpu -= 1;
            }
            tasks[tid].run_since_io += 1;
            let ghost t1 = tasks@;
            let ghost pool0 = sched.pool();
            let ghost v0 = sched@;
            proof {
                let t = t0[tid as int];
                assert(t1 =~= t0.update(
                    tid as int,
                    RuntimeTask {
                        remaining_cpu: if t.remaining_cpu > 0 { (t.remaining_cpu - 1) as u64 } else { 0 },
                        run_since_io: (t.run_since_io + 1) as u64,
                        ..t
                    },
                ));
                assert(levels_ok(t1)) by {
                    assert forall|i: int| 0 <= i < t1.len() implies #[trigger] t1[i].mlfq_level
                        < MLFQ_LEVELS by {
                        assert(t0[i].mlfq_level < MLFQ_LEVELS);
                    }
                }
                assert(distinct_below(pool0, t1.len() as nat)) by {
                    assert forall|id: usize| #[trigger] pool0.count(id) <= (if id < t1.len() as nat {
                        1nat
                    } else {
                        0nat
                    }) by {
                        assert(pool0.count(id) == (if id < t0.len() && t0[id as int].state
                            == TaskState::Ready {
                            1nat
                        } else {
                            0nat
                        }));
                    }
                }
            }
            let action = sched.on_tick(tid, tasks, now);
            let ghost t2 = tasks@;
            let ghost v2 = sched@;
            let ghost s2 = SimState { policy: v2, tasks: t2, ..st };
            let ts_next = now + 1;
            proof {
                assert(same_but_policy(t1[tid as int], t2[tid as int]));
                assert(charged(t2[tid as int], specs[tid as int]) <= now + 1 - t2[tid as int].arrival);
                assert(t2[tid as int].state == TaskState::Running);
                assert forall|i: int| 0 <= i < t2.len() && i != tid as int implies #[trigger] same_but_policy(
                    t0[i],
                    t2[i],
                ) by {
                    assert(same_but_policy(t1[i], t2[i]));
                }
            }
            let blocks = match tasks[tid].io_every {
                Some(io_every) => io_every > 0 && tasks[tid].run_since_io >= io_every,
                None => false,
            };
            if tasks[tid].remaining_cpu == 0 {
                tasks[tid].state = TaskState::Done;
                tasks[tid].completion_time = Some(ts_next);
                proof {
                    assert(tasks@ =~= t2.update(
                        tid as int,
                        RuntimeTask {
                            state: TaskState::Done,
                            completion_time: Some(ts_next),
                            ..t2[tid as int]
                        },
                    ));
                }
                let ready_len = sched.ready_len();
                switch_context(
                    running,
                    run_start,
                    None,
                    ts_next,
                    tasks,
                    ready_len,
                    events,
                    interactive_latencies,
                );
                proof {
                    assert(events@.drop_last() =~= ev0);
                    lemma_log_extend(ev0, events@, now as int, now + 1);
                    lemma_chain_extend(ev0, Some(tid), rs0, None, ts_next, ready_len, n_tasks as nat);
                    lemma_latency_none(interactive_latencies@, ev0, specs, events@.last());
                    assert(events@ == ev0.push(events@.last()));
                    assert(fragment_sum(events@) == fragment_sum(ev0) + (now + 1 - rs0));
                    lemma_ran_one_tick(t0[tid as int], tasks@[tid as int], specs[tid as int], now as int);
                    assert(tasks@[tid as int].state != TaskState::Running && running.is_none());
                    assert(sched.pool() == pool0);
                    assert forall|i: int| 0 <= i < tasks@.len() && i != tid as int implies #[trigger] same_but_policy(
                        t2[i],
                        tasks@[i],
                    ) by {
                    }
                }
            } else if blocks {
                proof {
                    assert(specs[tid as int].io_block <= u64::MAX - MAX_TICKS);
                }
                tasks[tid].run_since_io = 0;
                tasks[tid].state = TaskState::Blocked;
                tasks[tid].unblock_at = Some(ts_next + tasks[tid].io_block);
                let ghost t3 = tasks@;
                proof {
                    assert(t3 =~= t2.update(
                        tid as int,
                        RuntimeTask {
                            run_since_io: 0,
                            state: TaskState::Blocked,
                            unblock_at: Some((ts_next + t2[tid as int].io_block) as u64),
                            ..t2[tid as int]
                        },
                    ));
                    assert(t3[tid as int].io_block == specs[tid as int].io_block);
                    assert(t3[tid as int].completion_time.is_none());
                    assert(charged(t3[tid as int], specs[tid as int]) <= now + 1 - t3[tid as int].arrival);
                    lemma_ran_one_tick(t0[tid as int], t3[tid as int], specs[tid as int], now as int);
                    assert(levels_ok(t3)) by {
                        assert forall|i: int| 0 <= i < t3.len() implies #[trigger] t3[i].mlfq_level
                            < MLFQ_LEVELS by {
                            assert(t2[i].mlfq_level < MLFQ_LEVELS);
                        }
                    }
                }
                sched.on_block(tid, tasks, ts_next);
                proof {
                    assert forall|i: int| 0 <= i < tasks@.len() implies #[trigger] same_but_policy(
                        t3[i],
                        tasks@[i],
                    ) by {}
                    assert(*running == Some(tid));
                    assert(same_but_policy(t3[tid as int], tasks@[tid as int]));
                    assert(tasks@[tid as int].state == TaskState::Blocked);
                }
                let ready_len = sched.ready_len();
                switch_context(
                    running,
                    run_start,
                    None,
                    ts_next,
                    tasks,
                    ready_len,
                    events,
                    interactive_latencies,
                );
                proof {
                    assert(events@.drop_last() =~= ev0);
                    lemma_log_extend(ev0, events@, now as int, now + 1);
                    lemma_chain_extend(ev0, Some(tid), rs0, None, ts_next, ready_len, n_tasks as nat);
                    lemma_latency_none(interactive_latencies@, ev0, specs, events@.last());
                    assert(events@ == ev0.push(events@.last()));
                    assert(fragment_sum(events@) == fragment_sum(ev0) + (now + 1 - rs0));
                    lemma_ran_one_tick(t0[tid as int], tasks@[tid as int], specs[tid as int], now as int);
                    assert(tasks@[tid as int].state != TaskState::Running && running.is_none());
                    assert(sched.pool() == pool0);
                    assert forall|i: int| 0 <= i < tasks@.len() && i != tid as int implies #[trigger] same_but_policy(
                        t2[i],
                        tasks@[i],
                    ) by {
                        assert(same_but_policy(t3[i], tasks@[i]));
                        assert(t3[i] == t2[i]);
                    }
                }
            } else if action == TickAction::Preempt {
                tasks[tid].state = TaskState::Ready;
                tasks[tid].ready_since = Some(ts_next);
                let ghost t3 = tasks@;
                proof {
                    assert(t3 =~= t2.update(
                        tid as int,
                        RuntimeTask { state: TaskState::Ready, ready_since: Some(ts_next), ..t2[tid as int] },
                    ));
                    assert(levels_ok(t3)) by {
                        assert forall|i: int| 0 <= i < t3.len() implies #[trigger] t3[i].mlfq_level
                            < MLFQ_LEVELS by {
                            assert(t2[i].mlfq_level < MLFQ_LEVELS);
                        }
                    }
                    assert(pool0.count(tid) == 0) by {
                        assert(pool0.count(tid) == (if tid < t0.len() && t0[tid as int].state
                            == TaskState::Ready {
                            1nat
                        } else {
                            0nat
                        }));
                    }
                    assert(distinct_below(sched.pool().insert(tid), t3.len() as nat)) by {
                        assert forall|id: usize| #[trigger] sched.pool().insert(tid).count(id) <= (if id
                            < t3.len() as nat {
                            1nat
                        } else {
                            0nat
                        }) by {
                            assert(pool0.count(id) == (if id < t0.len() && t0[id as int].state
                                == TaskState::Ready {
                                1nat
                            } else {
                                0nat
                            }));
                        }
                    }
                }
                sched.enqueue(tid, tasks, ts_next);
                proof {
                    assert forall|i: int| 0 <= i < tasks@.len() implies #[trigger] same_but_policy(
                        t3[i],
                        tasks@[i],
                    ) by {}
                    assert(*running == Some(tid));
                    assert(same_but_policy(t3[tid as int], tasks@[tid as int]));
                    assert(tasks@[tid as int].state == TaskState::Ready);
                }
                let ready_len = sched.ready_len();
                switch_context(
                    running,
                    run_start,
                    None,
                    ts_next,
                    tasks,
                    ready_len,
                    events,
                    interactive_latencies,
                );
                proof {
                    assert(events@.drop_last() =~= ev0);
                    lemma_log_extend(ev0, events@, now as int, now + 1);
                    lemma_chain_extend(ev0, Some(tid), rs0, None, ts_next, ready_len, n_tasks as nat);
                    lemma_latency_none(interactive_latencies@, ev0, specs, events@.last());
                    assert(events@ == ev0.push(events@.last()));
                    assert(fragment_sum(events@) == fragment_sum(ev0) + (now + 1 - rs0));
                    lemma_ran_one_tick(t0[tid as int], tasks@[tid as int], specs[tid as int], now as int);
                    assert(tasks@[tid as int].state != TaskState::Running && running.is_none());
                    assert(sched.pool() == pool0.insert(tid));
                    assert forall|i: int| 0 <= i < tasks@.len() && i != tid as int implies #[trigger] same_but_policy(
                        t2[i],
                        tasks@[i],
                    ) by {
                        assert(same_but_policy(t3[i], tasks@[i]));
                        assert(t3[i] == t2[i]);
                    }
                }
            } else {
                proof {
                    lemma_log_extend(ev0, events@, now as int, now + 1);
                    lemma_ran_one_tick(t0[tid as int], tasks@[tid as int], specs[tid as int], now as int);
                    assert(tasks@[tid as int].state == TaskState::Running && *running == Some(tid));
                    assert(sched.pool() == pool0);
                }
            }
            proof {
                let tf = tasks@;
                assert forall|i: int| 0 <= i < tf.len() && i != tid as int implies #[trigger] same_but_policy(
                    t0[i],
                    tf[i],
                ) by {
                    assert(same_but_policy(t0[i], t2[i]));
                    assert(same_but_policy(t2[i], tf[i]));
                }
                assert(tasks_ok(tf, specs, now + 1, now + 1, now + 1, false)) by {
                    assert forall|i: int| 0 <= i < tf.len() implies #[trigger] task_ok(
                        tf[i],
                        specs[i],
                        now + 1,
                        now + 1,
                        now + 1,
                        false,
                    ) by {
                        if i != tid as int {
                            assert((i as usize) as int == i);
                            assert(t0[i].state != TaskState::Running);
                            assert(task_ok(t0[i], specs[i], now as int, now + 1, now + 1, true));
                            assert(same_but_policy(t0[i], tf[i]));
                            lemma_advance(t0[i], specs[i], now as int);
                        }
                    }
                }
                assert(pool_matches(sched.pool(), tf)) by {
                    assert forall|id: usize| #[trigger] sched.pool().count(id) == (if id < tf.len()
                        && tf[id as int].state == TaskState::Ready {
                        1nat
                    } else {
                        0nat
                    }) by {
                        assert(pool0.count(id) == (if id < t0.len() && t0[id as int].state
                            == TaskState::Ready {
                            1nat
                        } else {
                            0nat
                        }));
                        if id < tf.len() && id != tid {
                            assert(same_but_policy(t0[id as int], tf[id as int]));
                        }
                        if id == tid {
                            assert(t0[tid as int].state == TaskState::Running);
                        }
                    }
                }
                assert(running_matches(*running, tf)) by {
                    assert forall|i: int|
                        0 <= i < tf.len() && #[trigger] tf[i].state == TaskState::Running implies *running
                        == Some(i as usize) by {
                        assert((i as usize) as int == i);
                        if i != tid as int {
                            assert(same_but_policy(t0[i], tf[i]));
                            assert(t0[i].state != TaskState::Running);
                        }
                    }
                }
                sched.lemma_fresh_later((now + 1) as u64, (now + 1) as u64);
                assert forall|i: int| 0 <= i < t0.len() && i != tid as int implies (#[trigger] tf[i]).remaining_cpu
                    == t0[i].remaining_cpu && (tf[i].state == TaskState::Done) == (t0[i].state
                    == TaskState::Done) by {
                    assert(same_but_policy(t0[i], tf[i]));
                }
                lemma_ticks_one_changed(t0, tf, specs, tid as int, tf.len() as int);
                assert(tf[tid as int].remaining_cpu == (if t0[tid as int].remaining_cpu > 0 {
                    t0[tid as int].remaining_cpu - 1
                } else {
                    0
                }));
                assert((tf[tid as int].state == TaskState::Done) == (tf[tid as int].remaining_cpu == 0));
                assert(ticks_run(tf[tid as int], specs[tid as int]) == ticks_run(
                    t0[tid as int],
                    specs[tid as int],
                ) + 1);
            }
        },
        None => {
            proof {
                lemma_log_extend(ev0, events@, now as int, now + 1);
                sched.lemma_fresh_later(now, (now + 1) as u64);
                assert(tasks_ok(t0, specs, now + 1, now + 1, now + 1, false)) by {
                    assert forall|i: int| 0 <= i < t0.len() implies #[trigger] task_ok(
                        t0[i],
                        specs[i],
                        now + 1,
                        now + 1,
                        now + 1,
                        false,
                    ) by {
                        assert(task_ok(t0[i], specs[i], now as int, now + 1, now + 1, true));
                        lemma_advance(t0[i], specs[i], now as int);
                    }
                }
            }
        },
    }
}


/// One tick `now` of a run: wake, admit, pick, wait, run; the simulation's
/// facts carry over to the next tick, and the state after it is the model's.
#[verifier::rlimit(50)]
fn sim_tick<S: Scheduler>(
    tasks: &mut Vec<RuntimeTask>,
    scheduler: &mut S,
    running: &mut Option<usize>,
    run_start: &mut u64,
    starvation_count: &mut u64,
    interactive_latencies: &mut Vec<u64>,
    events: &mut Vec<ContextSwitchEvent>,
    now: u64,
    threshold: u64,
    Ghost(specs): Ghost<Seq<TaskSpec>>,
)
    requires
        now < MAX_TICKS,
        sim_ok(old(tasks)@, *old(scheduler), *old(running), specs, now, now as int, now as int, false),
        *old(starvation_count) <= specs.len() * now,
        log_ok(old(events)@, now as int),
        log_chains(old(events)@, *old(running), *old(run_start), specs.len()),
        progress_ok(old(events)@, *old(running), *old(run_start), now as int, old(tasks)@, specs),
        no_interactive(specs) ==> old(interactive_latencies)@.len() == 0,
        latencies_match(old(interactive_latencies)@, old(events)@, specs),
        *old(starvation_count) > 0 ==> threshold < now,
    ensures
        sim_ok(
            final(tasks)@,
            *final(scheduler),
            *final(running),
            specs,
            (now + 1) as u64,
            now + 1,
            now + 1,
            false,
        ),
        *final(starvation_count) <= specs.len() * (now + 1),
        log_ok(final(events)@, now + 1),
        log_chains(final(events)@, *final(running), *final(run_start), specs.len()),
        progress_ok(final(events)@, *final(running), *final(run_start), now + 1, final(tasks)@, specs),
        no_interactive(specs) ==> final(interactive_latencies)@.len() == 0,
        latencies_match(final(interactive_latencies)@, final(events)@, specs),
        *final(starvation_count) > 0 ==> threshold < now + 1,
        ticked::<S>(
            SimState {
                tasks: old(tasks)@,
                policy: old(scheduler)@,
                running: *old(running),
                run_start: *old(run_start),
                starvation: *old(starvation_count),
                latencies: old(interactive_latencies)@,
                events: old(events)@,
            },
            now,
            threshold,
        ) == (SimState {
            tasks: final(tasks)@,
            policy: final(scheduler)@,
            running: *final(running),
            run_start: *final(run_start),
            starvation: *final(starvation_count),
            latencies: final(interactive_latencies)@,
            events: final(events)@,
        }),
{
    let ghost n = specs.len();
    let ghost s0 = SimState {
        tasks: tasks@,
        policy: scheduler@,
        running: *running,
        run_start: *run_start,
        starvation: *starvation_count,
        latencies: interactive_latencies@,
        events: events@,
    };
    let ghost ta = tasks@;
    wake_step(tasks, scheduler, Ghost(*running), now, Ghost(specs), Ghost(s0));
    let ghost s1 = woken::<S>(s0, now, n as int);
    let ghost tb = tasks@;
    arrive_step(tasks, scheduler, Ghost(*running), now, Ghost(specs), Ghost(s1));
    let ghost s2 = arrived::<S>(s1, now, n as int);
    proof {
        lemma_same_progress_ticks(ta, tb, specs, ta.len() as int);
        lemma_same_progress_ticks(tb, tasks@, specs, ta.len() as int);
    }
    pick_step(
        tasks,
        scheduler,
        running,
        run_start,
        now,
        events,
        interactive_latencies,
        Ghost(specs),
        Ghost(s2),
    );
    let ghost s3 = picked::<S>(s2, now);
    let ghost tc = tasks@;
    let starved = wait_step(tasks, scheduler, Ghost(*running), now, threshold, Ghost(specs));
    proof {
        lemma_same_progress_ticks(tc, tasks@, specs, tc.len() as int);
        assert(n * now + n == n * (now + 1)) by (nonlinear_arith);
        assert(n * (now + 1) <= n * MAX_TICKS) by (nonlinear_arith)
            requires
                now + 1 <= MAX_TICKS,
        ;
    }
    *starvation_count = *starvation_count + starved;
    let ghost s4 = waited(s3, now, threshold);
    proof {
        assert(s4.tasks == tasks@);
    }
    run_step(
        tasks,
        scheduler,
        running,
        run_start,
        now,
        events,
        interactive_latencies,
        Ghost(specs),
        Ghost(s4),
    );
}

/// A set of tasks to simulate, with the wait after which a ready task counts as starving.
pub struct Workload {
    pub name: &'static str,
    pub tasks: Vec<TaskSpec>,
    pub starvation_threshold: u64,
}

/// Everything one run of a policy on a workload produced.
pub struct ExperimentResult {
    pub scheduler: &'static str,
    pub workload: &'static str,
    pub totals: ExperimentTotals,
    /// Ready-to-running delays of interactive tasks, in the order they were observed.
    pub interactive_latencies: Vec<u64>,
    /// Context switch log, in order.
    pub events: Vec<ContextSwitchEvent>,
    /// The task table at the end of the run.
    pub tasks: Vec<RuntimeTask>,
}

/// What every run of a policy on `workload` yields: the run lasts at least one
/// tick and at most `MAX_TICKS`, and ends early only when every task is done;
/// the final task table meets the simulation's facts at the end tick (each
/// finished task's waiting time plus CPU demand fits in its turnaround, no
/// blocked task is past its wake-up tick, no task is past its arrival and
/// still new); at most one task is running; the switch log records only real
/// switches in time order, each between an idle CPU and a task, each leaving
/// what the previous one started, with the ticks since the previous switch as
/// run fragment, and a run in which every task is done ends with an idle CPU;
/// the run fragments add up to at most the makespan, and, when every task is
/// done, to the total CPU demand (a task without demand still runs one tick), every
/// task arrived before the end, and the turnarounds add up to at least the
/// waiting times plus that demand; the turnaround of a finished task is its
/// waiting time, its demand and its time blocked for I/O, where it blocked
/// once after each full I/O interval of its demand but the last; without
/// interactive tasks no latency is sampled; with a starvation threshold of at
/// least the makespan nothing starves; and the totals are those of the final
/// table and the log.
#[verifier::opaque]
pub open spec fn experiment_facts(workload: Workload, r: ExperimentResult) -> bool {
    &&& r.workload == workload.name
    &&& 1 <= r.totals.makespan <= MAX_TICKS
    &&& r.totals.makespan < MAX_TICKS ==> forall|i: int|
        0 <= i < r.tasks@.len() ==> #[trigger] r.tasks@[i].state == TaskState::Done
    &&& tasks_ok(
        r.tasks@,
        workload.tasks@,
        r.totals.makespan as int,
        r.totals.makespan as int,
        r.totals.makespan as int,
        false,
    )
    &&& forall|i: int, j: int|
        0 <= i < r.tasks@.len() && 0 <= j < r.tasks@.len() && #[trigger] r.tasks@[i].state
            == TaskState::Running && #[trigger] r.tasks@[j].state == TaskState::Running ==> i == j
    &&& r.totals.task_count == workload.tasks@.len()
    &&& r.totals.completed == (if completed_count(r.tasks@) == 0 {
        1
    } else {
        completed_count(r.tasks@)
    })
    &&& r.totals.total_waiting == total_waiting(r.tasks@)
    &&& r.totals.total_turnaround == total_turnaround(r.tasks@, r.totals.makespan)
    &&& r.totals.context_switches == r.events@.len()
    &&& log_ok(r.events@, r.totals.makespan as int)
    &&& log_links(r.events@, workload.tasks@.len())
    &&& latencies_match(r.interactive_latencies@, r.events@, workload.tasks@)
    &&& all_finished(r.tasks@) && r.events@.len() > 0 ==> r.events@.last().to.is_none()
    &&& fragment_sum(r.events@) <= r.totals.makespan
    &&& all_finished(r.tasks@) ==> fragment_sum(r.events@) == total_demand(
        workload.tasks@,
        workload.tasks@.len() as int,
    )
    &&& all_finished(r.tasks@) ==> r.totals.total_turnaround >= r.totals.total_waiting
        + total_demand(workload.tasks@, workload.tasks@.len() as int)
    &&& all_finished(r.tasks@) ==> forall|i: int|
        0 <= i < workload.tasks@.len() ==> #[trigger] workload.tasks@[i].arrival < r.totals.makespan
    &&& forall|i: int|
        0 <= i < r.tasks@.len() && #[trigger] r.tasks@[i].state == TaskState::Done ==> turnaround(
            r.tasks@[i],
            r.totals.makespan,
        ) == r.tasks@[i].waiting_time + ticks_run(r.tasks@[i], workload.tasks@[i]) + blocked_ticks(
            r.tasks@[i],
            workload.tasks@[i],
        )
    &&& forall|i: int|
        0 <= i < r.tasks@.len() && #[trigger] r.tasks@[i].state == TaskState::Done ==> times_blocked(
            r.tasks@[i],
            workload.tasks@[i],
        ) == (if io_interval(workload.tasks@[i]) == 0 || workload.tasks@[i].total_cpu == 0 {
            0
        } else {
            (workload.tasks@[i].total_cpu - 1) / (io_interval(workload.tasks@[i]) as int)
        })
    &&& no_interactive(workload.tasks@) ==> r.interactive_latencies@.len() == 0
    &&& r.totals.starvation_count <= workload.tasks@.len() * r.totals.makespan
    &&& workload.starvation_threshold >= r.totals.makespan ==> r.totals.starvation_count == 0
}

/// What holds when a run stops at tick `now`: once every task is done, it leaves
/// the CPU idle, has given every task its whole demand, has turnarounds that
/// cover the waiting times plus the demand, and has seen every task arrive;
/// the log ends by `now`; and each finished task's turnaround is its waiting
/// time, its demand and its time blocked, blocking once after each full I/O
/// interval of its demand but the last.
proof fn lemma_run_end(
    tasks: Seq<RuntimeTask>,
    specs: Seq<TaskSpec>,
    now: u64,
    events: Seq<ContextSwitchEvent>,
    running: Option<usize>,
)
    requires
        tasks_ok(tasks, specs, now as int, now as int, now as int, false),
        running_matches(running, tasks),
        log_ok(events, now as int),
    ensures
        all_finished(tasks) ==> running.is_none(),
        all_finished(tasks) ==> total_ticks_run(tasks, specs, tasks.len() as int) == total_demand(
            specs,
            tasks.len() as int,
        ),
        all_finished(tasks) ==> total_turnaround(tasks, now) >= total_waiting(tasks) + total_demand(
            specs,
            tasks.len() as int,
        ),
        all_finished(tasks) ==> forall|i: int| 0 <= i < specs.len() ==> #[trigger] specs[i].arrival < now,
        events.len() > 0 ==> events[events.len() - 1].ts <= now,
        forall|i: int|
            0 <= i < tasks.len() && #[trigger] tasks[i].state == TaskState::Done ==> turnaround(
                tasks[i],
                now,
            ) == tasks[i].waiting_time + ticks_run(tasks[i], specs[i]) + blocked_ticks(tasks[i], specs[i]),
        forall|i: int|
            0 <= i < tasks.len() && #[trigger] tasks[i].state == TaskState::Done ==> times_blocked(
                tasks[i],
                specs[i],
            ) == (if io_interval(specs[i]) == 0 || specs[i].total_cpu == 0 {
                0
            } else {
                (specs[i].total_cpu - 1) / (io_interval(specs[i]) as int)
            }),
{
        if all_finished(tasks) {
            if let Some(t) = running {
                assert(tasks[t as int].state == TaskState::Running);
            }
            lemma_done_ticks(tasks, specs, tasks.len() as int);
            assert forall|i: int| 0 <= i < tasks.len() implies #[trigger] tasks[i].state
                == TaskState::Done && tasks[i].completion_time.is_some() && charged(tasks[i], specs[i])
                <= tasks[i].completion_time.unwrap() - tasks[i].arrival by {
                assert(task_ok(tasks[i], specs[i], now as int, now as int, now as int, false));
            }
            lemma_turnaround_covers(tasks, specs, now, tasks.len() as int);
            assert(tasks.subrange(0, tasks.len() as int) =~= tasks);
            assert forall|i: int| 0 <= i < specs.len() implies #[trigger] specs[i].arrival < now by {
                assert(task_ok(tasks[i], specs[i], now as int, now as int, now as int, false));
            }
        }
        if events.len() > 0 {
            let last = events.len() - 1;
            assert(events[last].from != events[last].to && events[last].ts <= now);
        }
        assert forall|i: int|
            0 <= i < tasks.len() && #[trigger] tasks[i].state == TaskState::Done implies turnaround(
            tasks[i],
            now,
        ) == tasks[i].waiting_time + ticks_run(tasks[i], specs[i]) + blocked_ticks(
            tasks[i],
            specs[i],
        ) by {
            assert(task_ok(tasks[i], specs[i], now as int, now as int, now as int, false));
        }
        assert forall|i: int|
            0 <= i < tasks.len() && #[trigger] tasks[i].state == TaskState::Done implies times_blocked(
            tasks[i],
            specs[i],
        ) == (if io_interval(specs[i]) == 0 || specs[i].total_cpu == 0 {
            0
        } else {
            (specs[i].total_cpu - 1) / (io_interval(specs[i]) as int)
        }) by {
            assert(task_ok(tasks[i], specs[i], now as int, now as int, now as int, false));
            lemma_times_blocked_done(tasks[i], specs[i]);
        }
}

/// Interactive latency is sampled once per switch to an interactive task: in
/// every run's result, the samples correspond in order to the switches of the
/// log that start an interactive task, and each is at most the time from that
/// task's arrival to that switch.
pub proof fn lemma_latency_per_interactive_switch(workload: Workload, r: ExperimentResult)
    requires
        experiment_facts(workload, r),
    ensures
        r.interactive_latencies@.len() == interactive_switches(r.events@, workload.tasks@).len(),
        forall|k: int|
            0 <= k < r.interactive_latencies@.len() ==> #[trigger] r.interactive_latencies@[k]
                + workload.tasks@[interactive_switches(r.events@, workload.tasks@)[k].1 as int].arrival
                <= interactive_switches(r.events@, workload.tasks@)[k].0,
{
    reveal(experiment_facts);
}

/// The result reports the run of the model from the policy's view `policy`:
/// the final task table, the switch log, the interactive latency samples, the
/// starvation count, and the number of ticks run as the makespan.
pub open spec fn reports_run<S: Scheduler>(workload: Workload, policy: S::V, r: ExperimentResult) -> bool {
    let run = experiment_run::<S>(workload.tasks@, workload.starvation_threshold, policy);
    &&& r.tasks@ == run.0.tasks
    &&& r.events@ == run.0.events
    &&& r.interactive_latencies@ == run.0.latencies
    &&& r.totals.starvation_count == run.0.starvation
    &&& r.totals.makespan == run.1
}

/// Runs are determined by their inputs: two runs of a policy from the same
/// view, on workloads with the same tasks and starvation threshold, report the
/// same final task table, switch log, latency samples, starvation count and
/// makespan.
pub proof fn lemma_runs_agree<S: Scheduler>(
    w1: Workload,
    w2: Workload,
    policy: S::V,
    r1: ExperimentResult,
    r2: ExperimentResult,
)
    requires
        w1.tasks@ == w2.tasks@,
        w1.starvation_threshold == w2.starvation_threshold,
        reports_run::<S>(w1, policy, r1),
        reports_run::<S>(w2, policy, r2),
    ensures
        r1.tasks@ == r2.tasks@,
        r1.events@ == r2.events@,
        r1.interactive_latencies@ == r2.interactive_latencies@,
        r1.totals.starvation_count == r2.totals.starvation_count,
        r1.totals.makespan == r2.totals.makespan,
{
}

/// Runs `scheduler` on `workload` tick by tick until every task is done or
/// `MAX_TICKS` ticks have passed, and collects totals and logs.
///
/// Each tick wakes blocked tasks whose wake-up tick has come, admits arrived
/// tasks, lets an idle CPU pick a task, charges every ready task one tick of
/// waiting (counting a starvation the first time a wait exceeds the
/// workload's threshold), and runs the current task for one tick.
#[verifier::rlimit(50)]
pub fn run_experiment<S: Scheduler>(workload: &Workload, scheduler: S) -> (r: ExperimentResult)
    requires
        workload_fits(workload.tasks@),
        scheduler.wf(),
        scheduler.fresh_at(0),
        scheduler.pool() =~= Multiset::empty(),
    ensures
        experiment_facts(*workload, r),
        r.scheduler@ == scheduler.label(),
        reports_run::<S>(*workload, scheduler@, r),
{
    let ghost specs = workload.tasks@;
    let ghost v0 = scheduler@;
    let name = scheduler.name();
    let mut scheduler = scheduler;
    let mut tasks: Vec<RuntimeTask> = Vec::new();
    let mut k: usize = 0;
    while k < workload.tasks.len()
        invariant
            k <= specs.len(),
            specs == workload.tasks@,
            tasks@.len() == k,
            forall|j: int| 0 <= j < k ==> #[trigger] tasks@[j] == initial_task(specs[j]),
        decreases specs.len() - k,
    {
        tasks.push(RuntimeTask::from_spec(&workload.tasks[k]));
        k += 1;
    }
    let mut running: Option<usize> = None;
    let mut run_start: u64 = 0;
    let mut now: u64 = 0;
    let mut starvation_count: u64 = 0;
    let mut interactive_latencies: Vec<u64> = Vec::new();
    let mut events: Vec<ContextSwitchEvent> = Vec::new();
    let n = tasks.len();
    proof {
        assert(tasks_ok(tasks@, specs, 0, 0, 0, false)) by {
            assert forall|i: int| 0 <= i < tasks@.len() implies #[trigger] task_ok(
                tasks@[i],
                specs[i],
                0,
                0,
                0,
                false,
            ) by {
                assert(tasks@[i] == initial_task(specs[i]));
                if io_interval(specs[i]) > 0 {
                    assert(0int % (io_interval(specs[i]) as int) == 0) by (nonlinear_arith)
                        requires
                            io_interval(specs[i]) > 0,
                    ;
                }
            }
        }
        assert(pool_matches(scheduler.pool(), tasks@)) by {
            assert forall|id: usize| #[trigger] scheduler.pool().count(id) == (if id < tasks@.len()
                && tasks@[id as int].state == TaskState::Ready {
                1nat
            } else {
                0nat
            }) by {
                broadcast use vstd::multiset::group_multiset_axioms;
                if id < tasks@.len() {
                    assert(tasks@[id as int] == initial_task(specs[id as int]));
                }
            }
        }
        assert(levels_ok(tasks@)) by {
            assert forall|i: int| 0 <= i < tasks@.len() implies #[trigger] tasks@[i].mlfq_level
                < MLFQ_LEVELS by {
                assert(tasks@[i] == initial_task(specs[i]));
            }
        }
        assert(running_matches(running, tasks@)) by {
            assert forall|i: int|
                0 <= i < tasks@.len() && #[trigger] tasks@[i].state == TaskState::Running implies running
                == Some(i as usize) by {
                assert(tasks@[i] == initial_task(specs[i]));
            }
        }
    }
    let ghost threshold = workload.starvation_threshold;
    proof {
        assert(tasks@ =~= start_state(specs, v0).tasks);
        lemma_no_ticks_yet(tasks@, specs, tasks@.len() as int);
    }
    let mut done = false;
    while !done && now < MAX_TICKS
        invariant
            specs == workload.tasks@,
            threshold == workload.starvation_threshold,
            n == specs.len(),
            now <= MAX_TICKS,
            sim_ok(tasks@, scheduler, running, specs, now, now as int, now as int, false),
            starvation_count <= n * now,
            log_ok(events@, now as int),
            log_chains(events@, running, run_start, n as nat),
            progress_ok(events@, running, run_start, now as int, tasks@, specs),
            no_interactive(specs) ==> interactive_latencies@.len() == 0,
            latencies_match(interactive_latencies@, events@, specs),
            starvation_count > 0 ==> threshold < now,
            done ==> now >= 1,
            done ==> forall|i: int|
                0 <= i < tasks@.len() ==> #[trigger] tasks@[i].state == TaskState::Done,
            experiment_run::<S>(specs, threshold, v0) == ({
                let cur = SimState {
                    tasks: tasks@,
                    policy: scheduler@,
                    running,
                    run_start,
                    starvation: starvation_count,
                    latencies: interactive_latencies@,
                    events: events@,
                };
                if done {
                    (cur, now)
                } else {
                    run_from::<S>(cur, now, threshold)
                }
            }),
        decreases MAX_TICKS - now,
    {
        let ghost s0 = SimState {
            tasks: tasks@,
            policy: scheduler@,
            running,
            run_start,
            starvation: starvation_count,
            latencies: interactive_latencies@,
            events: events@,
        };
        sim_tick(
            &mut tasks,
            &mut scheduler,
            &mut running,
            &mut run_start,
            &mut starvation_count,
            &mut interactive_latencies,
            &mut events,
            now,
            workload.starvation_threshold,
            Ghost(specs),
        );
        done = all_done(&tasks);
        now += 1;
    }
    proof {
        assert forall|i: int| 0 <= i < tasks@.len() implies #[trigger] tasks@[i].waiting_time
            <= MAX_TICKS by {
            assert(task_ok(tasks@[i], specs[i], now as int, now as int, now as int, false));
        }
        assert forall|i: int| 0 <= i < tasks@.len() implies match #[trigger] tasks@[i].completion_time {
            Some(c) => c <= MAX_TICKS,
            None => true,
        } by {
            assert(task_ok(tasks@[i], specs[i], now as int, now as int, now as int, false));
        }
        assert forall|i: int, j: int|
            0 <= i < tasks@.len() && 0 <= j < tasks@.len() && #[trigger] tasks@[i].state
                == TaskState::Running && #[trigger] tasks@[j].state == TaskState::Running implies i
            == j by {
            assert((i as usize) as int == i);
            assert((j as usize) as int == j);
        }
    }
    proof {
        lemma_run_end(tasks@, specs, now, events@, running);
    }
    let (completed, total_wait, total_turn) = summarize(&tasks, now);
    proof {
        reveal(experiment_facts);
    }
    let totals = ExperimentTotals {
        completed,
        total_waiting: total_wait,
        total_turnaround: total_turn,
        task_count: n as u64,
        starvation_count,
        makespan: now,
        context_switches: events.len() as u64,
    };
    ExperimentResult {
        scheduler: name,
        workload: workload.name,
        totals,
        interactive_latencies,
        events,
        tasks,
    }
}

} // verus!
