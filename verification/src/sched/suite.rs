use vstd::prelude::*;
use crate::sched::task::{TaskSpec, TaskClass, MAX_TICKS};

use crate::sched::fcfs::FcfsScheduler;
use crate::sched::sjf::SjfScheduler;
use crate::sched::rr::{RrScheduler, RrView};
use crate::sched::mlfq::{MlfqScheduler, MlfqView};
use crate::sched::cfs::{CfsLikeScheduler, CfsView, VirtualClock};
use crate::sched::sim::{
    Workload, ExperimentResult, run_experiment, workload_fits, experiment_facts, reports_run,
};

verus! {

/// A task spec written out field by field.
pub open spec fn task(
    class: TaskClass,
    arrival: u64,
    total_cpu: u64,
    io_every: Option<u64>,
    io_block: u64,
) -> TaskSpec {
    TaskSpec { class, arrival, total_cpu, io_every, io_block }
}

/// Tasks of the CPU-bound workload: long computations that never block.
pub open spec fn cpu_bound_tasks() -> Seq<TaskSpec> {
    seq![
        task(TaskClass::CpuBound, 0, 140, None, 0),
        task(TaskClass::CpuBound, 3, 110, None, 0),
        task(TaskClass::CpuBound, 6, 90, None, 0),
        task(TaskClass::CpuBound, 10, 100, None, 0),
    ]
}

/// Tasks of the I/O-bound workload: short bursts between blocking waits.
pub open spec fn io_bound_tasks() -> Seq<TaskSpec> {
    seq![
        task(TaskClass::IoBound, 0, 90, Some(4), 6),
        task(TaskClass::IoBound, 1, 80, Some(5), 5),
        task(TaskClass::IoBound, 2, 70, Some(4), 7),
        task(TaskClass::IoBound, 5, 75, Some(3), 6),
        task(TaskClass::IoBound, 7, 60, Some(4), 8),
    ]
}

/// Tasks of the mixed workload: CPU-bound, I/O-bound and interactive tasks.
pub open spec fn mixed_tasks() -> Seq<TaskSpec> {
    seq![
        task(TaskClass::CpuBound, 0, 120, None, 0),
        task(TaskClass::CpuBound, 8, 95, None, 0),
        task(TaskClass::IoBound, 2, 80, Some(4), 6),
        task(TaskClass::IoBound, 3, 75, Some(5), 5),
        task(TaskClass::Interactive, 0, 65, Some(2), 4),
        task(TaskClass::Interactive, 1, 60, Some(2), 4),
        task(TaskClass::Interactive, 5, 55, Some(3), 3),
        task(TaskClass::Interactive, 9, 50, Some(2), 5),
    ]
}

fn spec_of(class: TaskClass, arrival: u64, total_cpu: u64, io_every: Option<u64>, io_block: u64) -> (r: TaskSpec)
    ensures
        r == task(class, arrival, total_cpu, io_every, io_block),
{
    TaskSpec { class, arrival, total_cpu, io_every, io_block }
}

/// The three built-in workloads: CPU-bound (starvation after 120 ticks),
/// I/O-bound (after 100) and mixed interactive (after 80).
pub fn workload_suite() -> (r: Vec<Workload>)
    ensures
        r@.len() == 3,
        r@[0].name@ == "CPU-bound"@,
        r@[0].starvation_threshold == 120,
        r@[0].tasks@ == cpu_bound_tasks(),
        r@[1].name@ == "IO-bound"@,
        r@[1].starvation_threshold == 100,
        r@[1].tasks@ == io_bound_tasks(),
        r@[2].name@ == "Mixed-interactive"@,
        r@[2].starvation_threshold == 80,
        r@[2].tasks@ == mixed_tasks(),
        forall|i: int| 0 <= i < r@.len() ==> workload_fits(#[trigger] r@[i].tasks@),
{
    let cpu = vec![
        spec_of(TaskClass::CpuBound, 0, 140, None, 0),
        spec_of(TaskClass::CpuBound, 3, 110, None, 0),
        spec_of(TaskClass::CpuBound, 6, 90, None, 0),
        spec_of(TaskClass::CpuBound, 10, 100, None, 0),
    ];
    let io = vec![
        spec_of(TaskClass::IoBound, 0, 90, Some(4), 6),
        spec_of(TaskClass::IoBound, 1, 80, Some(5), 5),
        spec_of(TaskClass::IoBound, 2, 70, Some(4), 7),
        spec_of(TaskClass::IoBound, 5, 75, Some(3), 6),
        spec_of(TaskClass::IoBound, 7, 60, Some(4), 8),
    ];
    let mixed = vec![
        spec_of(TaskClass::CpuBound, 0, 120, None, 0),
        spec_of(TaskClass::CpuBound, 8, 95, None, 0),
        spec_of(TaskClass::IoBound, 2, 80, Some(4), 6),
        spec_of(TaskClass::IoBound, 3, 75, Some(5), 5),
        spec_of(TaskClass::Interactive, 0, 65, Some(2), 4),
        spec_of(TaskClass::Interactive, 1, 60, Some(2), 4),
        spec_of(TaskClass::Interactive, 5, 55, Some(3), 3),
        spec_of(TaskClass::Interactive, 9, 50, Some(2), 5),
    ];
    proof {
        assert(cpu@ =~= cpu_bound_tasks());
        assert(io@ =~= io_bound_tasks());
        assert(mixed@ =~= mixed_tasks());
    }
    let r = vec![
        Workload { name: "CPU-bound", starvation_threshold: 120, tasks: cpu },
        Workload { name: "IO-bound", starvation_threshold: 100, tasks: io },
        Workload { name: "Mixed-interactive", starvation_threshold: 80, tasks: mixed },
    ];
    proof {
        assert forall|i: int| 0 <= i < r@.len() implies workload_fits(#[trigger] r@[i].tasks@) by {
            assert(r@[i].tasks@.len() <= 8);
            assert(r@[i].tasks@.len() * MAX_TICKS <= 8 * MAX_TICKS) by (nonlinear_arith)
                requires
                    r@[i].tasks@.len() <= 8,
            ;
        }
    }
    r
}

/// Name of the policy at position `p` of each group of five results.
pub open spec fn suite_label(p: int) -> Seq<char> {
    if p == 0 {
        "FCFS"@
    } else if p == 1 {
        "SJF"@
    } else if p == 2 {
        "RR"@
    } else if p == 3 {
        "MLFQ"@
    } else {
        "CFS-like"@
    }
}

/// The five results of workload `w` starting at position `at` report the runs
/// of FCFS, SJF, RR with slice 4, MLFQ (levels with slices 2, 4, 8 and 16, a
/// boost every 60 ticks) and CFS-like (granularity 2, target slice 6,
/// charging with `clock`), each from its initial state.
pub open spec fn suite_runs<C: VirtualClock>(
    w: Workload,
    clock: C,
    r: Seq<ExperimentResult>,
    at: int,
) -> bool {
    &&& reports_run::<FcfsScheduler>(w, Seq::empty(), r[at])
    &&& reports_run::<SjfScheduler>(w, Seq::empty(), r[at + 1])
    &&& reports_run::<RrScheduler>(
        w,
        RrView { queue: Seq::empty(), quantum: 4, running: None, used_slice: 0 },
        r[at + 2],
    )
    &&& reports_run::<MlfqScheduler>(
        w,
        MlfqView {
            levels: seq![Seq::empty(), Seq::empty(), Seq::empty(), Seq::empty()],
            quantums: seq![2u64, 4, 8, 16],
            boost_interval: 60,
            next_boost_at: 60,
            running: None,
            used_slice: 0,
        },
        r[at + 3],
    )
    &&& reports_run::<CfsLikeScheduler<C>>(
        w,
        CfsView {
            ready: Seq::empty(),
            running: None,
            used_slice: 0,
            min_granularity: 2,
            target_slice: 6,
            clock,
        },
        r[at + 4],
    )
}

/// Runs every workload under the five policies, in the order FCFS, SJF,
/// RR (slice 4), MLFQ and CFS-like (charging with `clock`).
#[verifier::rlimit(50)]
pub fn run_suite<C: VirtualClock + Copy>(workloads: &Vec<Workload>, clock: C) -> (r: Vec<ExperimentResult>)
    requires
        forall|i: int| 0 <= i < workloads@.len() ==> workload_fits(#[trigger] workloads@[i].tasks@),
    ensures
        r@.len() == 5 * workloads@.len(),
        forall|i: int, p: int|
            0 <= i < workloads@.len() && 0 <= p < 5 ==> experiment_facts(
                workloads@[i],
                #[trigger] r@[5 * i + p],
            ) && r@[5 * i + p].scheduler@ == suite_label(p),
        forall|i: int| 0 <= i < workloads@.len() ==> suite_runs(#[trigger] workloads@[i], clock, r@, 5 * i),
{
    let mut results: Vec<ExperimentResult> = Vec::new();
    let mut i: usize = 0;
    while i < workloads.len()
        invariant
            i <= workloads@.len(),
            results@.len() == 5 * i,
            forall|j: int| 0 <= j < workloads@.len() ==> workload_fits(#[trigger] workloads@[j].tasks@),
            forall|j: int, p: int|
                0 <= j < i && 0 <= p < 5 ==> experiment_facts(
                    workloads@[j],
                    #[trigger] results@[5 * j + p],
                ) && results@[5 * j + p].scheduler@ == suite_label(p),
            forall|j: int| 0 <= j < i ==> suite_runs(#[trigger] workloads@[j], clock, results@, 5 * j),
        decreases workloads@.len() - i,
    {
        let w = &workloads[i];
        let ghost pre = results@;
        results.push(run_experiment(w, FcfsScheduler::new()));
        results.push(run_experiment(w, SjfScheduler::new()));
        results.push(run_experiment(w, RrScheduler::new(4)));
        results.push(run_experiment(w, MlfqScheduler::new()));
        results.push(run_experiment(w, CfsLikeScheduler::new(clock)));
        proof {
            assert forall|j: int, p: int|
                0 <= j < i + 1 && 0 <= p < 5 implies experiment_facts(
                workloads@[j],
                #[trigger] results@[5 * j + p],
            ) && results@[5 * j + p].scheduler@ == suite_label(p) by {
                if j < i {
                    assert(results@[5 * j + p] == pre[5 * j + p]);
                }
            }
            assert forall|j: int| 0 <= j < i + 1 implies suite_runs(#[trigger] workloads@[j], clock, results@, 5 * j) by {
                if j < i {
                    assert(suite_runs(workloads@[j], clock, pre, 5 * j));
                    assert(results@[5 * j] == pre[5 * j]);
                    assert(results@[5 * j + 1] == pre[5 * j + 1]);
                    assert(results@[5 * j + 2] == pre[5 * j + 2]);
                    assert(results@[5 * j + 3] == pre[5 * j + 3]);
                    assert(results@[5 * j + 4] == pre[5 * j + 4]);
                }
            }
        }
        i += 1;
    }
    results
}

} // verus!
