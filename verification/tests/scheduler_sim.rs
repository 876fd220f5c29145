use tg_rcore_tutorial::sched::cfs::{CfsLikeScheduler, VirtualClock};
use tg_rcore_tutorial::sched::fcfs::FcfsScheduler;
use tg_rcore_tutorial::sched::mlfq::MlfqScheduler;
use tg_rcore_tutorial::sched::report::context_switch_csv;
use tg_rcore_tutorial::sched::rr::RrScheduler;
use tg_rcore_tutorial::sched::sim::{
    account_waiting, all_done, run_experiment, summarize, switch_context, ContextSwitchEvent, Workload,
};
use tg_rcore_tutorial::sched::sjf::SjfScheduler;
use tg_rcore_tutorial::sched::stats::sorted_samples;
use tg_rcore_tutorial::sched::suite::{run_suite, workload_suite};
use tg_rcore_tutorial::sched::task::{RuntimeTask, TaskClass, TaskSpec, TaskState, MAX_TICKS};

#[derive(Clone, Copy)]
struct FloatClock;

impl VirtualClock for FloatClock {
    fn charge(&self, vruntime: u64, class: TaskClass) -> u64 {
        let w = match class {
            TaskClass::Interactive => 0.85,
            TaskClass::IoBound => 1.0,
            TaskClass::CpuBound => 1.15,
        };
        (f64::from_bits(vruntime) + w).to_bits()
    }
    fn runs_ahead(&self, min_ready: u64, current: u64) -> bool {
        f64::from_bits(min_ready) + 0.5 < f64::from_bits(current)
    }
    fn spec_charge(&self, vruntime: u64, class: TaskClass) -> u64 {
        self.charge(vruntime, class)
    }
    fn spec_runs_ahead(&self, min_ready: u64, current: u64) -> bool {
        self.runs_ahead(min_ready, current)
    }
}

fn cpu(arrival: u64, total_cpu: u64) -> TaskSpec {
    TaskSpec { class: TaskClass::CpuBound, arrival, total_cpu, io_every: None, io_block: 0 }
}

#[test]
fn fcfs_two_tasks_exact_run() {
    let w = Workload { name: "pair", tasks: vec![cpu(0, 3), cpu(0, 2)], starvation_threshold: 100 };
    let r = run_experiment(&w, FcfsScheduler::new());
    assert_eq!(r.scheduler, "FCFS");
    assert_eq!(r.workload, "pair");
    assert_eq!(r.totals.makespan, 5);
    assert_eq!(r.totals.total_waiting, 3);
    assert_eq!(r.totals.total_turnaround, 8);
    assert_eq!(r.totals.completed, 2);
    assert_eq!(r.totals.task_count, 2);
    assert_eq!(r.totals.context_switches, 4);
    assert_eq!(r.totals.starvation_count, 0);
    assert_eq!(r.tasks[0].completion_time, Some(3));
    assert_eq!(r.tasks[1].completion_time, Some(5));
    let e: Vec<(u64, Option<usize>, Option<usize>, usize, u64)> =
        r.events.iter().map(|e| (e.ts, e.from, e.to, e.ready_len, e.run_fragment)).collect();
    assert_eq!(
        e,
        vec![
            (0, None, Some(0), 1, 0),
            (3, Some(0), None, 1, 3),
            (3, None, Some(1), 0, 0),
            (5, Some(1), None, 0, 2),
        ]
    );
}

#[test]
fn late_arrival_leaves_cpu_idle() {
    let w = Workload { name: "late", tasks: vec![cpu(4, 2)], starvation_threshold: 10 };
    let r = run_experiment(&w, FcfsScheduler::new());
    assert_eq!(r.totals.makespan, 6);
    assert_eq!(r.tasks[0].completion_time, Some(6));
    assert_eq!(r.totals.total_turnaround, 2);
    assert_eq!(r.totals.total_waiting, 0);
}

#[test]
fn io_task_blocks_and_wakes() {
    let w = Workload {
        name: "io",
        tasks: vec![TaskSpec { class: TaskClass::IoBound, arrival: 0, total_cpu: 4, io_every: Some(2), io_block: 3 }],
        starvation_threshold: 100,
    };
    let r = run_experiment(&w, FcfsScheduler::new());
    // runs ticks 0-1, blocked until 5, runs ticks 5-6
    assert_eq!(r.totals.makespan, 7);
    assert_eq!(r.tasks[0].completion_time, Some(7));
    assert_eq!(r.totals.context_switches, 4);
}

#[test]
fn starvation_is_counted_once_per_wait() {
    // the long task holds the CPU for 30 ticks under FCFS; the short one waits
    let w = Workload { name: "starve", tasks: vec![cpu(0, 30), cpu(0, 1)], starvation_threshold: 5 };
    let r = run_experiment(&w, FcfsScheduler::new());
    assert_eq!(r.totals.starvation_count, 1);
    assert_eq!(r.totals.total_waiting, 30);
    // under RR with slice 4 nobody waits more than 4 ticks
    let r = run_experiment(&w, RrScheduler::new(4));
    assert_eq!(r.totals.starvation_count, 0);
}

#[test]
fn sjf_runs_shortest_first() {
    let w = Workload { name: "sjf", tasks: vec![cpu(0, 5), cpu(0, 1), cpu(0, 3)], starvation_threshold: 100 };
    let r = run_experiment(&w, SjfScheduler::new());
    assert_eq!(r.tasks[1].completion_time, Some(1));
    assert_eq!(r.tasks[2].completion_time, Some(4));
    assert_eq!(r.tasks[0].completion_time, Some(9));
}

#[test]
fn interactive_latencies_are_recorded() {
    let w = Workload {
        name: "ia",
        tasks: vec![
            cpu(0, 3),
            TaskSpec { class: TaskClass::Interactive, arrival: 0, total_cpu: 1, io_every: None, io_block: 0 },
        ],
        starvation_threshold: 100,
    };
    let r = run_experiment(&w, FcfsScheduler::new());
    assert_eq!(r.interactive_latencies, vec![3]);
}

#[test]
fn zero_demand_task_finishes_after_one_tick() {
    let w = Workload { name: "zero", tasks: vec![cpu(0, 0)], starvation_threshold: 1 };
    let r = run_experiment(&w, FcfsScheduler::new());
    assert_eq!(r.totals.makespan, 1);
    assert_eq!(r.tasks[0].state, TaskState::Done);
}

#[test]
fn empty_workload_stops_after_one_tick() {
    let w = Workload { name: "none", tasks: vec![], starvation_threshold: 1 };
    let r = run_experiment(&w, FcfsScheduler::new());
    assert_eq!(r.totals.makespan, 1);
    assert_eq!(r.totals.completed, 1);
    assert!(r.events.is_empty());
}

#[test]
fn every_run_finishes_all_tasks_with_consistent_times() {
    let workloads = workload_suite();
    let results = run_suite(&workloads, FloatClock);
    assert_eq!(results.len(), 15);
    let names = ["FCFS", "SJF", "RR", "MLFQ", "CFS-like"];
    for (i, r) in results.iter().enumerate() {
        assert_eq!(r.scheduler, names[i % 5]);
        assert_eq!(r.workload, workloads[i / 5].name);
        assert!(r.totals.makespan < MAX_TICKS);
        for (t, s) in r.tasks.iter().zip(workloads[i / 5].tasks.iter()) {
            assert_eq!(t.state, TaskState::Done);
            let c = t.completion_time.unwrap();
            assert!(t.waiting_time + s.total_cpu <= c - s.arrival);
            assert!(c <= r.totals.makespan);
        }
        assert_eq!(r.totals.context_switches as usize, r.events.len());
        assert_eq!(r.totals.completed as usize, r.tasks.len());
    }
}

#[test]
fn cfs_run_with_float_clock() {
    let w = Workload { name: "cfs", tasks: vec![cpu(0, 10), cpu(0, 10)], starvation_threshold: 100 };
    let r = run_experiment(&w, CfsLikeScheduler::new(FloatClock));
    assert_eq!(r.scheduler, "CFS-like");
    assert_eq!(r.totals.makespan, 20);
    assert!(r.totals.context_switches > 4);
}

#[test]
fn workload_suite_shape() {
    let w = workload_suite();
    assert_eq!(w.len(), 3);
    assert_eq!(w[0].name, "CPU-bound");
    assert_eq!(w[0].starvation_threshold, 120);
    assert_eq!(w[0].tasks.len(), 4);
    assert_eq!(w[1].name, "IO-bound");
    assert_eq!(w[1].tasks.len(), 5);
    assert_eq!(w[1].tasks[3].io_every, Some(3));
    assert_eq!(w[2].name, "Mixed-interactive");
    assert_eq!(w[2].starvation_threshold, 80);
    assert_eq!(w[2].tasks.len(), 8);
    assert_eq!(w[2].tasks[7].total_cpu, 50);
}

#[test]
fn switch_to_same_task_logs_nothing() {
    let mut tasks = vec![RuntimeTask::from_spec(&cpu(0, 1))];
    let mut running = Some(0);
    let mut start = 4;
    let mut events: Vec<ContextSwitchEvent> = Vec::new();
    let mut lat = Vec::new();
    switch_context(&mut running, &mut start, Some(0), 9, &mut tasks, 2, &mut events, &mut lat);
    assert!(events.is_empty());
    assert_eq!(start, 4);
    switch_context(&mut running, &mut start, None, 9, &mut tasks, 2, &mut events, &mut lat);
    assert_eq!(events.len(), 1);
    assert_eq!(events[0].run_fragment, 5);
    assert_eq!(running, None);
    assert_eq!(start, 9);
}

#[test]
fn switch_to_interactive_records_latency() {
    let mut t = RuntimeTask::from_spec(&TaskSpec {
        class: TaskClass::Interactive,
        arrival: 0,
        total_cpu: 1,
        io_every: None,
        io_block: 0,
    });
    t.state = TaskState::Ready;
    t.ready_since = Some(3);
    t.starvation_marked = true;
    let mut tasks = vec![t];
    let mut running = None;
    let mut start = 0;
    let mut events = Vec::new();
    let mut lat = Vec::new();
    switch_context(&mut running, &mut start, Some(0), 10, &mut tasks, 0, &mut events, &mut lat);
    assert_eq!(lat, vec![7]);
    assert_eq!(tasks[0].state, TaskState::Running);
    assert_eq!(tasks[0].ready_since, None);
    assert!(!tasks[0].starvation_marked);
    assert_eq!(events[0].from, None);
    assert_eq!(events[0].to, Some(0));
}

#[test]
fn totals_of_a_table() {
    let mut a = RuntimeTask::from_spec(&cpu(2, 1));
    a.waiting_time = 4;
    a.completion_time = Some(10);
    a.state = TaskState::Done;
    let mut b = RuntimeTask::from_spec(&cpu(5, 1));
    b.waiting_time = 1;
    let tasks = vec![a, b];
    assert_eq!(summarize(&tasks, 20), (1, 5, 8 + 15));
    assert!(!all_done(&tasks));
    assert!(all_done(&vec![a]));
    assert_eq!(summarize(&vec![], 20), (1, 0, 0));
}

#[test]
fn samples_sort_ascending() {
    assert_eq!(sorted_samples(&vec![5, 1, 4, 1, 3]), vec![1, 1, 3, 4, 5]);
    assert_eq!(sorted_samples(&vec![]), Vec::<u64>::new());
}

#[test]
fn context_switch_log_text() {
    let w = Workload { name: "pair", tasks: vec![cpu(0, 1)], starvation_threshold: 100 };
    let r = run_experiment(&w, FcfsScheduler::new());
    let text = String::from_utf8(context_switch_csv(&vec![r])).unwrap();
    assert_eq!(
        text,
        "workload,scheduler,timestamp,from,to,ready_len,run_fragment\npair,FCFS,0,-,0,0,0\npair,FCFS,1,0,-,0,1\n"
    );
}

#[test]
fn waiting_is_charged_to_ready_tasks_and_starvation_marked_once() {
    let mut a = RuntimeTask::from_spec(&cpu(0, 5));
    a.state = TaskState::Ready;
    a.ready_since = Some(2);
    let mut b = a;
    b.ready_since = Some(9);
    let mut c = RuntimeTask::from_spec(&cpu(0, 5));
    c.state = TaskState::Running;
    let mut tasks = vec![a, b, c];
    assert_eq!(account_waiting(&mut tasks, 10, 5), 1);
    assert_eq!(tasks[0].waiting_time, 1);
    assert!(tasks[0].starvation_marked);
    assert_eq!(tasks[1].waiting_time, 1);
    assert!(!tasks[1].starvation_marked);
    assert_eq!(tasks[2].waiting_time, 0);
    // already marked: not counted again
    assert_eq!(account_waiting(&mut tasks, 11, 5), 0);
    assert_eq!(tasks[0].waiting_time, 2);
}

#[test]
fn fcfs_equal_pair_exact_log() {
    let w = Workload { name: "w", tasks: vec![cpu(0, 2), cpu(0, 2)], starvation_threshold: 100 };
    let r = run_experiment(&w, FcfsScheduler::new());
    assert_eq!(r.scheduler, "FCFS");
    assert_eq!(r.workload, "w");
    assert_eq!(r.totals.makespan, 4);
    assert_eq!(r.totals.total_waiting, 2);
    assert_eq!(r.totals.total_turnaround, 6);
    assert_eq!(r.totals.context_switches, 4);
    assert_eq!(r.totals.starvation_count, 0);
    assert!(r.interactive_latencies.is_empty());
    let e: Vec<(u64, Option<usize>, Option<usize>, usize, u64)> =
        r.events.iter().map(|e| (e.ts, e.from, e.to, e.ready_len, e.run_fragment)).collect();
    assert_eq!(
        e,
        vec![
            (0, None, Some(0), 1, 0),
            (2, Some(0), None, 1, 2),
            (2, None, Some(1), 0, 0),
            (4, Some(1), None, 0, 2),
        ]
    );
}

#[test]
fn switch_logs_link_up_in_every_suite_run() {
    let workloads = workload_suite();
    let results = run_suite(&workloads, FloatClock);
    for (i, r) in results.iter().enumerate() {
        let n = workloads[i / 5].tasks.len();
        for (k, e) in r.events.iter().enumerate() {
            assert_eq!(e.from.is_none(), e.to.is_some());
            assert!(e.from.map_or(true, |t| t < n) && e.to.map_or(true, |t| t < n));
            if k == 0 {
                assert_eq!(e.from, None);
            } else {
                let prev = &r.events[k - 1];
                assert_eq!(e.from, prev.to);
                let gap = if e.from.is_some() { e.ts - prev.ts } else { 0 };
                assert_eq!(e.run_fragment, gap);
            }
        }
        assert_eq!(r.events.last().unwrap().to, None);
    }
}

#[test]
fn runs_without_interactive_tasks_sample_no_latency() {
    let w = Workload { name: "cpu", tasks: vec![cpu(0, 4), cpu(1, 3), cpu(2, 5)], starvation_threshold: 2 };
    let r = run_experiment(&w, RrScheduler::new(2));
    assert!(r.interactive_latencies.is_empty());
}

#[test]
fn threshold_beyond_makespan_counts_no_starvation() {
    let w = Workload { name: "long", tasks: vec![cpu(0, 30), cpu(0, 30)], starvation_threshold: 60 };
    let r = run_experiment(&w, FcfsScheduler::new());
    assert_eq!(r.totals.makespan, 60);
    assert_eq!(r.totals.starvation_count, 0);
}

#[test]
fn equal_inputs_give_equal_runs() {
    let w = workload_suite().remove(2);
    let a = run_experiment(&w, MlfqScheduler::new());
    let b = run_experiment(&w, MlfqScheduler::new());
    let key = |r: &tg_rcore_tutorial::sched::sim::ExperimentResult| {
        r.events.iter().map(|e| (e.ts, e.from, e.to, e.ready_len, e.run_fragment)).collect::<Vec<_>>()
    };
    assert_eq!(key(&a), key(&b));
    assert_eq!(a.interactive_latencies, b.interactive_latencies);
    assert_eq!(a.totals.makespan, b.totals.makespan);
    assert_eq!(a.totals.starvation_count, b.totals.starvation_count);
    assert_eq!(a.totals.total_waiting, b.totals.total_waiting);
}

#[test]
fn run_fragments_add_up_to_demand() {
    let workloads = workload_suite();
    let results = run_suite(&workloads, FloatClock);
    for (i, r) in results.iter().enumerate() {
        let demand: u64 = workloads[i / 5].tasks.iter().map(|s| s.total_cpu.max(1)).sum();
        let fragments: u64 = r.events.iter().map(|e| e.run_fragment).sum();
        assert_eq!(fragments, demand);
        assert!(fragments <= r.totals.makespan);
        assert!(r.totals.total_turnaround >= r.totals.total_waiting + demand);
        for s in workloads[i / 5].tasks.iter() {
            assert!(s.arrival < r.totals.makespan);
        }
    }
}

#[test]
fn non_blocking_tasks_wait_exactly_turnaround_less_demand() {
    let w = Workload {
        name: "mix",
        tasks: vec![cpu(0, 5), cpu(2, 0), cpu(3, 4), cpu(9, 2)],
        starvation_threshold: 100,
    };
    for r in [
        run_experiment(&w, FcfsScheduler::new()),
        run_experiment(&w, RrScheduler::new(2)),
        run_experiment(&w, MlfqScheduler::new()),
    ] {
        for (t, s) in r.tasks.iter().zip(w.tasks.iter()) {
            let c = t.completion_time.unwrap();
            assert_eq!(c - s.arrival, t.waiting_time + s.total_cpu.max(1));
        }
    }
}

#[test]
fn turnaround_is_waiting_plus_demand_plus_blocked_time() {
    let workloads = workload_suite();
    let results = run_suite(&workloads, FloatClock);
    for (i, r) in results.iter().enumerate() {
        for (t, s) in r.tasks.iter().zip(workloads[i / 5].tasks.iter()) {
            let blocks = match s.io_every {
                Some(e) if e > 0 && s.total_cpu > 0 => (s.total_cpu - 1) / e,
                _ => 0,
            };
            let c = t.completion_time.unwrap();
            assert_eq!(c - s.arrival, t.waiting_time + s.total_cpu.max(1) + blocks * s.io_block);
        }
    }
}

#[test]
fn fcfs_and_sjf_never_preempt_cpu_bound_tasks() {
    let w = workload_suite().remove(0);
    for r in [run_experiment(&w, FcfsScheduler::new()), run_experiment(&w, SjfScheduler::new())] {
        // without I/O, a task leaves the CPU exactly once: when it finishes
        for t in 0..w.tasks.len() {
            assert_eq!(r.events.iter().filter(|e| e.from == Some(t)).count(), 1);
        }
    }
}
