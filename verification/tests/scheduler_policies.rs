use tg_rcore_tutorial::sched::cfs::{CentiClock, CfsLikeScheduler, VirtualClock};
use tg_rcore_tutorial::sched::fcfs::FcfsScheduler;
use tg_rcore_tutorial::sched::mlfq::MlfqScheduler;
use tg_rcore_tutorial::sched::policy::{Scheduler, TickAction};
use tg_rcore_tutorial::sched::rr::RrScheduler;
use tg_rcore_tutorial::sched::sjf::SjfScheduler;
use tg_rcore_tutorial::sched::task::{RuntimeTask, TaskClass, TaskSpec, TaskState};

fn spec(class: TaskClass, arrival: u64, total_cpu: u64) -> TaskSpec {
    TaskSpec { class, arrival, total_cpu, io_every: None, io_block: 0 }
}

fn table(cpus: &[u64]) -> Vec<RuntimeTask> {
    cpus.iter().map(|&c| RuntimeTask::from_spec(&spec(TaskClass::CpuBound, 0, c))).collect()
}

#[test]
fn from_spec_starts_new_with_full_demand() {
    let s = TaskSpec { class: TaskClass::IoBound, arrival: 7, total_cpu: 40, io_every: Some(3), io_block: 5 };
    let t = RuntimeTask::from_spec(&s);
    assert_eq!(t.state, TaskState::New);
    assert_eq!(t.remaining_cpu, 40);
    assert_eq!(t.arrival, 7);
    assert_eq!(t.io_every, Some(3));
    assert_eq!(t.io_block, 5);
    assert_eq!(t.waiting_time, 0);
    assert_eq!(t.completion_time, None);
    assert_eq!(t.mlfq_level, 0);
    assert_eq!(t.vruntime, 0);
}

#[test]
fn fcfs_serves_in_arrival_order() {
    let mut tasks = table(&[5, 5, 5]);
    let mut s = FcfsScheduler::new();
    assert_eq!(s.name(), "FCFS");
    s.enqueue(2, &mut tasks, 0);
    s.enqueue(0, &mut tasks, 0);
    s.on_wakeup(1, &mut tasks, 0);
    assert_eq!(s.ready_len(), 3);
    assert_eq!(s.on_tick(2, &mut tasks, 0), TickAction::Continue);
    assert_eq!(s.pick_next(&mut tasks, 0), Some(2));
    assert_eq!(s.pick_next(&mut tasks, 0), Some(0));
    assert_eq!(s.pick_next(&mut tasks, 0), Some(1));
    assert_eq!(s.pick_next(&mut tasks, 0), None);
    assert_eq!(s.ready_len(), 0);
}

#[test]
fn sjf_picks_first_shortest_and_swaps_last_in() {
    let mut tasks = table(&[50, 10, 10, 30]);
    let mut s = SjfScheduler::new();
    assert_eq!(s.name(), "SJF");
    for t in 0..4 {
        s.enqueue(t, &mut tasks, 0);
    }
    assert_eq!(s.pick_next(&mut tasks, 0), Some(1));
    // task 3 moved into position 1: [0, 3, 2]
    assert_eq!(s.pick_next(&mut tasks, 0), Some(2));
    assert_eq!(s.pick_next(&mut tasks, 0), Some(3));
    assert_eq!(s.pick_next(&mut tasks, 0), Some(0));
    assert_eq!(s.pick_next(&mut tasks, 0), None);
    assert_eq!(s.on_tick(0, &mut tasks, 0), TickAction::Continue);
}

#[test]
fn rr_preempts_after_quantum() {
    let mut tasks = table(&[9, 9]);
    let mut s = RrScheduler::new(3);
    assert_eq!(s.name(), "RR");
    s.enqueue(0, &mut tasks, 0);
    s.enqueue(1, &mut tasks, 0);
    assert_eq!(s.pick_next(&mut tasks, 0), Some(0));
    assert_eq!(s.on_tick(0, &mut tasks, 0), TickAction::Continue);
    assert_eq!(s.on_tick(0, &mut tasks, 1), TickAction::Continue);
    assert_eq!(s.on_tick(0, &mut tasks, 2), TickAction::Preempt);
    s.enqueue(0, &mut tasks, 3);
    assert_eq!(s.pick_next(&mut tasks, 3), Some(1));
    assert_eq!(s.ready_len(), 1);
}

#[test]
fn rr_block_resets_slice() {
    let mut tasks = table(&[9, 9]);
    let mut s = RrScheduler::new(2);
    s.enqueue(0, &mut tasks, 0);
    assert_eq!(s.pick_next(&mut tasks, 0), Some(0));
    assert_eq!(s.on_tick(0, &mut tasks, 0), TickAction::Continue);
    s.on_block(0, &mut tasks, 1);
    // a task found running without a slice on record starts a new slice
    assert_eq!(s.on_tick(1, &mut tasks, 1), TickAction::Continue);
    assert_eq!(s.on_tick(1, &mut tasks, 2), TickAction::Preempt);
}

#[test]
fn mlfq_demotes_on_expired_slice_and_promotes_on_wakeup() {
    let mut tasks = table(&[100, 100]);
    let mut s = MlfqScheduler::new();
    assert_eq!(s.name(), "MLFQ");
    s.enqueue(0, &mut tasks, 0);
    assert_eq!(s.pick_next(&mut tasks, 0), Some(0));
    assert_eq!(s.on_tick(0, &mut tasks, 0), TickAction::Continue);
    assert_eq!(s.on_tick(0, &mut tasks, 1), TickAction::Preempt);
    assert_eq!(tasks[0].mlfq_level, 1);
    s.enqueue(0, &mut tasks, 2);
    assert_eq!(s.pick_next(&mut tasks, 2), Some(0));
    // level 1 has a slice of 4 ticks
    for now in 2..5 {
        assert_eq!(s.on_tick(0, &mut tasks, now), TickAction::Continue);
    }
    assert_eq!(s.on_tick(0, &mut tasks, 5), TickAction::Preempt);
    assert_eq!(tasks[0].mlfq_level, 2);
    s.on_block(0, &mut tasks, 6);
    s.on_wakeup(0, &mut tasks, 7);
    assert_eq!(tasks[0].mlfq_level, 1);
    assert_eq!(s.ready_len(), 1);
}

#[test]
fn mlfq_prefers_higher_levels() {
    let mut tasks = table(&[10, 10]);
    tasks[0].mlfq_level = 3;
    let mut s = MlfqScheduler::new();
    s.enqueue(0, &mut tasks, 0);
    s.enqueue(1, &mut tasks, 0);
    assert_eq!(s.pick_next(&mut tasks, 0), Some(1));
    assert_eq!(s.pick_next(&mut tasks, 0), Some(0));
    assert_eq!(tasks[0].mlfq_level, 3);
    assert_eq!(s.pick_next(&mut tasks, 0), None);
}

#[test]
fn mlfq_boost_lifts_queued_tasks() {
    let mut tasks = table(&[10, 10, 10]);
    tasks[1].mlfq_level = 2;
    tasks[2].mlfq_level = 3;
    let mut s = MlfqScheduler::new();
    s.enqueue(1, &mut tasks, 0);
    s.enqueue(2, &mut tasks, 0);
    // task 0 runs at tick 60, when the first boost is due
    assert_eq!(s.on_tick(0, &mut tasks, 60), TickAction::Continue);
    assert_eq!(tasks[1].mlfq_level, 0);
    assert_eq!(tasks[2].mlfq_level, 0);
    assert_eq!(s.pick_next(&mut tasks, 61), Some(1));
    assert_eq!(s.pick_next(&mut tasks, 61), Some(2));
}

#[test]
fn cfs_picks_least_vruntime_and_preempts_when_ahead() {
    let mut tasks = table(&[50, 50, 50]);
    tasks[0].vruntime = 300;
    tasks[1].vruntime = 100;
    tasks[2].vruntime = 100;
    let mut s = CfsLikeScheduler::new(CentiClock);
    assert_eq!(s.name(), "CFS-like");
    s.enqueue(0, &mut tasks, 0);
    s.enqueue(1, &mut tasks, 0);
    s.enqueue(2, &mut tasks, 0);
    assert_eq!(s.pick_next(&mut tasks, 0), Some(1));
    assert_eq!(s.ready_len(), 2);
    // two ready tasks: slice max(6 / 2, 2) = 3 ticks
    assert_eq!(s.on_tick(1, &mut tasks, 0), TickAction::Continue);
    assert_eq!(tasks[1].vruntime, 215);
    assert_eq!(s.on_tick(1, &mut tasks, 1), TickAction::Continue);
    // third tick: 445 > 100 + 50, behind task 2
    assert_eq!(s.on_tick(1, &mut tasks, 2), TickAction::Preempt);
    assert_eq!(tasks[1].vruntime, 445);
}

#[test]
fn cfs_keeps_running_when_nobody_waits() {
    let mut tasks = table(&[50]);
    let mut s = CfsLikeScheduler::new(CentiClock);
    s.enqueue(0, &mut tasks, 0);
    assert_eq!(s.pick_next(&mut tasks, 0), Some(0));
    for now in 0..10 {
        assert_eq!(s.on_tick(0, &mut tasks, now), TickAction::Continue);
    }
    assert_eq!(tasks[0].vruntime, 1150);
    assert_eq!(s.pick_next(&mut tasks, 10), None);
}

#[test]
fn centi_clock_charges_class_weights_and_compares_by_half_a_tick() {
    let c = CentiClock;
    assert_eq!(c.charge(0, TaskClass::Interactive), 85);
    assert_eq!(c.charge(100, TaskClass::IoBound), 200);
    assert_eq!(c.charge(1000, TaskClass::CpuBound), 1115);
    assert_eq!(c.charge(u64::MAX - 10, TaskClass::CpuBound), u64::MAX);
    assert!(c.runs_ahead(100, 151));
    assert!(!c.runs_ahead(100, 150));
    assert!(!c.runs_ahead(200, 100));
}

#[test]
fn fcfs_interleaved_calls_keep_first_in_first_out() {
    let mut tasks = table(&[5, 5, 5, 5]);
    let mut s = FcfsScheduler::new();
    s.enqueue(3, &mut tasks, 0);
    assert_eq!(s.pick_next(&mut tasks, 0), Some(3));
    assert_eq!(s.pick_next(&mut tasks, 0), None);
    s.on_wakeup(1, &mut tasks, 1);
    s.enqueue(0, &mut tasks, 1);
    assert_eq!(s.on_tick(1, &mut tasks, 1), TickAction::Continue);
    s.on_block(1, &mut tasks, 2);
    assert_eq!(s.pick_next(&mut tasks, 2), Some(1));
    s.enqueue(2, &mut tasks, 3);
    assert_eq!(s.ready_len(), 2);
    assert_eq!(s.pick_next(&mut tasks, 3), Some(0));
    assert_eq!(s.pick_next(&mut tasks, 3), Some(2));
    assert_eq!(s.pick_next(&mut tasks, 3), None);
}

#[test]
fn rr_preempts_on_every_quantum_th_tick() {
    let mut tasks = table(&[20]);
    let mut s = RrScheduler::new(3);
    s.enqueue(0, &mut tasks, 0);
    assert_eq!(s.pick_next(&mut tasks, 0), Some(0));
    for k in 1..=9u64 {
        let expected = if k % 3 == 0 { TickAction::Preempt } else { TickAction::Continue };
        assert_eq!(s.on_tick(0, &mut tasks, k), expected);
    }
    let mut z = RrScheduler::new(0);
    z.enqueue(0, &mut tasks, 0);
    assert_eq!(z.pick_next(&mut tasks, 0), Some(0));
    assert_eq!(z.on_tick(0, &mut tasks, 0), TickAction::Preempt);
    assert_eq!(z.on_tick(0, &mut tasks, 1), TickAction::Preempt);
}

#[test]
fn mlfq_slice_counts_through_a_boost() {
    let mut tasks = table(&[100, 100]);
    let mut s = MlfqScheduler::new();
    s.enqueue(0, &mut tasks, 0);
    s.enqueue(1, &mut tasks, 0);
    assert_eq!(s.pick_next(&mut tasks, 58), Some(0));
    // the boost is due at tick 60, during task 0's slice of 2 ticks
    assert_eq!(s.on_tick(0, &mut tasks, 59), TickAction::Continue);
    assert_eq!(s.on_tick(0, &mut tasks, 60), TickAction::Preempt);
    assert_eq!(tasks[0].mlfq_level, 1);
    assert_eq!(tasks[1].mlfq_level, 0);
}

#[test]
fn cfs_runtime_grows_and_preempts_when_ahead() {
    let mut tasks = table(&[100, 100]);
    let mut s = CfsLikeScheduler::new(CentiClock);
    s.enqueue(0, &mut tasks, 0);
    s.enqueue(1, &mut tasks, 0);
    assert_eq!(s.pick_next(&mut tasks, 0), Some(0));
    // one task waits, so the slice is 6 ticks; task 0 runs ahead after that
    let mut last = tasks[0].vruntime;
    for k in 0..5u64 {
        assert_eq!(s.on_tick(0, &mut tasks, k), TickAction::Continue);
        assert!(tasks[0].vruntime > last);
        last = tasks[0].vruntime;
    }
    assert_eq!(s.on_tick(0, &mut tasks, 5), TickAction::Preempt);
    assert_eq!(tasks[0].vruntime, 6 * 115);
    assert_eq!(tasks[1].vruntime, 0);
}
