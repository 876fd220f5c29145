use vstd::prelude::*;

verus! {

/// Number of ticks after which a simulation run stops even if tasks remain.
pub const MAX_TICKS: u64 = 500_000;

/// Number of priority levels of the multi-level feedback queue.
pub const MLFQ_LEVELS: usize = 4;

/// Kind of a task; workloads mix kinds and the CFS-like policy charges them differently.
#[derive(Clone, Copy, Debug, PartialEq, Eq, Structural)]
pub enum TaskClass {
    CpuBound,
    IoBound,
    Interactive,
}

/// Life-cycle state of a simulated task.
#[derive(Clone, Copy, Debug, PartialEq, Eq, Structural)]
pub enum TaskState {
    New,
    Ready,
    Running,
    Blocked,
    Done,
}

/// Static description of a task: when it arrives, how much CPU it needs,
/// and how often (if ever) it blocks for I/O and for how long.
#[derive(Clone, Copy, Debug)]
pub struct TaskSpec {
    pub class: TaskClass,
    pub arrival: u64,
    pub total_cpu: u64,
    pub io_every: Option<u64>,
    pub io_block: u64,
}

/// Run-time state of a task inside one simulation.
///
/// `vruntime` is the encoding of the task's virtual runtime used by the
/// CFS-like policy: the integer order of encodings is the order of the
/// runtimes they stand for (see `VirtualClock`).
#[derive(Clone, Copy, Debug)]
pub struct RuntimeTask {
    pub class: TaskClass,
    pub arrival: u64,
    pub remaining_cpu: u64,
    pub io_every: Option<u64>,
    pub io_block: u64,
    pub run_since_io: u64,
    pub state: TaskState,
    pub unblock_at: Option<u64>,
    pub ready_since: Option<u64>,
    pub waiting_time: u64,
    pub completion_time: Option<u64>,
    pub vruntime: u64,
    pub mlfq_level: usize,
    pub starvation_marked: bool,
}

/// The run-time task that a spec starts as: new, with all its CPU demand left.
pub open spec fn initial_task(spec: TaskSpec) -> RuntimeTask {
    RuntimeTask {
        class: spec.class,
        arrival: spec.arrival,
        remaining_cpu: spec.total_cpu,
        io_every: spec.io_every,
        io_block: spec.io_block,
        run_since_io: 0,
        state: TaskState::New,
        unblock_at: None,
        ready_since: None,
        waiting_time: 0,
        completion_time: None,
        vruntime: 0,
        mlfq_level: 0,
        starvation_marked: false,
    }
}

impl RuntimeTask {
    /// Turns a static task description into a schedulable run-time task.
    pub fn from_spec(spec: &TaskSpec) -> (r: RuntimeTask)
        ensures
            r == initial_task(*spec),
    {
        RuntimeTask {
            class: spec.class,
            arrival: spec.arrival,
            remaining_cpu: spec.total_cpu,
            io_every: spec.io_every,
            io_block: spec.io_block,
            run_since_io: 0,
            state: TaskState::New,
            unblock_at: None,
            ready_since: None,
            waiting_time: 0,
            completion_time: None,
            vruntime: 0,
            mlfq_level: 0,
            starvation_marked: false,
        }
    }
}

/// Two task records agree on everything a scheduling policy may not touch:
/// a policy may only change the MLFQ level and the virtual runtime.
pub open spec fn same_but_policy(a: RuntimeTask, b: RuntimeTask) -> bool {
    &&& a.class == b.class
    &&& a.arrival == b.arrival
    &&& a.remaining_cpu == b.remaining_cpu
    &&& a.io_every == b.io_every
    &&& a.io_block == b.io_block
    &&& a.run_since_io == b.run_since_io
    &&& a.state == b.state
    &&& a.unblock_at == b.unblock_at
    &&& a.ready_since == b.ready_since
    &&& a.waiting_time == b.waiting_time
    &&& a.completion_time == b.completion_time
    &&& a.starvation_marked == b.starvation_marked
}

/// `after` differs from `before` only in policy-owned fields.
pub open spec fn policy_only(before: Seq<RuntimeTask>, after: Seq<RuntimeTask>) -> bool {
    &&& before.len() == after.len()
    &&& forall|i: int| 0 <= i < before.len() ==> #[trigger] same_but_policy(before[i], after[i])
}

/// Every task's MLFQ level names an existing level.
pub open spec fn levels_ok(tasks: Seq<RuntimeTask>) -> bool {
    forall|i: int| 0 <= i < tasks.len() ==> #[trigger] tasks[i].mlfq_level < MLFQ_LEVELS
}

} // verus!
