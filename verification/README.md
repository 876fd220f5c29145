# tg_rcore_tutorial

Verified logic of a set of small RISC-V teaching-kernel components, written in
Verus.

- `src/sched`: five CPU scheduling policies (FCFS, SJF, round robin, a
  four-level feedback queue and a CFS-like policy) behind one `Scheduler`
  interface, and the tick-driven simulator that runs them on workloads and
  collects waiting, turnaround, starvation and context-switch data. Every
  policy operation is described by a function of the policy's view
  (`model_*` in `Scheduler`), and `src/sched/model.rs` composes them into a
  model of a whole run, which `run_experiment` is proved to follow.
- `src/storage`: a VirtIO block driver over MMIO, written as two state
  machines (the initialisation handshake and a single-sector request) that
  name each register or queue-memory access and consume its result.
- `src/disk_demo.rs`: the disk demo (read a sector, write a test pattern,
  read it back, compare, restore) as a state machine, with its pattern,
  decimal and hexadecimal encoders.
- `src/uart.rs`, `src/clock.rs`: the UART byte stream and set-up sequence,
  and the timer and trap decisions of the clock kernel.

`app/` holds what runs around the library: the experiment runner with its
floating-point metrics and CSV files, and the kernel glue that performs the
MMIO, CSR and SBI accesses the state machines ask for.
