//! Verified core of a set of small teaching-kernel components: a suite of CPU
//! scheduling policies with the simulator that compares them, the logic of a
//! VirtIO block driver and of its disk read/write demo, a UART byte encoder,
//! and the decisions of a timer-interrupt kernel.

pub mod sched;
pub mod storage;
pub mod disk_demo;
pub mod uart;
pub mod clock;
