//! CPU scheduling policies and the tick-driven simulator that compares them.

pub mod task;
pub mod policy;
pub mod pool_lemmas;
pub mod fcfs;
pub mod sjf;
pub mod rr;
pub mod mlfq;
pub mod cfs;
pub mod sim;
pub mod model;
pub mod suite;
pub mod stats;
pub mod report;
