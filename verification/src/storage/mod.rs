//! Logic of a minimal VirtIO block driver over MMIO: device discovery and the
//! initialisation handshake, and single-sector read/write requests on one
//! virtqueue. Register and memory accesses are left to the caller: each
//! operation is a state machine that names the next access and consumes its result.

pub mod regs;
pub mod init;
pub mod rw;
