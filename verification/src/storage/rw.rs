use vstd::prelude::*;
use crate::storage::regs::{
    StorageError, DriverState, SECTOR_SIZE, MMIO_QUEUE_NOTIFY, MMIO_INTERRUPT_STATUS,
    MMIO_INTERRUPT_ACK, VIRTQ_DESC_F_NEXT, VIRTQ_DESC_F_WRITE, VIRTIO_BLK_T_IN, VIRTIO_BLK_T_OUT,
};
use crate::storage::init::{MmioRequest, driver_wf};

verus! {

/// Header of a VirtIO block request.
#[derive(Debug, Clone, Copy, PartialEq, Eq, Structural)]
pub struct BlkReqHeader {
    pub req_type: u32,
    pub reserved: u32,
    pub sector: u64,
}

/// Size in bytes of a request header in memory.
pub const BLK_REQ_HEADER_LEN: u32 = 16;

/// One virtqueue descriptor.
#[derive(Debug, Clone, Copy, PartialEq, Eq, Structural)]
pub struct VirtqDesc {
    pub addr: u64,
    pub len: u32,
    pub flags: u16,
    pub next: u16,
}

/// Where the caller keeps the buffers of one request.
#[derive(Debug, Clone, Copy, PartialEq, Eq, Structural)]
pub struct RequestBuffers {
    /// The request header.
    pub header: u64,
    /// The sector's data.
    pub data: u64,
    /// The status byte the device fills in.
    pub status: u64,
}

/// Memory ordering the caller must enforce at a point of the request.
#[derive(Debug, Clone, Copy, PartialEq, Eq, Structural)]
pub enum Barrier {
    Release,
    Full,
    Acquire,
}

/// What a sector request asks for next.
#[derive(Debug, Clone, Copy)]
pub enum RwStep {
    /// Store `header` at the header buffer, set the status byte to `status_fill`,
    /// and write descriptors 0, 1 and 2 of the queue.
    Describe {
        header: BlkReqHeader,
        status_fill: u8,
        desc0: VirtqDesc,
        desc1: VirtqDesc,
        desc2: VirtqDesc,
    },
    /// Enforce a memory ordering.
    Fence(Barrier),
    /// Read the index field of the available ring and report it.
    ReadAvailIdx,
    /// Store `head` in entry `slot` of the available ring, then `new_idx` in its index field.
    Publish { slot: usize, head: u16, new_idx: u16 },
    /// A register access.
    Access(MmioRequest),
    /// Read the index field of the used ring and report it.
    ReadUsedIdx,
    /// Read the id of entry `slot` of the used ring and report it.
    ReadUsedId { slot: usize },
    /// Read the request's status byte and report it.
    ReadStatus,
    /// The request is over.
    Finished(Result<(), StorageError>),
}

/// Where a sector request stands: each phase names the step whose result
/// the next step consumes.
#[derive(Debug, Clone, Copy, PartialEq, Eq, Structural)]
pub enum RwPhase {
    Start,
    Described,
    Released,
    AvailRead,
    Published,
    Fenced,
    Notified,
    /// Waiting for the used index to move.
    Polling,
    /// The used index moved: read it for use.
    UsedIdxRead,
    UsedIdRead { new_idx: u16 },
    IrqRead { id: u32 },
    IrqAcked { id: u32 },
    Acquired { id: u32 },
    StatusRead,
    Done,
}

/// The three descriptors of a request: the header (read by the device), the
/// data (written by the device for a read), and the status byte (written by
/// the device), chained 0 -> 1 -> 2.
pub open spec fn request_chain(is_write: bool, bufs: RequestBuffers) -> (VirtqDesc, VirtqDesc, VirtqDesc) {
    (
        VirtqDesc { addr: bufs.header, len: BLK_REQ_HEADER_LEN, flags: VIRTQ_DESC_F_NEXT, next: 1 },
        VirtqDesc {
            addr: bufs.data,
            len: SECTOR_SIZE as u32,
            flags: if is_write { VIRTQ_DESC_F_NEXT } else { VIRTQ_DESC_F_NEXT | VIRTQ_DESC_F_WRITE },
            next: 2,
        },
        VirtqDesc { addr: bufs.status, len: 1, flags: VIRTQ_DESC_F_WRITE, next: 0 },
    )
}

/// The ring slot of the entry with index `idx` in a queue of `size` entries.
pub open spec fn ring_slot(idx: u16, size: u16) -> int {
    (idx as int) % (size as int)
}

/// The protocol of one sector request: from a phase, the driver state and the
/// result of the last step, the next phase, driver state and step.
///
/// A request on an uninitialised driver fails at once. Otherwise the header
/// and the three descriptors are written and released, descriptor 0 is
/// published in the next available slot and the device is notified; the
/// driver then polls until the used index moves, takes the newest used entry,
/// records the new used index, acknowledges a pending interrupt, and reports
/// a wrong used id, a non-zero status byte, or success.
pub open spec fn rw_next(
    phase: RwPhase,
    is_write: bool,
    sector: u64,
    bufs: RequestBuffers,
    d: DriverState,
    input: u32,
) -> (RwPhase, DriverState, RwStep) {
    match phase {
        RwPhase::Start => if !d.initialized {
            (RwPhase::Done, d, RwStep::Finished(Err(StorageError::NotInitialized)))
        } else {
            let chain = request_chain(is_write, bufs);
            (
                RwPhase::Described,
                d,
                RwStep::Describe {
                    header: BlkReqHeader {
                        req_type: if is_write { VIRTIO_BLK_T_OUT } else { VIRTIO_BLK_T_IN },
                        reserved: 0,
                        sector,
                    },
                    status_fill: 0xff,
                    desc0: chain.0,
                    desc1: chain.1,
                    desc2: chain.2,
                },
            )
        },
        RwPhase::Described => (RwPhase::Released, d, RwStep::Fence(Barrier::Release)),
        RwPhase::Released => (RwPhase::AvailRead, d, RwStep::ReadAvailIdx),
        RwPhase::AvailRead => {
            let old_idx = input as u16;
            (
                RwPhase::Published,
                d,
                RwStep::Publish {
                    slot: ring_slot(old_idx, d.queue_size) as usize,
                    head: 0,
                    new_idx: if old_idx == u16::MAX { 0 } else { (old_idx + 1) as u16 },
                },
            )
        },
        RwPhase::Published => (RwPhase::Fenced, d, RwStep::Fence(Barrier::Full)),
        RwPhase::Fenced => (
            RwPhase::Notified,
            d,
            RwStep::Access(MmioRequest::Write { base: d.mmio_base, offset: MMIO_QUEUE_NOTIFY, value: 0 }),
        ),
        RwPhase::Notified => (RwPhase::Polling, d, RwStep::ReadUsedIdx),
        RwPhase::Polling => if input as u16 == d.last_used_idx {
            (RwPhase::Polling, d, RwStep::ReadUsedIdx)
        } else {
            (RwPhase::UsedIdxRead, d, RwStep::ReadUsedIdx)
        },
        RwPhase::UsedIdxRead => {
            let new_idx = input as u16;
            let last = if new_idx == 0 { u16::MAX } else { (new_idx - 1) as u16 };
            (
                RwPhase::UsedIdRead { new_idx },
                d,
                RwStep::ReadUsedId { slot: ring_slot(last, d.queue_size) as usize },
            )
        },
        RwPhase::UsedIdRead { new_idx } => (
            RwPhase::IrqRead { id: input },
            DriverState { last_used_idx: new_idx, ..d },
            RwStep::Access(MmioRequest::Read { base: d.mmio_base, offset: MMIO_INTERRUPT_STATUS }),
        ),
        RwPhase::IrqRead { id } => if input != 0 {
            (
                RwPhase::IrqAcked { id },
                d,
                RwStep::Access(
                    MmioRequest::Write { base: d.mmio_base, offset: MMIO_INTERRUPT_ACK, value: input },
                ),
            )
        } else {
            (RwPhase::Acquired { id }, d, RwStep::Fence(Barrier::Acquire))
        },
        RwPhase::IrqAcked { id } => (RwPhase::Acquired { id }, d, RwStep::Fence(Barrier::Acquire)),
        RwPhase::Acquired { id } => if id != 0 {
            (RwPhase::Done, d, RwStep::Finished(Err(StorageError::UsedIdMismatch(id))))
        } else {
            (RwPhase::StatusRead, d, RwStep::ReadStatus)
        },
        RwPhase::StatusRead => {
            let status = input as u8;
            (
                RwPhase::Done,
                d,
                RwStep::Finished(if status == 0 { Ok(()) } else { Err(StorageError::IoError(status)) }),
            )
        },
        RwPhase::Done => (RwPhase::Done, d, RwStep::Finished(Err(StorageError::NotInitialized))),
    }
}

/// Past its start, a request runs on an initialised driver.
pub open spec fn rw_ok(phase: RwPhase, d: DriverState) -> bool {
    &&& driver_wf(d)
    &&& (phase != RwPhase::Start && phase != RwPhase::Done ==> d.initialized)
}

/// One single-sector request, one step at a time.
pub struct RwMachine {
    pub phase: RwPhase,
    pub is_write: bool,
    pub sector: u64,
    pub bufs: RequestBuffers,
}

/// A request that reads sector `sector` into the data buffer of `bufs`.
pub fn read_sector(sector: u64, bufs: RequestBuffers) -> (m: RwMachine)
    ensures
        m == (RwMachine { phase: RwPhase::Start, is_write: false, sector, bufs }),
{
    RwMachine { phase: RwPhase::Start, is_write: false, sector, bufs }
}

/// A request that writes the data buffer of `bufs` to sector `sector`.
pub fn write_sector(sector: u64, bufs: RequestBuffers) -> (m: RwMachine)
    ensures
        m == (RwMachine { phase: RwPhase::Start, is_write: true, sector, bufs }),
{
    RwMachine { phase: RwPhase::Start, is_write: true, sector, bufs }
}

impl RwMachine {
    /// Consumes the result of the last step (ignored where a step reports
    /// nothing) and names the next step, or ends.
    pub fn step(&mut self, driver: &mut DriverState, input: u32) -> (r: RwStep)
        requires
            old(self).phase != RwPhase::Done,
            rw_ok(old(self).phase, *old(driver)),
        ensures
            final(self).is_write == old(self).is_write,
            final(self).sector == old(self).sector,
            final(self).bufs == old(self).bufs,
            (final(self).phase, *final(driver), r) == rw_next(
                old(self).phase,
                old(self).is_write,
                old(self).sector,
                old(self).bufs,
                *old(driver),
                input,
            ),
            rw_ok(final(self).phase, *final(driver)),
    {
        match self.phase {
            RwPhase::Start => {
                if !driver.initialized {
                    self.phase = RwPhase::Done;
                    return RwStep::Finished(Err(StorageError::NotInitialized));
                }
                let header = BlkReqHeader {
                    req_type: if self.is_write { VIRTIO_BLK_T_OUT } else { VIRTIO_BLK_T_IN },
                    reserved: 0,
                    sector: self.sector,
                };
                let data_flags = if self.is_write {
                    VIRTQ_DESC_F_NEXT
                } else {
                    VIRTQ_DESC_F_NEXT | VIRTQ_DESC_F_WRITE
                };
                self.phase = RwPhase::Described;
                RwStep::Describe {
                    header,
                    status_fill: 0xff,
                    desc0: VirtqDesc {
                        addr: self.bufs.header,
                        len: BLK_REQ_HEADER_LEN,
                        flags: VIRTQ_DESC_F_NEXT,
                        next: 1,
                    },
                    desc1: VirtqDesc {
                        addr: self.bufs.data,
                        len: SECTOR_SIZE as u32,
                        flags: data_flags,
                        next: 2,
                    },
                    desc2: VirtqDesc {
                        addr: self.bufs.status,
                        len: 1,
                        flags: VIRTQ_DESC_F_WRITE,
                        next: 0,
                    },
                }
            },
            RwPhase::Described => {
                self.phase = RwPhase::Released;
                RwStep::Fence(Barrier::Release)
            },
            RwPhase::Released => {
                self.phase = RwPhase::AvailRead;
                RwStep::ReadAvailIdx
            },
            RwPhase::AvailRead => {
                let old_avail_idx = input as u16;
                let slot = (old_avail_idx as usize) % (driver.queue_size as usize);
                self.phase = RwPhase::Published;
                RwStep::Publish { slot, head: 0, new_idx: old_avail_idx.wrapping_add(1) }
            },
            RwPhase::Published => {
                self.phase = RwPhase::Fenced;
                RwStep::Fence(Barrier::Full)
            },
            RwPhase::Fenced => {
                self.phase = RwPhase::Notified;
                RwStep::Access(
                    MmioRequest::Write { base: driver.mmio_base, offset: MMIO_QUEUE_NOTIFY, value: 0 },
                )
            },
            RwPhase::Notified => {
                self.phase = RwPhase::Polling;
                RwStep::ReadUsedIdx
            },
            RwPhase::Polling => {
                if input as u16 != driver.last_used_idx {
                    self.phase = RwPhase::UsedIdxRead;
                }
                RwStep::ReadUsedIdx
            },
            RwPhase::UsedIdxRead => {
                let new_used_idx = input as u16;
                let slot = (new_used_idx.wrapping_sub(1) as usize) % (driver.queue_size as usize);
                self.phase = RwPhase::UsedIdRead { new_idx: new_used_idx };
                RwStep::ReadUsedId { slot }
            },
            RwPhase::UsedIdRead { new_idx } => {
                driver.last_used_idx = new_idx;
                self.phase = RwPhase::IrqRead { id: input };
                RwStep::Access(
                    MmioRequest::Read { base: driver.mmio_base, offset: MMIO_INTERRUPT_STATUS },
                )
            },
            RwPhase::IrqRead { id } => {
                if input != 0 {
                    self.phase = RwPhase::IrqAcked { id };
                    RwStep::Access(
                        MmioRequest::Write {
                            base: driver.mmio_base,
                            offset: MMIO_INTERRUPT_ACK,
                            value: input,
                        },
                    )
                } else {
                    self.phase = RwPhase::Acquired { id };
                    RwStep::Fence(Barrier::Acquire)
                }
            },
            RwPhase::IrqAcked { id } => {
                self.phase = RwPhase::Acquired { id };
                RwStep::Fence(Barrier::Acquire)
            },
            RwPhase::Acquired { id } => {
                if id != 0 {
                    self.phase = RwPhase::Done;
                    RwStep::Finished(Err(StorageError::UsedIdMismatch(id)))
                } else {
                    self.phase = RwPhase::StatusRead;
                    RwStep::ReadStatus
                }
            },
            RwPhase::StatusRead => {
                let status_code = input as u8;
                self.phase = RwPhase::Done;
                if status_code == 0 {
                    RwStep::Finished(Ok(()))
                } else {
                    RwStep::Finished(Err(StorageError::IoError(status_code)))
                }
            },
            RwPhase::Done => {
                RwStep::Finished(Err(StorageError::NotInitialized))
            },
        }
    }
}


/// A read request asks the device for data (`VIRTIO_BLK_T_IN`) and marks the
/// data buffer as written by the device; a write request sends data
/// (`VIRTIO_BLK_T_OUT`) in a buffer the device only reads. Header and status
/// descriptors are the same for both, and the chain runs 0 -> 1 -> 2.
pub proof fn lemma_request_direction(is_write: bool, sector: u64, bufs: RequestBuffers, d: DriverState, input: u32)
    requires
        d.initialized,
    ensures
        ({
            let (p, d2, s) = rw_next(RwPhase::Start, is_write, sector, bufs, d, input);
            &&& p == RwPhase::Described
            &&& d2 == d
            &&& s matches RwStep::Describe { header, desc0, desc1, desc2, .. } && {
                &&& header.sector == sector
                &&& header.req_type == (if is_write { VIRTIO_BLK_T_OUT } else { VIRTIO_BLK_T_IN })
                &&& (desc1.flags & VIRTQ_DESC_F_WRITE != 0) == !is_write
                &&& desc1.flags & VIRTQ_DESC_F_NEXT != 0
                &&& desc1.len == SECTOR_SIZE
                &&& desc1.addr == bufs.data
                &&& desc0.addr == bufs.header && desc0.next == 1
                &&& desc1.next == 2
                &&& desc2.addr == bufs.status && desc2.flags & VIRTQ_DESC_F_WRITE != 0
            }
        }),
{
    assert((1u16 | 2u16) & 2u16 != 0) by (bit_vector);
    assert((1u16 | 2u16) & 1u16 != 0) by (bit_vector);
    assert(1u16 & 2u16 == 0) by (bit_vector);
    assert(1u16 & 1u16 != 0) by (bit_vector);
    assert(2u16 & 2u16 != 0) by (bit_vector);
}

/// During a request the driver keeps its device, queue size and
/// initialisation; the only change it makes is to record the used index it
/// read, and every ring slot it names lies inside the queue.
pub proof fn lemma_request_step_bounds(
    phase: RwPhase,
    is_write: bool,
    sector: u64,
    bufs: RequestBuffers,
    d: DriverState,
    input: u32,
)
    requires
        rw_ok(phase, d),
        phase != RwPhase::Done,
    ensures
        ({
            let (p, d2, s) = rw_next(phase, is_write, sector, bufs, d, input);
            &&& d2.initialized == d.initialized
            &&& d2.mmio_base == d.mmio_base
            &&& d2.queue_size == d.queue_size
            &&& (d2.last_used_idx != d.last_used_idx ==> (phase matches RwPhase::UsedIdRead { new_idx }
                && d2.last_used_idx == new_idx))
            &&& (s matches RwStep::Publish { slot, .. } ==> slot < d.queue_size)
            &&& (s matches RwStep::ReadUsedId { slot } ==> slot < d.queue_size)
            &&& (s matches RwStep::Finished(Ok(_)) ==> phase == RwPhase::StatusRead && input as u8 == 0)
        }),
{
}

} // verus!
