use vstd::prelude::*;
use crate::storage::regs::{
    StorageError, DriverState, slot_base, capacity_of, read_capacity_sectors, VIRTIO_MMIO_START,
    VIRTIO_MMIO_STRIDE, VIRTIO_MMIO_SLOTS, MMIO_MAGIC_VALUE, MMIO_VERSION, MMIO_DEVICE_ID,
    MMIO_DEVICE_FEATURES, MMIO_DEVICE_FEATURES_SEL, MMIO_DRIVER_FEATURES, MMIO_DRIVER_FEATURES_SEL,
    MMIO_QUEUE_SEL, MMIO_QUEUE_NUM_MAX, MMIO_QUEUE_NUM, MMIO_QUEUE_READY, MMIO_STATUS,
    MMIO_QUEUE_DESC_LOW, MMIO_QUEUE_DESC_HIGH, MMIO_QUEUE_DRIVER_LOW, MMIO_QUEUE_DRIVER_HIGH,
    MMIO_QUEUE_DEVICE_LOW, MMIO_QUEUE_DEVICE_HIGH, MMIO_CONFIG_SPACE, VIRTIO_MAGIC, VIRTIO_VERSION_2,
    VIRTIO_DEVICE_BLOCK, STATUS_ACKNOWLEDGE, STATUS_DRIVER, STATUS_DRIVER_OK, STATUS_FEATURES_OK,
    QUEUE_SIZE,
};

verus! {

/// A device access the driver asks its caller to perform.
#[derive(Debug, Clone, Copy, PartialEq, Eq, Structural)]
pub enum MmioRequest {
    /// Read the 32-bit register at `base + offset` and report its value.
    Read { base: usize, offset: usize },
    /// Write `value` to the 32-bit register at `base + offset`.
    Write { base: usize, offset: usize, value: u32 },
    /// Read the index field of the used ring in queue memory and report it.
    ReadUsedIdx,
}

/// What the initialisation asks for next.
#[derive(Debug, Clone, Copy)]
pub enum InitStep {
    Access(MmioRequest),
    /// Initialisation is over: the capacity in sectors, or why it failed.
    Finished(Result<u64, StorageError>),
}

/// Physical addresses of the three parts of the driver's virtqueue memory.
#[derive(Debug, Clone, Copy, PartialEq, Eq, Structural)]
pub struct QueueLayout {
    pub desc: u64,
    pub avail: u64,
    pub used: u64,
}

/// Where the initialisation stands: each phase names the access whose result
/// the next step consumes.
#[derive(Debug, Clone, Copy, PartialEq, Eq, Structural)]
pub enum InitPhase {
    Start,
    /// Probing slot `slot`: magic register requested.
    Magic { slot: usize },
    /// Probing slot `slot`: device id requested.
    DeviceId { slot: usize },
    /// Block device found in slot `slot`: version requested.
    Version { slot: usize },
    RecheckId { base: usize },
    RecheckMagic { base: usize },
    /// Status reset written.
    Reset { base: usize },
    /// ACKNOWLEDGE written.
    Ack { base: usize },
    /// DRIVER written.
    Driver { base: usize },
    FeatSel { base: usize },
    FeatRead { base: usize },
    DrvFeatSel { base: usize },
    DrvFeat { base: usize },
    /// FEATURES_OK written.
    FeaturesOk { base: usize },
    /// Status read back after FEATURES_OK.
    FeaturesCheck { base: usize },
    QueueSel { base: usize },
    QueueMax { base: usize },
    QueueNum { base: usize, queue_size: u16 },
    /// Queue address word `k` (0..6) written.
    QueueAddr { base: usize, queue_size: u16, k: usize },
    QueueReady { base: usize, queue_size: u16 },
    UsedIdx { base: usize, queue_size: u16 },
    /// DRIVER_OK written.
    DriverOk { base: usize },
    /// Status read back after DRIVER_OK.
    DriverOkCheck { base: usize },
    CapLow { base: usize },
    CapHigh { base: usize, low: u32 },
    Done,
}

pub open spec fn rd(base: usize, offset: usize) -> InitStep {
    InitStep::Access(MmioRequest::Read { base, offset })
}

pub open spec fn wr(base: usize, offset: usize, value: u32) -> InitStep {
    InitStep::Access(MmioRequest::Write { base, offset, value })
}

pub open spec fn fail(e: StorageError) -> InitStep {
    InitStep::Finished(Err(e))
}

/// Register receiving queue address word `k`: descriptor table, driver
/// (available) ring and device (used) ring, low word first.
pub open spec fn addr_reg(k: int) -> usize {
    if k == 0 {
        MMIO_QUEUE_DESC_LOW
    } else if k == 1 {
        MMIO_QUEUE_DESC_HIGH
    } else if k == 2 {
        MMIO_QUEUE_DRIVER_LOW
    } else if k == 3 {
        MMIO_QUEUE_DRIVER_HIGH
    } else if k == 4 {
        MMIO_QUEUE_DEVICE_LOW
    } else {
        MMIO_QUEUE_DEVICE_HIGH
    }
}

/// Queue address word `k`.
pub open spec fn addr_word(layout: QueueLayout, k: int) -> u32 {
    let a = if k < 2 { layout.desc } else if k < 4 { layout.avail } else { layout.used };
    if k % 2 == 0 { a as u32 } else { (a >> 32) as u32 }
}

/// Probe slot `slot`, or give up when all slots are probed.
pub open spec fn probe(slot: int, d: DriverState) -> (InitPhase, DriverState, InitStep) {
    if slot < VIRTIO_MMIO_SLOTS {
        (
            InitPhase::Magic { slot: slot as usize },
            d,
            rd(slot_base(slot) as usize, MMIO_MAGIC_VALUE),
        )
    } else {
        (InitPhase::Done, d, fail(StorageError::DeviceNotFound))
    }
}

/// Queue size the driver uses for a device offering `max` entries.
pub open spec fn chosen_queue_size(max: u16) -> u16 {
    if (max as int) < QUEUE_SIZE { max } else { QUEUE_SIZE as u16 }
}

/// The initialisation protocol: from a phase, the driver state and the result
/// of the last access, the next phase, driver state and request.
///
/// An already initialised driver only reads the capacity. Otherwise the slots
/// are probed for a block device (magic, then device id, then version); the
/// found device must speak version 2, and its id and magic are checked again.
/// The status register then goes through reset, ACKNOWLEDGE, DRIVER and
/// FEATURES_OK (no features are negotiated), which the device must confirm;
/// queue 0 is sized (at most `QUEUE_SIZE`, at least 3 entries) and given the
/// queue memory, the driver records the device and the used index, writes
/// DRIVER_OK, which the device must confirm, and reads the capacity.
pub open spec fn init_next(phase: InitPhase, layout: QueueLayout, d: DriverState, input: u32) -> (
    InitPhase,
    DriverState,
    InitStep,
) {
    match phase {
        InitPhase::Start => if d.initialized {
            (InitPhase::CapLow { base: d.mmio_base }, d, rd(d.mmio_base, MMIO_CONFIG_SPACE))
        } else {
            probe(0, d)
        },
        InitPhase::Magic { slot } => if input != VIRTIO_MAGIC {
            probe(slot + 1, d)
        } else {
            (InitPhase::DeviceId { slot }, d, rd(slot_base(slot as int) as usize, MMIO_DEVICE_ID))
        },
        InitPhase::DeviceId { slot } => if input == VIRTIO_DEVICE_BLOCK {
            (InitPhase::Version { slot }, d, rd(slot_base(slot as int) as usize, MMIO_VERSION))
        } else {
            probe(slot + 1, d)
        },
        InitPhase::Version { slot } => if input != VIRTIO_VERSION_2 {
            (InitPhase::Done, d, fail(StorageError::UnsupportedVersion(input)))
        } else {
            let base = slot_base(slot as int) as usize;
            (InitPhase::RecheckId { base }, d, rd(base, MMIO_DEVICE_ID))
        },
        InitPhase::RecheckId { base } => if input != VIRTIO_DEVICE_BLOCK {
            (InitPhase::Done, d, fail(StorageError::UnexpectedDevice(input)))
        } else {
            (InitPhase::RecheckMagic { base }, d, rd(base, MMIO_MAGIC_VALUE))
        },
        InitPhase::RecheckMagic { base } => if input != VIRTIO_MAGIC {
            (InitPhase::Done, d, fail(StorageError::BadMagic(input)))
        } else {
            (InitPhase::Reset { base }, d, wr(base, MMIO_STATUS, 0))
        },
        InitPhase::Reset { base } => (
            InitPhase::Ack { base },
            d,
            wr(base, MMIO_STATUS, STATUS_ACKNOWLEDGE),
        ),
        InitPhase::Ack { base } => (
            InitPhase::Driver { base },
            d,
            wr(base, MMIO_STATUS, STATUS_ACKNOWLEDGE | STATUS_DRIVER),
        ),
        InitPhase::Driver { base } => (
            InitPhase::FeatSel { base },
            d,
            wr(base, MMIO_DEVICE_FEATURES_SEL, 0),
        ),
        InitPhase::FeatSel { base } => (
            InitPhase::FeatRead { base },
            d,
            rd(base, MMIO_DEVICE_FEATURES),
        ),
        InitPhase::FeatRead { base } => (
            InitPhase::DrvFeatSel { base },
            d,
            wr(base, MMIO_DRIVER_FEATURES_SEL, 0),
        ),
        InitPhase::DrvFeatSel { base } => (
            InitPhase::DrvFeat { base },
            d,
            wr(base, MMIO_DRIVER_FEATURES, 0),
        ),
        InitPhase::DrvFeat { base } => (
            InitPhase::FeaturesOk { base },
            d,
            wr(base, MMIO_STATUS, STATUS_ACKNOWLEDGE | STATUS_DRIVER | STATUS_FEATURES_OK),
        ),
        InitPhase::FeaturesOk { base } => (
            InitPhase::FeaturesCheck { base },
            d,
            rd(base, MMIO_STATUS),
        ),
        InitPhase::FeaturesCheck { base } => if input & STATUS_FEATURES_OK == 0 {
            (InitPhase::Done, d, fail(StorageError::FeatureNegotiationFailed))
        } else {
            (InitPhase::QueueSel { base }, d, wr(base, MMIO_QUEUE_SEL, 0))
        },
        InitPhase::QueueSel { base } => (
            InitPhase::QueueMax { base },
            d,
            rd(base, MMIO_QUEUE_NUM_MAX),
        ),
        InitPhase::QueueMax { base } => {
            let max = input as u16;
            let qs = chosen_queue_size(max);
            if max == 0 {
                (InitPhase::Done, d, fail(StorageError::QueueUnavailable))
            } else if qs < 3 {
                (InitPhase::Done, d, fail(StorageError::QueueTooSmall(max)))
            } else {
                (InitPhase::QueueNum { base, queue_size: qs }, d, wr(base, MMIO_QUEUE_NUM, qs as u32))
            }
        },
        InitPhase::QueueNum { base, queue_size } => (
            InitPhase::QueueAddr { base, queue_size, k: 0 },
            d,
            wr(base, addr_reg(0), addr_word(layout, 0)),
        ),
        InitPhase::QueueAddr { base, queue_size, k } => if k + 1 < 6 {
            (
                InitPhase::QueueAddr { base, queue_size, k: (k + 1) as usize },
                d,
                wr(base, addr_reg(k + 1), addr_word(layout, k + 1)),
            )
        } else {
            (InitPhase::QueueReady { base, queue_size }, d, wr(base, MMIO_QUEUE_READY, 1))
        },
        InitPhase::QueueReady { base, queue_size } => (
            InitPhase::UsedIdx { base, queue_size },
            d,
            InitStep::Access(MmioRequest::ReadUsedIdx),
        ),
        InitPhase::UsedIdx { base, queue_size } => (
            InitPhase::DriverOk { base },
            DriverState { mmio_base: base, last_used_idx: input as u16, queue_size, ..d },
            wr(
                base,
                MMIO_STATUS,
                STATUS_ACKNOWLEDGE | STATUS_DRIVER | STATUS_FEATURES_OK | STATUS_DRIVER_OK,
            ),
        ),
        InitPhase::DriverOk { base } => (
            InitPhase::DriverOkCheck { base },
            d,
            rd(base, MMIO_STATUS),
        ),
        InitPhase::DriverOkCheck { base } => if input & STATUS_DRIVER_OK == 0 {
            (InitPhase::Done, d, fail(StorageError::DeviceNotReady))
        } else {
            (
                InitPhase::CapLow { base },
                DriverState { initialized: true, ..d },
                rd(base, MMIO_CONFIG_SPACE),
            )
        },
        InitPhase::CapLow { base } => (
            InitPhase::CapHigh { base, low: input },
            d,
            rd(base, (MMIO_CONFIG_SPACE + 4) as usize),
        ),
        InitPhase::CapHigh { base, low } => (
            InitPhase::Done,
            d,
            InitStep::Finished(Ok(capacity_of(low, input) as u64)),
        ),
        InitPhase::Done => (InitPhase::Done, d, fail(StorageError::NotInitialized)),
    }
}

/// An initialised driver uses between 3 and `QUEUE_SIZE` queue entries.
pub open spec fn driver_wf(d: DriverState) -> bool {
    d.initialized ==> 3 <= d.queue_size <= QUEUE_SIZE
}

/// The phase is one the machine can be in between steps, with a chosen queue
/// size in range.
pub open spec fn phase_ok(phase: InitPhase, d: DriverState) -> bool {
    &&& driver_wf(d)
    &&& match phase {
        InitPhase::Magic { slot } => slot < VIRTIO_MMIO_SLOTS,
        InitPhase::DeviceId { slot } => slot < VIRTIO_MMIO_SLOTS,
        InitPhase::Version { slot } => slot < VIRTIO_MMIO_SLOTS,
        InitPhase::QueueNum { queue_size, .. } => 3 <= queue_size <= QUEUE_SIZE,
        InitPhase::QueueAddr { queue_size, k, .. } => k < 6 && 3 <= queue_size <= QUEUE_SIZE,
        InitPhase::QueueReady { queue_size, .. } => 3 <= queue_size <= QUEUE_SIZE,
        InitPhase::UsedIdx { queue_size, .. } => 3 <= queue_size <= QUEUE_SIZE,
        InitPhase::DriverOk { .. } => 3 <= d.queue_size <= QUEUE_SIZE,
        InitPhase::DriverOkCheck { .. } => 3 <= d.queue_size <= QUEUE_SIZE,
        _ => true,
    }
}

/// The driver's initialisation handshake, one device access at a time.
pub struct InitMachine {
    pub phase: InitPhase,
    pub layout: QueueLayout,
}

impl InitMachine {
    /// A handshake that will hand the device the given queue memory.
    pub fn start(layout: QueueLayout) -> (m: Self)
        ensures
            m.phase == InitPhase::Start,
            m.layout == layout,
    {
        InitMachine { phase: InitPhase::Start, layout }
    }

    fn probe_slot(&mut self, slot: usize) -> (r: InitStep)
        requires
            slot <= VIRTIO_MMIO_SLOTS,
        ensures
            final(self).layout == old(self).layout,
            (final(self).phase, r) == ({
                let p = probe(slot as int, DriverState {
                    initialized: false,
                    mmio_base: 0,
                    queue_size: 0,
                    last_used_idx: 0,
                });
                (p.0, p.2)
            }),
    {
        if slot < VIRTIO_MMIO_SLOTS {
            self.phase = InitPhase::Magic { slot };
            let base = VIRTIO_MMIO_START + slot * VIRTIO_MMIO_STRIDE;
            InitStep::Access(MmioRequest::Read { base, offset: MMIO_MAGIC_VALUE })
        } else {
            self.phase = InitPhase::Done;
            InitStep::Finished(Err(StorageError::DeviceNotFound))
        }
    }

    /// Consumes the result of the last requested access (ignored after a
    /// write and at the start) and names the next access, or ends.
    pub fn step(&mut self, driver: &mut DriverState, input: u32) -> (r: InitStep)
        requires
            old(self).phase != InitPhase::Done,
            phase_ok(old(self).phase, *old(driver)),
        ensures
            final(self).layout == old(self).layout,
            (final(self).phase, *final(driver), r) == init_next(
                old(self).phase,
                old(self).layout,
                *old(driver),
                input,
            ),
            phase_ok(final(self).phase, *final(driver)),
    {
        match self.phase {
            InitPhase::Start => {
                if driver.initialized {
                    let base = driver.mmio_base;
                    self.phase = InitPhase::CapLow { base };
                    InitStep::Access(MmioRequest::Read { base, offset: MMIO_CONFIG_SPACE })
                } else {
                    self.probe_slot(0)
                }
            },
            InitPhase::Magic { slot } => {
                if input != VIRTIO_MAGIC {
                    self.probe_slot(slot + 1)
                } else {
                    self.phase = InitPhase::DeviceId { slot };
                    let base = VIRTIO_MMIO_START + slot * VIRTIO_MMIO_STRIDE;
                    InitStep::Access(MmioRequest::Read { base, offset: MMIO_DEVICE_ID })
                }
            },
            InitPhase::DeviceId { slot } => {
                if input == VIRTIO_DEVICE_BLOCK {
                    self.phase = InitPhase::Version { slot };
                    let base = VIRTIO_MMIO_START + slot * VIRTIO_MMIO_STRIDE;
                    InitStep::Access(MmioRequest::Read { base, offset: MMIO_VERSION })
                } else {
                    self.probe_slot(slot + 1)
                }
            },
            InitPhase::Version { slot } => {
                if input != VIRTIO_VERSION_2 {
                    self.phase = InitPhase::Done;
                    InitStep::Finished(Err(StorageError::UnsupportedVersion(input)))
                } else {
                    let base = VIRTIO_MMIO_START + slot * VIRTIO_MMIO_STRIDE;
                    self.phase = InitPhase::RecheckId { base };
                    InitStep::Access(MmioRequest::Read { base, offset: MMIO_DEVICE_ID })
                }
            },
            InitPhase::RecheckId { base } => {
                if input != VIRTIO_DEVICE_BLOCK {
                    self.phase = InitPhase::Done;
                    InitStep::Finished(Err(StorageError::UnexpectedDevice(input)))
                } else {
                    self.phase = InitPhase::RecheckMagic { base };
                    InitStep::Access(MmioRequest::Read { base, offset: MMIO_MAGIC_VALUE })
                }
            },
            InitPhase::RecheckMagic { base } => {
                if input != VIRTIO_MAGIC {
                    self.phase = InitPhase::Done;
                    InitStep::Finished(Err(StorageError::BadMagic(input)))
                } else {
                    self.phase = InitPhase::Reset { base };
                    InitStep::Access(MmioRequest::Write { base, offset: MMIO_STATUS, value: 0 })
                }
            },
            InitPhase::Reset { base } => {
                self.phase = InitPhase::Ack { base };
                InitStep::Access(
                    MmioRequest::Write { base, offset: MMIO_STATUS, value: STATUS_ACKNOWLEDGE },
                )
            },
            InitPhase::Ack { base } => {
                self.phase = InitPhase::Driver { base };
                InitStep::Access(
                    MmioRequest::Write {
                        base,
                        offset: MMIO_STATUS,
                        value: STATUS_ACKNOWLEDGE | STATUS_DRIVER,
                    },
                )
            },
            InitPhase::Driver { base } => {
                self.phase = InitPhase::FeatSel { base };
                InitStep::Access(
                    MmioRequest::Write { base, offset: MMIO_DEVICE_FEATURES_SEL, value: 0 },
                )
            },
            InitPhase::FeatSel { base } => {
                self.phase = InitPhase::FeatRead { base };
                InitStep::Access(MmioRequest::Read { base, offset: MMIO_DEVICE_FEATURES })
            },
            InitPhase::FeatRead { base } => {
                self.phase = InitPhase::DrvFeatSel { base };
                InitStep::Access(
                    MmioRequest::Write { base, offset: MMIO_DRIVER_FEATURES_SEL, value: 0 },
                )
            },
            InitPhase::DrvFeatSel { base } => {
                self.phase = InitPhase::DrvFeat { base };
                InitStep::Access(MmioRequest::Write { base, offset: MMIO_DRIVER_FEATURES, value: 0 })
            },
            InitPhase::DrvFeat { base } => {
                self.phase = InitPhase::FeaturesOk { base };
                InitStep::Access(
                    MmioRequest::Write {
                        base,
                        offset: MMIO_STATUS,
                        value: STATUS_ACKNOWLEDGE | STATUS_DRIVER | STATUS_FEATURES_OK,
                    },
                )
            },
            InitPhase::FeaturesOk { base } => {
                self.phase = InitPhase::FeaturesCheck { base };
                InitStep::Access(MmioRequest::Read { base, offset: MMIO_STATUS })
            },
            InitPhase::FeaturesCheck { base } => {
                if input & STATUS_FEATURES_OK == 0 {
                    self.phase = InitPhase::Done;
                    InitStep::Finished(Err(StorageError::FeatureNegotiationFailed))
                } else {
                    self.phase = InitPhase::QueueSel { base };
                    InitStep::Access(MmioRequest::Write { base, offset: MMIO_QUEUE_SEL, value: 0 })
                }
            },
            InitPhase::QueueSel { base } => {
                self.phase = InitPhase::QueueMax { base };
                InitStep::Access(MmioRequest::Read { base, offset: MMIO_QUEUE_NUM_MAX })
            },
            InitPhase::QueueMax { base } => {
                let max_queue_size = input as u16;
                if max_queue_size == 0 {
                    self.phase = InitPhase::Done;
                    return InitStep::Finished(Err(StorageError::QueueUnavailable));
                }
                let queue_size = if (max_queue_size as usize) < QUEUE_SIZE {
                    max_queue_size
                } else {
                    QUEUE_SIZE as u16
                };
                if queue_size < 3 {
                    self.phase = InitPhase::Done;
                    return InitStep::Finished(Err(StorageError::QueueTooSmall(max_queue_size)));
                }
                self.phase = InitPhase::QueueNum { base, queue_size };
                InitStep::Access(
                    MmioRequest::Write { base, offset: MMIO_QUEUE_NUM, value: queue_size as u32 },
                )
            },
            InitPhase::QueueNum { base, queue_size } => {
                self.phase = InitPhase::QueueAddr { base, queue_size, k: 0 };
                InitStep::Access(
                    MmioRequest::Write {
                        base,
                        offset: MMIO_QUEUE_DESC_LOW,
                        value: self.layout.desc as u32,
                    },
                )
            },
            InitPhase::QueueAddr { base, queue_size, k } => {
                if k + 1 < 6 {
                    let next = k + 1;
                    self.phase = InitPhase::QueueAddr { base, queue_size, k: next };
                    let (offset, value) = if next == 1 {
                        (MMIO_QUEUE_DESC_HIGH, (self.layout.desc >> 32) as u32)
                    } else if next == 2 {
                        (MMIO_QUEUE_DRIVER_LOW, self.layout.avail as u32)
                    } else if next == 3 {
                        (MMIO_QUEUE_DRIVER_HIGH, (self.layout.avail >> 32) as u32)
                    } else if next == 4 {
                        (MMIO_QUEUE_DEVICE_LOW, self.layout.used as u32)
                    } else {
                        (MMIO_QUEUE_DEVICE_HIGH, (self.layout.used >> 32) as u32)
                    };
                    InitStep::Access(MmioRequest::Write { base, offset, value })
                } else {
                    self.phase = InitPhase::QueueReady { base, queue_size };
                    InitStep::Access(MmioRequest::Write { base, offset: MMIO_QUEUE_READY, value: 1 })
                }
            },
            InitPhase::QueueReady { base, queue_size } => {
                self.phase = InitPhase::UsedIdx { base, queue_size };
                InitStep::Access(MmioRequest::ReadUsedIdx)
            },
            InitPhase::UsedIdx { base, queue_size } => {
                driver.mmio_base = base;
                driver.last_used_idx = input as u16;
                driver.queue_size = queue_size;
                self.phase = InitPhase::DriverOk { base };
                InitStep::Access(
                    MmioRequest::Write {
                        base,
                        offset: MMIO_STATUS,
                        value: STATUS_ACKNOWLEDGE | STATUS_DRIVER | STATUS_FEATURES_OK
                            | STATUS_DRIVER_OK,
                    },
                )
            },
            InitPhase::DriverOk { base } => {
                self.phase = InitPhase::DriverOkCheck { base };
                InitStep::Access(MmioRequest::Read { base, offset: MMIO_STATUS })
            },
            InitPhase::DriverOkCheck { base } => {
                if input & STATUS_DRIVER_OK == 0 {
                    self.phase = InitPhase::Done;
                    InitStep::Finished(Err(StorageError::DeviceNotReady))
                } else {
                    driver.initialized = true;
                    self.phase = InitPhase::CapLow { base };
                    InitStep::Access(MmioRequest::Read { base, offset: MMIO_CONFIG_SPACE })
                }
            },
            InitPhase::CapLow { base } => {
                self.phase = InitPhase::CapHigh { base, low: input };
                InitStep::Access(MmioRequest::Read { base, offset: MMIO_CONFIG_SPACE + 4 })
            },
            InitPhase::CapHigh { base, low } => {
                self.phase = InitPhase::Done;
                InitStep::Finished(Ok(read_capacity_sectors(low, input)))
            },
            InitPhase::Done => {
                InitStep::Finished(Err(StorageError::NotInitialized))
            },
        }
    }
}


/// The requests of a handshake that starts in `phase` and is fed `inputs`,
/// up to and including the step that finishes it.
pub open spec fn init_run(phase: InitPhase, layout: QueueLayout, d: DriverState, inputs: Seq<u32>) -> Seq<
    InitStep,
>
    decreases inputs.len(),
{
    if inputs.len() == 0 || phase == InitPhase::Done {
        Seq::empty()
    } else {
        let (p, d2, s) = init_next(phase, layout, d, inputs[0]);
        seq![s] + init_run(p, layout, d2, inputs.drop_first())
    }
}

/// The values a sequence of requests writes to the status register, in order.
pub open spec fn status_writes(steps: Seq<InitStep>) -> Seq<u32>
    decreases steps.len(),
{
    if steps.len() == 0 {
        Seq::empty()
    } else {
        let rest = status_writes(steps.drop_first());
        match steps[0] {
            InitStep::Access(MmioRequest::Write { offset, value, .. }) => if offset == MMIO_STATUS {
                seq![value] + rest
            } else {
                rest
            },
            _ => rest,
        }
    }
}

/// The status values of a complete handshake: reset, ACKNOWLEDGE, DRIVER,
/// FEATURES_OK, DRIVER_OK, each adding its bit to the previous value.
pub open spec fn status_protocol() -> Seq<u32> {
    seq![0u32, 1, 3, 11, 15]
}

/// `a` is a prefix of `b`.
pub open spec fn is_prefix(a: Seq<u32>, b: Seq<u32>) -> bool {
    a.len() <= b.len() && a =~= b.subrange(0, a.len() as int)
}

/// How many status writes a handshake has made when it is in `phase`
/// (a finished or capacity-reading handshake makes no more).
pub open spec fn status_writes_done(phase: InitPhase) -> int {
    match phase {
        InitPhase::Reset { .. } => 1,
        InitPhase::Ack { .. } => 2,
        InitPhase::Driver { .. } => 3,
        InitPhase::FeatSel { .. } => 3,
        InitPhase::FeatRead { .. } => 3,
        InitPhase::DrvFeatSel { .. } => 3,
        InitPhase::DrvFeat { .. } => 3,
        InitPhase::FeaturesOk { .. } => 4,
        InitPhase::FeaturesCheck { .. } => 4,
        InitPhase::QueueSel { .. } => 4,
        InitPhase::QueueMax { .. } => 4,
        InitPhase::QueueNum { .. } => 4,
        InitPhase::QueueAddr { .. } => 4,
        InitPhase::QueueReady { .. } => 4,
        InitPhase::UsedIdx { .. } => 4,
        InitPhase::DriverOk { .. } => 5,
        InitPhase::DriverOkCheck { .. } => 5,
        InitPhase::CapLow { .. } => 5,
        InitPhase::CapHigh { .. } => 5,
        InitPhase::Done => 5,
        _ => 0,
    }
}

proof fn lemma_status_from(phase: InitPhase, layout: QueueLayout, d: DriverState, inputs: Seq<u32>)
    ensures
        is_prefix(
            status_writes(init_run(phase, layout, d, inputs)),
            status_protocol().subrange(status_writes_done(phase), 5),
        ),
    decreases inputs.len(),
{
    if inputs.len() == 0 || phase == InitPhase::Done {
        assert(init_run(phase, layout, d, inputs) =~= Seq::<InitStep>::empty());
    } else {
        let (p, d2, s) = init_next(phase, layout, d, inputs[0]);
        let rest = init_run(p, layout, d2, inputs.drop_first());
        lemma_status_from(p, layout, d2, inputs.drop_first());
        let all = seq![s] + rest;
        assert(all.drop_first() =~= rest);
        assert(all[0] == s);
        assert(init_run(phase, layout, d, inputs) == all);
        assert((1u32 | 2u32) == 3u32) by (bit_vector);
        assert((1u32 | 2u32 | 8u32) == 11u32) by (bit_vector);
        assert((1u32 | 2u32 | 8u32 | 4u32) == 15u32) by (bit_vector);
        let e = status_protocol();
        let k = status_writes_done(phase);
        let k2 = status_writes_done(p);
        let w = status_writes(rest);
        assert(e.subrange(k2, 5).len() == 5 - k2);
        if k2 == 5 {
            assert(w.len() == 0);
        }
        match s {
            InitStep::Access(MmioRequest::Write { offset, value, .. }) => {
                if offset == MMIO_STATUS {
                    assert(k2 == k + 1);
                    assert(value == e[k]);
                    assert(e.subrange(k, 5) =~= seq![e[k]] + e.subrange(k + 1, 5));
                    assert(status_writes(all) =~= seq![value] + w);
                } else {
                    assert(k2 == k || k2 == 5);
                }
            },
            _ => {
                assert(k2 == k || k2 == 5);
            },
        }
    }
}

/// The driver writes the status register only in the order of the VirtIO
/// handshake (reset, ACKNOWLEDGE, DRIVER, FEATURES_OK, DRIVER_OK), whatever
/// the device answers: the status values written by any handshake are a
/// prefix of that sequence.
pub proof fn lemma_status_order(layout: QueueLayout, d: DriverState, inputs: Seq<u32>)
    ensures
        is_prefix(status_writes(init_run(InitPhase::Start, layout, d, inputs)), status_protocol()),
{
    lemma_status_from(InitPhase::Start, layout, d, inputs);
    assert(status_protocol().subrange(0, 5) =~= status_protocol());
}


/// The driver becomes initialised only in the step that reads back a status
/// with DRIVER_OK set, and no step ever marks it uninitialised again.
pub proof fn lemma_initialized_only_when_confirmed(
    phase: InitPhase,
    layout: QueueLayout,
    d: DriverState,
    input: u32,
)
    ensures
        ({
            let d2 = init_next(phase, layout, d, input).1;
            &&& d.initialized ==> d2.initialized
            &&& (!d.initialized && d2.initialized) ==> (phase matches InitPhase::DriverOkCheck { .. }
                && input & STATUS_DRIVER_OK != 0)
        }),
{
}

/// A handshake ends with success only after reading the capacity, which an
/// uninitialised driver reaches only through a confirmed DRIVER_OK.
pub proof fn lemma_success_reads_capacity(phase: InitPhase, layout: QueueLayout, d: DriverState, input: u32)
    ensures
        ({
            let (p, d2, s) = init_next(phase, layout, d, input);
            &&& (s matches InitStep::Finished(Ok(_)) ==> phase matches InitPhase::CapHigh { .. })
            &&& (p matches InitPhase::CapLow { .. } ==> d2.initialized)
        }),
{
}

/// The steps of a handshake that starts in `phase` with driver state `d` and
/// is fed `inputs`, up to and including the step that finishes it: for each,
/// the phase it was taken in, the driver state before it, the device's answer
/// it consumed and the request or end it produced.
pub open spec fn init_trace(phase: InitPhase, layout: QueueLayout, d: DriverState, inputs: Seq<u32>) -> Seq<
    (InitPhase, DriverState, u32, InitStep),
>
    decreases inputs.len(),
{
    if inputs.len() == 0 || phase == InitPhase::Done {
        Seq::empty()
    } else {
        let (p, d2, s) = init_next(phase, layout, d, inputs[0]);
        seq![(phase, d, inputs[0], s)] + init_trace(p, layout, d2, inputs.drop_first())
    }
}

/// A step that ends the handshake leaves it finished.
pub proof fn lemma_finished_is_done(phase: InitPhase, layout: QueueLayout, d: DriverState, input: u32)
    ensures
        init_next(phase, layout, d, input).2 is Finished ==> init_next(phase, layout, d, input).0
            == InitPhase::Done,
{
}

/// Consecutive steps of a trace follow the protocol, and no step follows one
/// that ends the handshake.
pub proof fn lemma_trace_links(phase: InitPhase, layout: QueueLayout, d: DriverState, inputs: Seq<u32>)
    ensures
        ({
            let t = init_trace(phase, layout, d, inputs);
            &&& t.len() <= inputs.len()
            &&& t.len() > 0 ==> t[0].0 == phase && t[0].1 == d
            &&& forall|k: int| 0 <= k < t.len() ==> (#[trigger] t[k]).0 != InitPhase::Done
            &&& forall|k: int|
                0 <= k < t.len() ==> (#[trigger] t[k]).3 == init_next(t[k].0, layout, t[k].1, t[k].2).2
            &&& forall|k: int|
                0 <= k < t.len() - 1 ==> (#[trigger] t[k + 1]).0 == init_next(t[k].0, layout, t[k].1, t[k].2).0
                    && t[k + 1].1 == init_next(t[k].0, layout, t[k].1, t[k].2).1
            &&& forall|k: int| 0 <= k < t.len() && (#[trigger] t[k]).3 is Finished ==> k == t.len() - 1
        }),
    decreases inputs.len(),
{
    if inputs.len() > 0 && phase != InitPhase::Done {
        let (p, d2, s) = init_next(phase, layout, d, inputs[0]);
        lemma_trace_links(p, layout, d2, inputs.drop_first());
        let r = init_trace(p, layout, d2, inputs.drop_first());
        let t = init_trace(phase, layout, d, inputs);
        assert(t == seq![(phase, d, inputs[0], s)] + r);
        assert forall|k: int| 0 <= k < t.len() - 1 implies (#[trigger] t[k + 1]).0 == init_next(
            t[k].0,
            layout,
            t[k].1,
            t[k].2,
        ).0 && t[k + 1].1 == init_next(t[k].0, layout, t[k].1, t[k].2).1 by {
            if k > 0 {
                let m = k - 1;
                assert(t[k] == r[m] && t[k + 1] == r[m + 1]);
                assert(r[m + 1].0 == init_next(r[m].0, layout, r[m].1, r[m].2).0);
            } else {
                assert(t[1] == r[0]);
            }
        }
        assert forall|k: int| 0 <= k < t.len() && (#[trigger] t[k]).3 is Finished implies k == t.len()
            - 1 by {
            if k == 0 {
                lemma_finished_is_done(phase, layout, d, inputs[0]);
                if r.len() > 0 {
                    assert(r[0].0 == p);
                }
            } else {
                assert(t[k] == r[k - 1]);
            }
        }
        assert forall|k: int| 0 <= k < t.len() implies (#[trigger] t[k]).3 == init_next(
            t[k].0,
            layout,
            t[k].1,
            t[k].2,
        ).2 && t[k].0 != InitPhase::Done by {
            if k > 0 {
                assert(t[k] == r[k - 1]);
            }
        }
    }
}

/// The handshake has yet to see FEATURES_OK confirmed from this phase.
pub open spec fn awaits_features(phase: InitPhase, d: DriverState) -> bool {
    match phase {
        InitPhase::Start => !d.initialized,
        InitPhase::Magic { .. } => true,
        InitPhase::DeviceId { .. } => true,
        InitPhase::Version { .. } => true,
        InitPhase::RecheckId { .. } => true,
        InitPhase::RecheckMagic { .. } => true,
        InitPhase::Reset { .. } => true,
        InitPhase::Ack { .. } => true,
        InitPhase::Driver { .. } => true,
        InitPhase::FeatSel { .. } => true,
        InitPhase::FeatRead { .. } => true,
        InitPhase::DrvFeatSel { .. } => true,
        InitPhase::DrvFeat { .. } => true,
        InitPhase::FeaturesOk { .. } => true,
        InitPhase::FeaturesCheck { .. } => true,
        _ => false,
    }
}

/// The handshake has yet to see DRIVER_OK confirmed from this phase.
pub open spec fn awaits_driver_ok(phase: InitPhase, d: DriverState) -> bool {
    ||| awaits_features(phase, d)
    ||| match phase {
        InitPhase::QueueSel { .. } => true,
        InitPhase::QueueMax { .. } => true,
        InitPhase::QueueNum { .. } => true,
        InitPhase::QueueAddr { .. } => true,
        InitPhase::QueueReady { .. } => true,
        InitPhase::UsedIdx { .. } => true,
        InitPhase::DriverOk { .. } => true,
        InitPhase::DriverOkCheck { .. } => true,
        _ => false,
    }
}

/// A step whose read-back of the status confirmed FEATURES_OK.
pub open spec fn confirms_features(e: (InitPhase, DriverState, u32, InitStep)) -> bool {
    e.0 is FeaturesCheck && e.2 & STATUS_FEATURES_OK != 0
}

/// A step whose read-back of the status confirmed DRIVER_OK.
pub open spec fn confirms_driver_ok(e: (InitPhase, DriverState, u32, InitStep)) -> bool {
    e.0 is DriverOkCheck && e.2 & STATUS_DRIVER_OK != 0
}

/// A success is preceded by every confirmation still awaited.
proof fn lemma_success_after_confirmations(
    phase: InitPhase,
    layout: QueueLayout,
    d: DriverState,
    inputs: Seq<u32>,
    i: int,
)
    requires
        0 <= i < init_trace(phase, layout, d, inputs).len(),
        init_trace(phase, layout, d, inputs)[i].3 matches InitStep::Finished(Ok(_)),
    ensures
        ({
            let t = init_trace(phase, layout, d, inputs);
            &&& awaits_features(phase, d) ==> exists|a: int| 0 <= a < i && confirms_features(#[trigger] t[a])
            &&& awaits_driver_ok(phase, d) ==> exists|b: int| 0 <= b < i && confirms_driver_ok(#[trigger] t[b])
        }),
    decreases inputs.len(),
{
    let (p, d2, s) = init_next(phase, layout, d, inputs[0]);
    let t = init_trace(phase, layout, d, inputs);
    let r = init_trace(p, layout, d2, inputs.drop_first());
    assert(t == seq![(phase, d, inputs[0], s)] + r);
    if i == 0 {
        lemma_success_reads_capacity(phase, layout, d, inputs[0]);
    } else {
        assert(r[i - 1] == t[i]);
        lemma_success_after_confirmations(p, layout, d2, inputs.drop_first(), i - 1);
        if awaits_features(phase, d) && !confirms_features(t[0]) {
            assert(awaits_features(p, d2) || p == InitPhase::Done);
            if p == InitPhase::Done {
                assert(r.len() == 0);
            }
            let a = choose|a: int| 0 <= a < i - 1 && confirms_features(#[trigger] r[a]);
            assert(t[a + 1] == r[a]);
        }
        if awaits_driver_ok(phase, d) && !confirms_driver_ok(t[0]) {
            assert(awaits_driver_ok(p, d2) || p == InitPhase::Done);
            if p == InitPhase::Done {
                assert(r.len() == 0);
            }
            let b = choose|b: int| 0 <= b < i - 1 && confirms_driver_ok(#[trigger] r[b]);
            assert(t[b + 1] == r[b]);
        }
    }
}

/// Initialisation succeeds exactly when the device confirms both status
/// stages, and then reports the capacity it read. In the handshake of an
/// uninitialised driver fed the device's answers `inputs`:
/// - a step that ends with `Ok(c)` is the last one; it is the read of the
///   capacity's high word, right after the read of its low word, and `c` is
///   the capacity those two words make; and before it the device answered
///   the FEATURES_OK read-back and the DRIVER_OK read-back each with its bit set;
/// - a read-back without its bit ends the handshake at once, with
///   `FeatureNegotiationFailed` or `DeviceNotReady`;
/// - a confirmed DRIVER_OK followed by the two capacity reads ends in success
///   with the capacity they read.
pub proof fn lemma_init_succeeds_exactly_when_confirmed(
    layout: QueueLayout,
    d: DriverState,
    inputs: Seq<u32>,
)
    requires
        !d.initialized,
    ensures
        ({
            let t = init_trace(InitPhase::Start, layout, d, inputs);
            &&& forall|i: int|
                0 <= i < t.len() ==> ((#[trigger] t[i]).3 matches InitStep::Finished(Ok(c)) ==> {
                    &&& i == t.len() - 1
                    &&& 1 <= i
                    &&& t[i - 1].0 is CapLow
                    &&& t[i].0 == (InitPhase::CapHigh { base: t[i - 1].0->CapLow_base, low: t[i - 1].2 })
                    &&& c == capacity_of(t[i - 1].2, t[i].2)
                    &&& exists|a: int| 0 <= a < i && confirms_features(#[trigger] t[a])
                    &&& exists|b: int| 0 <= b < i && confirms_driver_ok(#[trigger] t[b])
                })
            &&& forall|k: int|
                0 <= k < t.len() && (#[trigger] t[k]).0 is FeaturesCheck && !confirms_features(t[k])
                    ==> k == t.len() - 1 && t[k].3 == InitStep::Finished(
                    Err(StorageError::FeatureNegotiationFailed),
                )
            &&& forall|k: int|
                0 <= k < t.len() && (#[trigger] t[k]).0 is DriverOkCheck && !confirms_driver_ok(t[k])
                    ==> k == t.len() - 1 && t[k].3 == InitStep::Finished(
                    Err(StorageError::DeviceNotReady),
                )
            &&& forall|b: int|
                0 <= b && b + 2 < t.len() && confirms_driver_ok(#[trigger] t[b]) ==> t[b + 2].3
                    == InitStep::Finished(Ok(capacity_of(t[b + 1].2, t[b + 2].2) as u64))
        }),
{
    let t = init_trace(InitPhase::Start, layout, d, inputs);
    lemma_trace_links(InitPhase::Start, layout, d, inputs);
    assert forall|i: int| 0 <= i < t.len() implies ((#[trigger] t[i]).3 matches InitStep::Finished(
        Ok(c),
    ) ==> {
        &&& i == t.len() - 1
        &&& 1 <= i
        &&& t[i - 1].0 is CapLow
        &&& t[i].0 == (InitPhase::CapHigh { base: t[i - 1].0->CapLow_base, low: t[i - 1].2 })
        &&& c == capacity_of(t[i - 1].2, t[i].2)
        &&& exists|a: int| 0 <= a < i && confirms_features(#[trigger] t[a])
        &&& exists|b: int| 0 <= b < i && confirms_driver_ok(#[trigger] t[b])
    }) by {
        if t[i].3 matches InitStep::Finished(Ok(_)) {
            lemma_success_reads_capacity(t[i].0, layout, t[i].1, t[i].2);
            lemma_success_after_confirmations(InitPhase::Start, layout, d, inputs, i);
            if i == 0 {
                assert(t[0].0 == InitPhase::Start);
            } else {
                let j = i - 1;
                assert(t[j + 1].0 == init_next(t[j].0, layout, t[j].1, t[j].2).0);
            }
        }
    }
    assert forall|b: int|
        0 <= b && b + 2 < t.len() && confirms_driver_ok(#[trigger] t[b]) implies t[b + 2].3
        == InitStep::Finished(Ok(capacity_of(t[b + 1].2, t[b + 2].2) as u64)) by {
        assert(t[b + 1].0 == init_next(t[b].0, layout, t[b].1, t[b].2).0);
        assert(t[(b + 1) + 1].0 == init_next(t[b + 1].0, layout, t[b + 1].1, t[b + 1].2).0);
    }
}

/// Where a handshake stands after consuming `inputs`: its phase, driver state
/// and the last request or end it produced (`None` before any step).
pub open spec fn init_after(phase: InitPhase, layout: QueueLayout, d: DriverState, inputs: Seq<u32>) -> (
    InitPhase,
    DriverState,
    Option<InitStep>,
)
    decreases inputs.len(),
{
    if inputs.len() == 0 {
        (phase, d, None)
    } else {
        let r = init_next(phase, layout, d, inputs[0]);
        if inputs.len() == 1 {
            (r.0, r.1, Some(r.2))
        } else {
            init_after(r.0, layout, r.1, inputs.drop_first())
        }
    }
}

/// What a slot without the block device answers when probed: a magic value
/// other than VirtIO's (then nothing more is read), or VirtIO's magic and a
/// device id other than the block device's.
pub open spec fn slot_answers(answers: Seq<(u32, u32)>) -> Seq<u32>
    decreases answers.len(),
{
    if answers.len() == 0 {
        Seq::empty()
    } else {
        let a = answers[0];
        (if a.0 != VIRTIO_MAGIC { seq![a.0] } else { seq![a.0, a.1] }) + slot_answers(
            answers.drop_first(),
        )
    }
}

/// The device's answers in a scan: one ignored input to start, the answers
/// of slots without the block device, then VirtIO's magic and the block
/// device id.
pub open spec fn scan_inputs(first: u32, answers: Seq<(u32, u32)>) -> Seq<u32> {
    seq![first] + slot_answers(answers) + seq![VIRTIO_MAGIC, VIRTIO_DEVICE_BLOCK]
}

/// A slot's answers do not show a block device.
pub open spec fn not_block(a: (u32, u32)) -> bool {
    a.0 != VIRTIO_MAGIC || a.1 != VIRTIO_DEVICE_BLOCK
}

proof fn lemma_probe_skips_from(
    j: int,
    layout: QueueLayout,
    d: DriverState,
    answers: Seq<(u32, u32)>,
)
    requires
        0 <= j,
        j + answers.len() < VIRTIO_MMIO_SLOTS,
        forall|k: int| 0 <= k < answers.len() ==> not_block(#[trigger] answers[k]),
    ensures
        init_after(
            InitPhase::Magic { slot: j as usize },
            layout,
            d,
            slot_answers(answers) + seq![VIRTIO_MAGIC, VIRTIO_DEVICE_BLOCK],
        ) == ({
            let s = j + answers.len();
            (
                InitPhase::Version { slot: s as usize },
                d,
                Some(rd(slot_base(s) as usize, MMIO_VERSION)),
            )
        }),
    decreases answers.len(),
{
    let tail = seq![VIRTIO_MAGIC, VIRTIO_DEVICE_BLOCK];
    let m = InitPhase::Magic { slot: j as usize };
    if answers.len() == 0 {
        assert(slot_answers(answers) + tail =~= tail);
        assert(tail.drop_first() =~= seq![VIRTIO_DEVICE_BLOCK]);
        assert(init_after(m, layout, d, tail) == init_after(
            InitPhase::DeviceId { slot: j as usize },
            layout,
            d,
            tail.drop_first(),
        ));
    } else {
        let a = answers[0];
        let rest = answers.drop_first();
        assert(not_block(answers[0]));
        assert forall|k: int| 0 <= k < rest.len() implies not_block(#[trigger] rest[k]) by {
            assert(rest[k] == answers[k + 1]);
        }
        lemma_probe_skips_from(j + 1, layout, d, rest);
        let all = slot_answers(answers) + tail;
        let later = slot_answers(rest) + tail;
        let next = InitPhase::Magic { slot: (j + 1) as usize };
        if a.0 != VIRTIO_MAGIC {
            assert(all =~= seq![a.0] + later);
            assert(all.drop_first() =~= later);
            assert(all[0] == a.0 && all.len() > 1);
            assert(init_next(m, layout, d, a.0).0 == next);
            assert(init_after(m, layout, d, all) == init_after(next, layout, d, later));
        } else {
            assert(all =~= seq![a.0, a.1] + later);
            assert(all.drop_first() =~= seq![a.1] + later);
            assert(all.drop_first().drop_first() =~= later);
            let di = InitPhase::DeviceId { slot: j as usize };
            assert(all[0] == a.0 && all.len() > 2);
            assert(init_after(m, layout, d, all) == init_after(di, layout, d, all.drop_first()));
            assert(all.drop_first()[0] == a.1);
            assert(init_next(di, layout, d, a.1).0 == next);
            assert(init_after(di, layout, d, all.drop_first()) == init_after(next, layout, d, later));
        }
    }
}

/// The scan passes over slots without the block device: if the slots before
/// slot `s` answer with a magic value other than VirtIO's or with a device
/// other than a block device, in any mix, and slot `s` answers with VirtIO's
/// magic and the block device id, then the handshake of an uninitialised
/// driver goes on to read the version of slot `s`, having finished nowhere on
/// the way.
pub proof fn lemma_scan_finds_first_block_device(
    layout: QueueLayout,
    d: DriverState,
    answers: Seq<(u32, u32)>,
    first: u32,
)
    requires
        !d.initialized,
        answers.len() < VIRTIO_MMIO_SLOTS,
        forall|k: int| 0 <= k < answers.len() ==> not_block(#[trigger] answers[k]),
    ensures
        init_after(InitPhase::Start, layout, d, scan_inputs(first, answers)) == (
            InitPhase::Version { slot: answers.len() as usize },
            d,
            Some(rd(slot_base(answers.len() as int) as usize, MMIO_VERSION)),
        ),
        ({
            let t = init_trace(InitPhase::Start, layout, d, scan_inputs(first, answers));
            forall|k: int| 0 <= k < t.len() ==> !((#[trigger] t[k]).3 is Finished)
        }),
{
    let inputs = scan_inputs(first, answers);
    lemma_probe_skips_from(0, layout, d, answers);
    assert(inputs.drop_first() =~= slot_answers(answers) + seq![VIRTIO_MAGIC, VIRTIO_DEVICE_BLOCK]);
    lemma_scan_never_finishes(0, layout, d, answers);
    let t = init_trace(InitPhase::Start, layout, d, inputs);
    let r = init_trace(InitPhase::Magic { slot: 0 }, layout, d, inputs.drop_first());
    assert(t == seq![(InitPhase::Start, d, first, rd(slot_base(0) as usize, MMIO_MAGIC_VALUE))] + r);
    assert forall|k: int| 0 <= k < t.len() implies !((#[trigger] t[k]).3 is Finished) by {
        if k > 0 {
            assert(t[k] == r[k - 1]);
        }
    }
}

proof fn lemma_scan_never_finishes(
    j: int,
    layout: QueueLayout,
    d: DriverState,
    answers: Seq<(u32, u32)>,
)
    requires
        0 <= j,
        j + answers.len() < VIRTIO_MMIO_SLOTS,
        forall|k: int| 0 <= k < answers.len() ==> not_block(#[trigger] answers[k]),
    ensures
        ({
            let t = init_trace(
                InitPhase::Magic { slot: j as usize },
                layout,
                d,
                slot_answers(answers) + seq![VIRTIO_MAGIC, VIRTIO_DEVICE_BLOCK],
            );
            forall|k: int| 0 <= k < t.len() ==> !((#[trigger] t[k]).3 is Finished)
        }),
    decreases answers.len(),
{
    let tail = seq![VIRTIO_MAGIC, VIRTIO_DEVICE_BLOCK];
    let all = slot_answers(answers) + tail;
    let t = init_trace(InitPhase::Magic { slot: j as usize }, layout, d, all);
    if answers.len() == 0 {
        assert(all =~= tail);
        assert(tail.drop_first() =~= seq![VIRTIO_DEVICE_BLOCK]);
        assert(tail.drop_first().drop_first() =~= Seq::<u32>::empty());
        let t1 = init_trace(InitPhase::DeviceId { slot: j as usize }, layout, d, tail.drop_first());
        assert(t1 =~= seq![t1[0]] + init_trace(
            InitPhase::Version { slot: j as usize },
            layout,
            d,
            Seq::<u32>::empty(),
        ));
        assert forall|k: int| 0 <= k < t.len() implies !((#[trigger] t[k]).3 is Finished) by {
            if k > 0 {
                assert(t[k] == t1[k - 1]);
            }
        }
    } else {
        let a = answers[0];
        let rest = answers.drop_first();
        assert(not_block(answers[0]));
        assert forall|k: int| 0 <= k < rest.len() implies not_block(#[trigger] rest[k]) by {
            assert(rest[k] == answers[k + 1]);
        }
        lemma_scan_never_finishes(j + 1, layout, d, rest);
        let later = slot_answers(rest) + tail;
        let tl = init_trace(InitPhase::Magic { slot: (j + 1) as usize }, layout, d, later);
        if a.0 != VIRTIO_MAGIC {
            assert(all =~= seq![a.0] + later);
            assert(all.drop_first() =~= later);
            assert forall|k: int| 0 <= k < t.len() implies !((#[trigger] t[k]).3 is Finished) by {
                if k > 0 {
                    assert(t[k] == tl[k - 1]);
                }
            }
        } else {
            assert(all =~= seq![a.0, a.1] + later);
            assert(all.drop_first() =~= seq![a.1] + later);
            assert(all.drop_first().drop_first() =~= later);
            let t1 = init_trace(InitPhase::DeviceId { slot: j as usize }, layout, d, all.drop_first());
            assert forall|k: int| 0 <= k < t.len() implies !((#[trigger] t[k]).3 is Finished) by {
                if k > 1 {
                    assert(t[k] == t1[k - 1]);
                    assert(t1[k - 1] == tl[k - 2]);
                } else if k == 1 {
                    assert(t[k] == t1[0]);
                }
            }
        }
    }
}

} // verus!
