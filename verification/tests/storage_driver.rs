use tg_rcore_tutorial::storage::init::{InitMachine, InitStep, MmioRequest, QueueLayout};
use tg_rcore_tutorial::storage::regs::{
    read_capacity_sectors, DriverState, StorageError, MMIO_CONFIG_SPACE, MMIO_DEVICE_ID,
    MMIO_INTERRUPT_ACK, MMIO_INTERRUPT_STATUS, MMIO_MAGIC_VALUE, MMIO_QUEUE_NOTIFY, MMIO_QUEUE_NUM,
    MMIO_QUEUE_NUM_MAX, MMIO_STATUS, MMIO_VERSION, VIRTIO_MAGIC,
};
use tg_rcore_tutorial::storage::rw::{read_sector, write_sector, Barrier, RequestBuffers, RwStep};
use std::collections::HashMap;

/// A VirtIO MMIO bus with one block device, answering from a register table.
struct MockBus {
    regs: HashMap<(usize, usize), u32>,
    writes: Vec<(usize, usize, u32)>,
    used_idx: u32,
    status_mask: u32,
}

impl MockBus {
    fn with_device(base: usize, version: u32, max_queue: u32, capacity: u64) -> Self {
        let mut regs = HashMap::new();
        regs.insert((base, MMIO_MAGIC_VALUE), VIRTIO_MAGIC);
        regs.insert((base, MMIO_DEVICE_ID), 2);
        regs.insert((base, MMIO_VERSION), version);
        regs.insert((base, MMIO_QUEUE_NUM_MAX), max_queue);
        regs.insert((base, MMIO_CONFIG_SPACE), capacity as u32);
        regs.insert((base, MMIO_CONFIG_SPACE + 4), (capacity >> 32) as u32);
        MockBus { regs, writes: Vec::new(), used_idx: 3, status_mask: u32::MAX }
    }

    fn access(&mut self, req: MmioRequest) -> u32 {
        match req {
            MmioRequest::Read { base, offset } => {
                if offset == MMIO_STATUS {
                    self.regs.get(&(base, offset)).copied().unwrap_or(0) & self.status_mask
                } else {
                    self.regs.get(&(base, offset)).copied().unwrap_or(0)
                }
            }
            MmioRequest::Write { base, offset, value } => {
                self.writes.push((base, offset, value));
                self.regs.insert((base, offset), value);
                0
            }
            MmioRequest::ReadUsedIdx => self.used_idx,
        }
    }
}

fn run_init(bus: &mut MockBus, driver: &mut DriverState) -> Result<u64, StorageError> {
    let mut m = InitMachine::start(QueueLayout { desc: 0x8020_1000, avail: 0x8020_1080, used: 0x1_8020_10a0 });
    let mut input = 0;
    for _ in 0..200 {
        match m.step(driver, input) {
            InitStep::Access(req) => input = bus.access(req),
            InitStep::Finished(r) => return r,
        }
    }
    panic!("handshake did not end");
}

const SLOT3: usize = 0x1000_1000 + 3 * 0x1000;

#[test]
fn capacity_combines_two_words() {
    assert_eq!(read_capacity_sectors(16384, 0), 16384);
    assert_eq!(read_capacity_sectors(5, 2), (2u64 << 32) + 5);
    assert_eq!(read_capacity_sectors(u32::MAX, u32::MAX), u64::MAX);
}

#[test]
fn handshake_finds_device_and_follows_status_protocol() {
    let mut bus = MockBus::with_device(SLOT3, 2, 16, 16384);
    let mut driver = DriverState::new();
    assert_eq!(run_init(&mut bus, &mut driver), Ok(16384));
    let status: Vec<u32> = bus.writes.iter().filter(|w| w.1 == MMIO_STATUS).map(|w| w.2).collect();
    assert_eq!(status, vec![0, 1, 3, 11, 15]);
    assert!(bus.writes.iter().all(|w| w.0 == SLOT3));
    assert!(bus.writes.contains(&(SLOT3, MMIO_QUEUE_NUM, 8)));
    assert!(bus.writes.contains(&(SLOT3, 0x080, 0x8020_1000)));
    assert!(bus.writes.contains(&(SLOT3, 0x0a4, 1)));
    assert_eq!(driver, DriverState { initialized: true, mmio_base: SLOT3, queue_size: 8, last_used_idx: 3 });
    // a second init only reads the capacity
    let before = bus.writes.len();
    assert_eq!(run_init(&mut bus, &mut driver), Ok(16384));
    assert_eq!(bus.writes.len(), before);
}

#[test]
fn small_queue_is_used_whole() {
    let mut bus = MockBus::with_device(SLOT3, 2, 4, 8);
    let mut driver = DriverState::new();
    assert_eq!(run_init(&mut bus, &mut driver), Ok(8));
    assert_eq!(driver.queue_size, 4);
}

#[test]
fn no_device_found() {
    let mut bus = MockBus { regs: HashMap::new(), writes: Vec::new(), used_idx: 0, status_mask: u32::MAX };
    let mut driver = DriverState::new();
    assert_eq!(run_init(&mut bus, &mut driver), Err(StorageError::DeviceNotFound));
    assert!(bus.writes.is_empty());
}

#[test]
fn wrong_version_is_rejected() {
    let mut bus = MockBus::with_device(SLOT3, 1, 16, 8);
    let mut driver = DriverState::new();
    assert_eq!(run_init(&mut bus, &mut driver), Err(StorageError::UnsupportedVersion(1)));
}

#[test]
fn queue_limits() {
    let mut bus = MockBus::with_device(SLOT3, 2, 0, 8);
    let mut driver = DriverState::new();
    assert_eq!(run_init(&mut bus, &mut driver), Err(StorageError::QueueUnavailable));
    let mut bus = MockBus::with_device(SLOT3, 2, 2, 8);
    assert_eq!(run_init(&mut bus, &mut driver), Err(StorageError::QueueTooSmall(2)));
    assert!(!driver.initialized);
}

#[test]
fn unconfirmed_status_fails() {
    let mut bus = MockBus::with_device(SLOT3, 2, 16, 8);
    bus.status_mask = !8;
    let mut driver = DriverState::new();
    assert_eq!(run_init(&mut bus, &mut driver), Err(StorageError::FeatureNegotiationFailed));
    let mut bus = MockBus::with_device(SLOT3, 2, 16, 8);
    bus.status_mask = !4;
    let mut driver = DriverState::new();
    assert_eq!(run_init(&mut bus, &mut driver), Err(StorageError::DeviceNotReady));
    assert!(!driver.initialized);
    assert_eq!(driver.queue_size, 8);
}

#[test]
fn device_changing_identity_is_rejected() {
    // the id register answers "block" once, then something else
    let mut driver = DriverState::new();
    let mut m = InitMachine::start(QueueLayout { desc: 0, avail: 0, used: 0 });
    let answers = [VIRTIO_MAGIC, 2, 2, 7];
    let mut input = 0;
    let mut last = None;
    for a in answers.iter() {
        match m.step(&mut driver, input) {
            InitStep::Access(_) => input = *a,
            InitStep::Finished(r) => {
                last = Some(r);
                break;
            }
        }
    }
    if last.is_none() {
        if let InitStep::Finished(r) = m.step(&mut driver, input) {
            last = Some(r);
        }
    }
    assert_eq!(last, Some(Err(StorageError::UnexpectedDevice(7))));
}

#[test]
fn bad_magic_on_recheck() {
    let mut driver = DriverState::new();
    let mut m = InitMachine::start(QueueLayout { desc: 0, avail: 0, used: 0 });
    let mut out = None;
    for input in [0, VIRTIO_MAGIC, 2, 2, 2, 5] {
        if let InitStep::Finished(r) = m.step(&mut driver, input) {
            out = Some(r);
            break;
        }
    }
    assert_eq!(out, Some(Err(StorageError::BadMagic(5))));
}

fn ready_driver() -> DriverState {
    DriverState { initialized: true, mmio_base: SLOT3, queue_size: 8, last_used_idx: 4 }
}

/// Feeds a request the given answers, returning the steps it asked for.
fn run_rw(write: bool, driver: &mut DriverState, answers: &[u32]) -> Vec<RwStep> {
    let bufs = RequestBuffers { header: 0x100, data: 0x200, status: 0x300 };
    let mut m = if write { write_sector(9, bufs) } else { read_sector(9, bufs) };
    let mut steps = Vec::new();
    let mut input = 0;
    let mut answers = answers.iter();
    loop {
        let s = m.step(driver, input);
        steps.push(s);
        if let RwStep::Finished(_) = s {
            return steps;
        }
        input = match s {
            RwStep::ReadAvailIdx | RwStep::ReadUsedIdx | RwStep::ReadUsedId { .. } | RwStep::ReadStatus => {
                *answers.next().unwrap()
            }
            RwStep::Access(tg_rcore_tutorial::storage::init::MmioRequest::Read { .. }) => *answers.next().unwrap(),
            _ => 0,
        };
    }
}

#[test]
fn read_request_flow() {
    let mut driver = ready_driver();
    // avail idx 13, used idx polled twice unchanged then 5, re-read 5, used id 0, irq 1, status 0
    let steps = run_rw(false, &mut driver, &[13, 4, 4, 5, 5, 0, 1, 0]);
    match steps[0] {
        RwStep::Describe { header, status_fill, desc0, desc1, desc2 } => {
            assert_eq!(header.req_type, 0);
            assert_eq!(header.sector, 9);
            assert_eq!(status_fill, 0xff);
            assert_eq!((desc0.addr, desc0.len, desc0.flags, desc0.next), (0x100, 16, 1, 1));
            assert_eq!((desc1.addr, desc1.len, desc1.flags, desc1.next), (0x200, 512, 3, 2));
            assert_eq!((desc2.addr, desc2.len, desc2.flags, desc2.next), (0x300, 1, 2, 0));
        }
        _ => panic!("first step describes the request"),
    }
    assert!(matches!(steps[1], RwStep::Fence(Barrier::Release)));
    assert!(matches!(steps[3], RwStep::Publish { slot: 5, head: 0, new_idx: 14 }));
    assert!(matches!(steps[4], RwStep::Fence(Barrier::Full)));
    assert!(matches!(
        steps[5],
        RwStep::Access(MmioRequest::Write { base: SLOT3, offset: MMIO_QUEUE_NOTIFY, value: 0 })
    ));
    assert!(steps.iter().any(|s| matches!(s, RwStep::ReadUsedId { slot: 4 })));
    assert!(steps.iter().any(|s| matches!(
        s,
        RwStep::Access(MmioRequest::Read { offset: MMIO_INTERRUPT_STATUS, .. })
    )));
    assert!(steps.iter().any(|s| matches!(
        s,
        RwStep::Access(MmioRequest::Write { offset: MMIO_INTERRUPT_ACK, value: 1, .. })
    )));
    assert!(matches!(steps.last().unwrap(), RwStep::Finished(Ok(()))));
    assert_eq!(driver.last_used_idx, 5);
}

#[test]
fn write_request_uses_out_type_and_read_only_data() {
    let mut driver = ready_driver();
    let steps = run_rw(true, &mut driver, &[0xffff, 5, 5, 0, 0, 0]);
    match steps[0] {
        RwStep::Describe { header, desc1, .. } => {
            assert_eq!(header.req_type, 1);
            assert_eq!(desc1.flags, 1);
        }
        _ => panic!("first step describes the request"),
    }
    assert!(matches!(steps[3], RwStep::Publish { slot: 7, new_idx: 0, .. }));
    // no interrupt pending: no acknowledgement
    assert!(!steps.iter().any(|s| matches!(
        s,
        RwStep::Access(MmioRequest::Write { offset: MMIO_INTERRUPT_ACK, .. })
    )));
    assert!(matches!(steps.last().unwrap(), RwStep::Finished(Ok(()))));
}

#[test]
fn request_errors() {
    let mut driver = ready_driver();
    let steps = run_rw(false, &mut driver, &[0, 5, 5, 2, 0]);
    assert!(matches!(steps.last().unwrap(), RwStep::Finished(Err(StorageError::UsedIdMismatch(2)))));
    assert_eq!(driver.last_used_idx, 5);
    let steps = run_rw(false, &mut driver, &[0, 6, 6, 0, 0, 1]);
    assert!(matches!(steps.last().unwrap(), RwStep::Finished(Err(StorageError::IoError(1)))));
    let mut idle = DriverState::new();
    let steps = run_rw(false, &mut idle, &[]);
    assert_eq!(steps.len(), 1);
    assert!(matches!(steps[0], RwStep::Finished(Err(StorageError::NotInitialized))));
}

#[test]
fn used_index_wraps() {
    let mut driver = DriverState { initialized: true, mmio_base: SLOT3, queue_size: 3, last_used_idx: 0xffff };
    let steps = run_rw(false, &mut driver, &[4, 0, 0, 0, 0, 0]);
    // newest used entry is index 0xffff, slot 0xffff % 3 = 0
    assert!(steps.iter().any(|s| matches!(s, RwStep::ReadUsedId { slot: 0 })));
    assert!(matches!(steps[3], RwStep::Publish { slot: 1, new_idx: 5, .. }));
    assert_eq!(driver.last_used_idx, 0);
}
