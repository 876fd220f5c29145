use vstd::prelude::*;

verus! {

/// Size of one disk sector in bytes.
pub const SECTOR_SIZE: usize = 512;

/// MMIO address of the first VirtIO slot of the QEMU `virt` machine.
pub const VIRTIO_MMIO_START: usize = 0x1000_1000;
/// Distance between two VirtIO MMIO slots.
pub const VIRTIO_MMIO_STRIDE: usize = 0x1000;
/// Number of VirtIO MMIO slots scanned for a block device.
pub const VIRTIO_MMIO_SLOTS: usize = 8;

pub const MMIO_MAGIC_VALUE: usize = 0x000;
pub const MMIO_VERSION: usize = 0x004;
pub const MMIO_DEVICE_ID: usize = 0x008;
pub const MMIO_DEVICE_FEATURES: usize = 0x010;
pub const MMIO_DEVICE_FEATURES_SEL: usize = 0x014;
pub const MMIO_DRIVER_FEATURES: usize = 0x020;
pub const MMIO_DRIVER_FEATURES_SEL: usize = 0x024;
pub const MMIO_QUEUE_SEL: usize = 0x030;
pub const MMIO_QUEUE_NUM_MAX: usize = 0x034;
pub const MMIO_QUEUE_NUM: usize = 0x038;
pub const MMIO_QUEUE_READY: usize = 0x044;
pub const MMIO_QUEUE_NOTIFY: usize = 0x050;
pub const MMIO_INTERRUPT_STATUS: usize = 0x060;
pub const MMIO_INTERRUPT_ACK: usize = 0x064;
pub const MMIO_STATUS: usize = 0x070;
pub const MMIO_QUEUE_DESC_LOW: usize = 0x080;
pub const MMIO_QUEUE_DESC_HIGH: usize = 0x084;
pub const MMIO_QUEUE_DRIVER_LOW: usize = 0x090;
pub const MMIO_QUEUE_DRIVER_HIGH: usize = 0x094;
pub const MMIO_QUEUE_DEVICE_LOW: usize = 0x0a0;
pub const MMIO_QUEUE_DEVICE_HIGH: usize = 0x0a4;
pub const MMIO_CONFIG_SPACE: usize = 0x100;

/// Value of the magic register of a VirtIO MMIO device ("virt").
pub const VIRTIO_MAGIC: u32 = 0x7472_6976;
/// The (modern) MMIO interface version the driver supports.
pub const VIRTIO_VERSION_2: u32 = 2;
/// Device id of a block device.
pub const VIRTIO_DEVICE_BLOCK: u32 = 2;

pub const STATUS_ACKNOWLEDGE: u32 = 1;
pub const STATUS_DRIVER: u32 = 2;
pub const STATUS_DRIVER_OK: u32 = 4;
pub const STATUS_FEATURES_OK: u32 = 8;

/// Descriptor flag: the chain continues in `next`.
pub const VIRTQ_DESC_F_NEXT: u16 = 1;
/// Descriptor flag: the device writes this buffer.
pub const VIRTQ_DESC_F_WRITE: u16 = 2;

/// Block request type: read sectors from the device.
pub const VIRTIO_BLK_T_IN: u32 = 0;
/// Block request type: write sectors to the device.
pub const VIRTIO_BLK_T_OUT: u32 = 1;

/// Number of descriptors the driver's virtqueue memory provides.
pub const QUEUE_SIZE: usize = 8;

/// Why a storage operation failed.
#[derive(Debug, Clone, Copy, PartialEq, Eq, Structural)]
pub enum StorageError {
    DeviceNotFound,
    BadMagic(u32),
    UnsupportedVersion(u32),
    UnexpectedDevice(u32),
    QueueUnavailable,
    QueueTooSmall(u16),
    FeatureNegotiationFailed,
    NotInitialized,
    DeviceNotReady,
    IoError(u8),
    UsedIdMismatch(u32),
}

/// The driver's persistent state: whether the device is set up, where its
/// registers are, how many queue entries are in use and the last used-ring
/// index the driver has consumed.
#[derive(Debug, Clone, Copy, PartialEq, Eq, Structural)]
pub struct DriverState {
    pub initialized: bool,
    pub mmio_base: usize,
    pub queue_size: u16,
    pub last_used_idx: u16,
}

impl DriverState {
    /// The state before initialisation.
    pub fn new() -> (s: Self)
        ensures
            s == (DriverState { initialized: false, mmio_base: 0, queue_size: 0, last_used_idx: 0 }),
    {
        DriverState { initialized: false, mmio_base: 0, queue_size: 0, last_used_idx: 0 }
    }
}

/// Base address of VirtIO MMIO slot `slot`.
pub open spec fn slot_base(slot: int) -> int {
    VIRTIO_MMIO_START + slot * VIRTIO_MMIO_STRIDE
}

/// The 64-bit capacity (in sectors) held in the two 32-bit configuration words.
pub open spec fn capacity_of(low: u32, high: u32) -> int {
    high * 0x1_0000_0000 + low
}

/// Combines the low and high configuration words into the capacity in sectors.
pub fn read_capacity_sectors(low: u32, high: u32) -> (r: u64)
    ensures
        r == capacity_of(low, high),
{
    let l = low as u64;
    let h = high as u64;
    let r = (h << 32) | l;
    assert(r == h * 0x1_0000_0000 + l) by (bit_vector)
        requires
            l < 0x1_0000_0000,
            h < 0x1_0000_0000,
            r == (h << 32) | l,
    ;
    r
}

} // verus!
