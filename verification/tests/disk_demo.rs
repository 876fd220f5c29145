use tg_rcore_tutorial::disk_demo::{
    build_pattern, dump_prefix, first_mismatch, u64_to_dec, Buffer, DemoInput, DemoPhase, DemoReport,
    DemoStep, FailedStep, StorageDemo,
};
use tg_rcore_tutorial::storage::regs::{StorageError, SECTOR_SIZE};

#[test]
fn decimal_digits() {
    let mut out = [7u8; 20];
    assert_eq!(u64_to_dec(0, &mut out), 1);
    assert_eq!(out[0], b'0');
    assert_eq!(out[1], 7);
    let mut out = [0u8; 20];
    let n = u64_to_dec(1234567890, &mut out);
    assert_eq!(&out[..n], b"1234567890");
    let n = u64_to_dec(u64::MAX, &mut out);
    assert_eq!(&out[..n], b"18446744073709551615");
}

#[test]
fn pattern_for_sector_one() {
    let mut buf = [0u8; SECTOR_SIZE];
    build_pattern(&mut buf, 1);
    assert_eq!(&buf[..21], b"TG-RCORE STORAGE DEMO");
    assert_eq!(&buf[21..32], &[0u8; 11]);
    assert_eq!(&buf[32..40], b"SECTOR=1");
    assert_eq!(&buf[40..64], &[0u8; 24]);
    assert_eq!(buf[64], 193);
    assert_eq!(buf[100], 45);
    assert_eq!(buf[511], ((511 * 3 + 1) % 256) as u8);
    assert_eq!(&buf[..16], &[0x54, 0x47, 0x2d, 0x52, 0x43, 0x4f, 0x52, 0x45, 0x20, 0x53, 0x54, 0x4f, 0x52, 0x41, 0x47, 0x45]);
}

#[test]
fn pattern_keeps_untouched_bytes() {
    let mut buf = [0xaau8; SECTOR_SIZE];
    build_pattern(&mut buf, 98765);
    assert_eq!(&buf[32..44], b"SECTOR=98765");
    assert_eq!(buf[25], 0xaa);
    assert_eq!(buf[44], 0xaa);
    assert_eq!(buf[63], 0xaa);
}

#[test]
fn mismatch_detection() {
    let a = [1u8; SECTOR_SIZE];
    let mut b = [1u8; SECTOR_SIZE];
    assert_eq!(first_mismatch(&a, &b), None);
    b[300] = 2;
    b[400] = 2;
    assert_eq!(first_mismatch(&a, &b), Some(300));
}

#[test]
fn hex_dump_of_first_bytes() {
    let mut buf = [0u8; SECTOR_SIZE];
    build_pattern(&mut buf, 1);
    let text = String::from_utf8(dump_prefix(&buf)).unwrap();
    assert_eq!(text, " 54 47 2d 52 43 4f 52 45 20 53 54 4f 52 41 47 45");
    let zero = [0u8; SECTOR_SIZE];
    assert_eq!(String::from_utf8(dump_prefix(&zero)).unwrap(), " 00".repeat(16));
}

/// Runs the demo against a disk image held in memory.
fn run_demo(capacity: Result<u64, StorageError>, corrupt: bool) -> (Vec<DemoReport>, bool, Vec<u8>) {
    let mut disk = vec![0u8; 4 * SECTOR_SIZE];
    disk[SECTOR_SIZE + 5] = 0x77;
    let mut demo = StorageDemo::new();
    let mut reports = Vec::new();
    let mut input = DemoInput::Nothing;
    loop {
        match demo.step(input) {
            DemoStep::InitDevice => input = DemoInput::Capacity(capacity),
            DemoStep::Read { sector, into } => {
                let s = sector as usize * SECTOR_SIZE;
                let dst = match into {
                    Buffer::Original => &mut demo.original,
                    Buffer::Pattern => &mut demo.pattern,
                    Buffer::Verify => &mut demo.verify,
                };
                dst.copy_from_slice(&disk[s..s + SECTOR_SIZE]);
                if corrupt && into == Buffer::Verify {
                    demo.verify[70] ^= 1;
                }
                input = DemoInput::Io(Ok(()));
            }
            DemoStep::Write { sector, from } => {
                let s = sector as usize * SECTOR_SIZE;
                let src = match from {
                    Buffer::Original => demo.original,
                    Buffer::Pattern => demo.pattern,
                    Buffer::Verify => demo.verify,
                };
                disk[s..s + SECTOR_SIZE].copy_from_slice(&src);
                input = DemoInput::Io(Ok(()));
            }
            DemoStep::Report(r) => {
                reports.push(r);
                input = DemoInput::Nothing;
            }
            DemoStep::Shutdown { failure } => {
                assert_eq!(demo.phase, DemoPhase::Done);
                return (reports, failure, disk);
            }
        }
    }
}

#[test]
fn demo_round_trip_restores_the_sector() {
    let (reports, failure, disk) = run_demo(Ok(16384), false);
    assert!(!failure);
    assert_eq!(
        reports,
        vec![
            DemoReport::Capacity(16384),
            DemoReport::Before,
            DemoReport::WriteOk(1),
            DemoReport::After,
            DemoReport::VerifyPass,
            DemoReport::RestoreOk(1),
            DemoReport::Finished,
        ]
    );
    assert_eq!(disk[SECTOR_SIZE + 5], 0x77);
    assert_eq!(disk[SECTOR_SIZE], 0);
}

#[test]
fn demo_reports_mismatch() {
    let (reports, failure, _) = run_demo(Ok(16384), true);
    assert!(failure);
    let expected = ((70 * 3 + 1) % 256) as u8;
    assert_eq!(
        reports.last().unwrap(),
        &DemoReport::Mismatch { index: 70, expected, got: expected ^ 1 }
    );
}

#[test]
fn demo_stops_on_small_disk_or_init_error() {
    let (reports, failure, _) = run_demo(Ok(1), false);
    assert!(failure);
    assert_eq!(reports, vec![DemoReport::Capacity(1), DemoReport::CapacityTooSmall(1)]);
    let (reports, failure, _) = run_demo(Err(StorageError::DeviceNotFound), false);
    assert!(failure);
    assert_eq!(reports, vec![DemoReport::Failed(FailedStep::Init, StorageError::DeviceNotFound)]);
}

#[test]
fn demo_reports_io_failure() {
    let mut demo = StorageDemo::new();
    assert!(matches!(demo.step(DemoInput::Nothing), DemoStep::InitDevice));
    assert!(matches!(demo.step(DemoInput::Capacity(Ok(100))), DemoStep::Report(DemoReport::Capacity(100))));
    assert!(matches!(demo.step(DemoInput::Nothing), DemoStep::Read { sector: 1, into: Buffer::Original }));
    let s = demo.step(DemoInput::Io(Err(StorageError::IoError(3))));
    assert!(matches!(
        s,
        DemoStep::Report(DemoReport::Failed(FailedStep::ReadOriginal, StorageError::IoError(3)))
    ));
    assert!(matches!(demo.step(DemoInput::Nothing), DemoStep::Shutdown { failure: true }));
}
