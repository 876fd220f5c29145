use vstd::prelude::*;
use crate::storage::regs::{SECTOR_SIZE, StorageError};

verus! {

/// Index of the first byte where the two sectors differ, if any.
pub fn first_mismatch(a: &[u8; SECTOR_SIZE], b: &[u8; SECTOR_SIZE]) -> (r: Option<usize>)
    ensures
        match r {
            Some(i) => i < SECTOR_SIZE && a@[i as int] != b@[i as int] && forall|j: int|
                0 <= j < i ==> a@[j] == b@[j],
            None => forall|j: int| 0 <= j < SECTOR_SIZE ==> a@[j] == b@[j],
        },
{
    let mut i: usize = 0;
    while i < SECTOR_SIZE
        invariant
            i <= SECTOR_SIZE,
            forall|j: int| 0 <= j < i ==> a@[j] == b@[j],
        decreases SECTOR_SIZE - i,
    {
        if a[i] != b[i] {
            return Some(i);
        }
        i += 1;
    }
    None
}

/// Decimal digits of `v`, least significant first, with none for zero.
pub open spec fn digits_rev(v: nat) -> Seq<u8>
    decreases v,
{
    if v == 0 {
        Seq::empty()
    } else {
        seq![(48 + v % 10) as u8] + digits_rev(v / 10)
    }
}

/// ASCII decimal representation of `v`, without leading zeros ("0" for zero).
pub open spec fn dec_digits(v: nat) -> Seq<u8> {
    if v == 0 {
        seq![48u8]
    } else {
        digits_rev(v).reverse()
    }
}

/// `10^k`.
pub open spec fn pow10(k: nat) -> nat
    decreases k,
{
    if k == 0 {
        1
    } else {
        10 * pow10((k - 1) as nat)
    }
}

proof fn lemma_digits_len(v: nat, k: nat)
    requires
        v < pow10(k),
    ensures
        digits_rev(v).len() <= k,
    decreases v,
{
    if v > 0 {
        assert(k > 0);
        assert(v / 10 < pow10((k - 1) as nat));
        lemma_digits_len(v / 10, (k - 1) as nat);
    }
}

/// Writes the decimal representation of `value` to the front of `out` and
/// returns its length; the rest of `out` is left alone.
pub fn u64_to_dec(value: u64, out: &mut [u8; 20]) -> (len: usize)
    ensures
        1 <= len <= 20,
        len == dec_digits(value as nat).len(),
        final(out)@.subrange(0, len as int) == dec_digits(value as nat),
        final(out)@.subrange(len as int, 20) == old(out)@.subrange(len as int, 20),
{
    if value == 0 {
        out[0] = 48;
        proof {
            assert(final(out)@.subrange(0, 1) =~= seq![48u8]);
            assert(final(out)@.subrange(1, 20) =~= old(out)@.subrange(1, 20));
        }
        return 1;
    }
    let mut rev: [u8; 20] = [0u8; 20];
    let mut len: usize = 0;
    let mut v: u64 = value;
    proof {
        reveal_with_fuel(pow10, 21);
        lemma_digits_len(value as nat, 20);
    }
    while v != 0
        invariant
            len <= 20,
            rev@.len() == 20,
            rev@.subrange(0, len as int) + digits_rev(v as nat) == digits_rev(value as nat),
            digits_rev(value as nat).len() <= 20,
        decreases v,
    {
        let ghost pre = rev@;
        proof {
            assert(digits_rev(v as nat) == seq![(48 + (v as nat) % 10) as u8] + digits_rev((v as nat) / 10));
            assert(len < 20) by {
                assert((rev@.subrange(0, len as int) + digits_rev(v as nat)).len() == len + digits_rev(v as nat).len());
            }
        }
        rev[len] = 48 + (v % 10) as u8;
        v = v / 10;
        proof {
            assert(rev@.subrange(0, len + 1) =~= pre.subrange(0, len as int).push(rev@[len as int]));
        }
        len += 1;
    }
    let mut i: usize = 0;
    while i < len
        invariant
            i <= len <= 20,
            rev@.len() == 20,
            rev@.subrange(0, len as int) == digits_rev(value as nat),
            forall|j: int| 0 <= j < i ==> out@[j] == rev@[len - 1 - j],
            forall|j: int| len <= j < 20 ==> out@[j] == old(out)@[j],
        decreases len - i,
    {
        out[i] = rev[len - 1 - i];
        i += 1;
    }
    proof {
        assert(out@.subrange(0, len as int) =~= digits_rev(value as nat).reverse());
        assert(out@.subrange(len as int, 20) =~= old(out)@.subrange(len as int, 20));
    }
    len
}


/// "TG-RCORE STORAGE DEMO" in ASCII.
pub open spec fn demo_message() -> Seq<u8> {
    seq![84u8, 71, 45, 82, 67, 79, 82, 69, 32, 83, 84, 79, 82, 65, 71, 69, 32, 68, 69, 77, 79]
}

/// "SECTOR=" in ASCII.
pub open spec fn sector_tag() -> Seq<u8> {
    seq![83u8, 69, 67, 84, 79, 82, 61]
}

/// Where the sector tag starts in the pattern.
pub const TAG_START: usize = 32;

/// Where the filler bytes start in the pattern.
pub const FILL_START: usize = 64;

/// Filler byte at position `i`: `3 * i + 1`, taken modulo 256 as bytes.
pub open spec fn fill_byte(i: int) -> u8 {
    ((((i % 256) * 3) % 256 + 1) % 256) as u8
}

/// The test pattern for `sector` written over `old`: the demo message at the
/// start, "SECTOR=" and the sector number in decimal from byte 32, filler
/// bytes from byte 64 on, and the other bytes of `old` kept.
pub open spec fn pattern(old: Seq<u8>, sector: u64) -> Seq<u8> {
    let digits = dec_digits(sector as nat);
    Seq::new(
        SECTOR_SIZE as nat,
        |i: int|
            if i < demo_message().len() {
                demo_message()[i]
            } else if TAG_START <= i < TAG_START + sector_tag().len() {
                sector_tag()[i - TAG_START]
            } else if TAG_START + sector_tag().len() <= i < TAG_START + sector_tag().len()
                + digits.len() {
                digits[i - TAG_START - sector_tag().len()]
            } else if i >= FILL_START {
                fill_byte(i)
            } else {
                old[i]
            },
    )
}

/// Fills `buf` with the test pattern for `sector`.
pub fn build_pattern(buf: &mut [u8; SECTOR_SIZE], sector: u64)
    ensures
        final(buf)@ == pattern(old(buf)@, sector),
{
    let message: [u8; 21] = [84, 71, 45, 82, 67, 79, 82, 69, 32, 83, 84, 79, 82, 65, 71, 69, 32, 68, 69, 77, 79];
    let sector_tag_bytes: [u8; 7] = [83, 69, 67, 84, 79, 82, 61];
    proof {
        assert(message@ =~= demo_message());
        assert(sector_tag_bytes@ =~= sector_tag());
    }
    let ghost orig = buf@;
    let mut i: usize = 0;
    while i < 21
        invariant
            i <= 21,
            message@ == demo_message(),
            buf@.len() == SECTOR_SIZE,
            forall|j: int| 0 <= j < i ==> buf@[j] == demo_message()[j],
            forall|j: int| i <= j < SECTOR_SIZE ==> buf@[j] == orig[j],
        decreases 21 - i,
    {
        buf[i] = message[i];
        i += 1;
    }
    let start = TAG_START;
    let mut k: usize = 0;
    while k < 7
        invariant
            k <= 7,
            start == TAG_START,
            sector_tag_bytes@ == sector_tag(),
            buf@.len() == SECTOR_SIZE,
            forall|j: int| 0 <= j < 21 ==> buf@[j] == demo_message()[j],
            forall|j: int| 32 <= j < 32 + k ==> buf@[j] == sector_tag()[j - 32],
            forall|j: int| 21 <= j < 32 ==> buf@[j] == orig[j],
            forall|j: int| 32 + k <= j < SECTOR_SIZE ==> buf@[j] == orig[j],
        decreases 7 - k,
    {
        buf[start + k] = sector_tag_bytes[k];
        k += 1;
    }
    let mut number: [u8; 20] = [0u8; 20];
    let len = u64_to_dec(sector, &mut number);
    let ghost digits = dec_digits(sector as nat);
    let mut k: usize = 0;
    while k < len
        invariant
            k <= len <= 20,
            start == TAG_START,
            number@.subrange(0, len as int) == digits,
            digits.len() == len,
            buf@.len() == SECTOR_SIZE,
            forall|j: int| 0 <= j < 21 ==> buf@[j] == demo_message()[j],
            forall|j: int| 32 <= j < 39 ==> buf@[j] == sector_tag()[j - 32],
            forall|j: int| 39 <= j < 39 + k ==> buf@[j] == digits[j - 39],
            forall|j: int| 21 <= j < 32 ==> buf@[j] == orig[j],
            forall|j: int| 39 + k <= j < SECTOR_SIZE ==> buf@[j] == orig[j],
        decreases len - k,
    {
        proof {
            assert(number@[k as int] == number@.subrange(0, len as int)[k as int]);
        }
        buf[start + 7 + k] = number[k];
        k += 1;
    }
    let mut i: usize = FILL_START;
    while i < SECTOR_SIZE
        invariant
            FILL_START <= i <= SECTOR_SIZE,
            digits.len() == len,
            len <= 20,
            buf@.len() == SECTOR_SIZE,
            forall|j: int| 0 <= j < 21 ==> buf@[j] == demo_message()[j],
            forall|j: int| 32 <= j < 39 ==> buf@[j] == sector_tag()[j - 32],
            forall|j: int| 39 <= j < 39 + len ==> buf@[j] == digits[j - 39],
            forall|j: int| 21 <= j < 32 ==> buf@[j] == orig[j],
            forall|j: int| 39 + len <= j < FILL_START ==> buf@[j] == orig[j],
            forall|j: int| FILL_START <= j < i ==> buf@[j] == fill_byte(j),
            forall|j: int| i <= j < SECTOR_SIZE ==> buf@[j] == orig[j],
        decreases SECTOR_SIZE - i,
    {
        let b = (i as u8).wrapping_mul(3).wrapping_add(1);
        proof {
            assert((i as u8) as int == (i as int) % 256) by (bit_vector)
                requires
                    i < 512,
            ;
        }
        buf[i] = b;
        i += 1;
    }
    proof {
        assert(buf@ =~= pattern(orig, sector));
    }
}

/// Lower-case hexadecimal digit for `n < 16`.
pub open spec fn hex_digit(n: int) -> u8 {
    if n < 10 { (48 + n) as u8 } else { (87 + n) as u8 }
}

/// The first 16 bytes of a sector as text: each byte as a space and two
/// lower-case hexadecimal digits.
pub open spec fn hex_prefix(buf: Seq<u8>) -> Seq<u8> {
    Seq::new(48, |i: int| {
        let b = buf[i / 3] as int;
        if i % 3 == 0 {
            32u8
        } else if i % 3 == 1 {
            hex_digit(b / 16)
        } else {
            hex_digit(b % 16)
        }
    })
}

fn hex_char(n: u8) -> (c: u8)
    requires
        n < 16,
    ensures
        c == hex_digit(n as int),
{
    if n < 10 {
        48 + n
    } else {
        87 + n
    }
}

/// The text that follows "first16:" in the demo's dump of a sector.
pub fn dump_prefix(buf: &[u8; SECTOR_SIZE]) -> (text: Vec<u8>)
    ensures
        text@ == hex_prefix(buf@),
{
    let mut text: Vec<u8> = Vec::new();
    let mut i: usize = 0;
    while i < 16
        invariant
            i <= 16,
            text@.len() == 3 * i,
            forall|j: int| 0 <= j < 3 * i ==> text@[j] == hex_prefix(buf@)[j],
        decreases 16 - i,
    {
        let b = buf[i];
        text.push(32);
        text.push(hex_char(b / 16));
        text.push(hex_char(b % 16));
        proof {
            assert forall|j: int| 0 <= j < 3 * (i + 1) implies text@[j] == hex_prefix(buf@)[j] by {
                if j >= 3 * i {
                    assert(j / 3 == i as int);
                }
            }
        }
        i += 1;
    }
    proof {
        assert(text@ =~= hex_prefix(buf@));
    }
    text
}


/// The sector the demo writes to (sector 0 holds boot data and is left alone).
pub const TARGET_SECTOR: u64 = 1;

/// One of the demo's three sector buffers.
#[derive(Debug, Clone, Copy, PartialEq, Eq, Structural)]
pub enum Buffer {
    /// The sector's content before the demo.
    Original,
    /// The test pattern.
    Pattern,
    /// The sector's content read back.
    Verify,
}

/// The demo step that failed.
#[derive(Debug, Clone, Copy, PartialEq, Eq, Structural)]
pub enum FailedStep {
    Init,
    ReadOriginal,
    Write,
    ReadVerify,
    Restore,
}

/// A line of the demo's report.
#[derive(Debug, Clone, Copy, PartialEq, Eq, Structural)]
pub enum DemoReport {
    /// The device is up, with this capacity in sectors.
    Capacity(u64),
    /// The device is too small to hold the given sector.
    CapacityTooSmall(u64),
    /// Dump of the original buffer.
    Before,
    /// The pattern was written to the given sector.
    WriteOk(u64),
    /// Dump of the buffer read back.
    After,
    /// The read-back differs from the pattern first at `index`.
    Mismatch { index: usize, expected: u8, got: u8 },
    VerifyPass,
    /// The original content was written back to the given sector.
    RestoreOk(u64),
    Finished,
    Failed(FailedStep, StorageError),
}

/// What the demo asks its caller to do next.
#[derive(Debug, Clone, Copy)]
pub enum DemoStep {
    /// Initialise the device and report the capacity or the error.
    InitDevice,
    /// Read `sector` into a buffer and report the outcome.
    Read { sector: u64, into: Buffer },
    /// Write a buffer to `sector` and report the outcome.
    Write { sector: u64, from: Buffer },
    /// Print a report line.
    Report(DemoReport),
    /// Power off, reporting failure or success.
    Shutdown { failure: bool },
}

/// The outcome of the last step, as the demo consumes it.
#[derive(Debug, Clone, Copy)]
pub enum DemoInput {
    Nothing,
    Capacity(Result<u64, StorageError>),
    Io(Result<(), StorageError>),
}

/// Where the demo stands.
#[derive(Debug, Clone, Copy, PartialEq, Eq, Structural)]
pub enum DemoPhase {
    Start,
    Initializing,
    CapacityKnown { capacity: u64 },
    ReadingOriginal,
    ShownBefore,
    Writing,
    Written,
    ReadingBack,
    ShownAfter,
    Verified,
    Restoring,
    Restored,
    Finishing,
    Failing,
    Done,
}

/// The storage demo: read a sector, write a test pattern over it, read it
/// back and compare, then restore the original content.
pub struct StorageDemo {
    pub phase: DemoPhase,
    pub original: [u8; SECTOR_SIZE],
    pub pattern: [u8; SECTOR_SIZE],
    pub verify: [u8; SECTOR_SIZE],
}

/// The demo's decisions: from the phase, the buffers and the outcome of the
/// last step, the next phase and step. The pattern buffer is filled when the
/// original content has been shown; every failure is reported and ends in a
/// failing shutdown.
pub open spec fn demo_next(
    phase: DemoPhase,
    pattern_buf: Seq<u8>,
    original: Seq<u8>,
    verify: Seq<u8>,
    input: DemoInput,
) -> (DemoPhase, DemoStep) {
    match phase {
        DemoPhase::Start => (DemoPhase::Initializing, DemoStep::InitDevice),
        DemoPhase::Initializing => match input {
            DemoInput::Capacity(Ok(capacity)) => (
                DemoPhase::CapacityKnown { capacity },
                DemoStep::Report(DemoReport::Capacity(capacity)),
            ),
            DemoInput::Capacity(Err(e)) => (
                DemoPhase::Failing,
                DemoStep::Report(DemoReport::Failed(FailedStep::Init, e)),
            ),
            _ => (DemoPhase::Initializing, DemoStep::InitDevice),
        },
        DemoPhase::CapacityKnown { capacity } => if capacity <= TARGET_SECTOR {
            (DemoPhase::Failing, DemoStep::Report(DemoReport::CapacityTooSmall(TARGET_SECTOR)))
        } else {
            (
                DemoPhase::ReadingOriginal,
                DemoStep::Read { sector: TARGET_SECTOR, into: Buffer::Original },
            )
        },
        DemoPhase::ReadingOriginal => io_outcome(
            input,
            FailedStep::ReadOriginal,
            DemoPhase::ShownBefore,
            DemoReport::Before,
        ),
        DemoPhase::ShownBefore => (
            DemoPhase::Writing,
            DemoStep::Write { sector: TARGET_SECTOR, from: Buffer::Pattern },
        ),
        DemoPhase::Writing => io_outcome(
            input,
            FailedStep::Write,
            DemoPhase::Written,
            DemoReport::WriteOk(TARGET_SECTOR),
        ),
        DemoPhase::Written => (
            DemoPhase::ReadingBack,
            DemoStep::Read { sector: TARGET_SECTOR, into: Buffer::Verify },
        ),
        DemoPhase::ReadingBack => io_outcome(
            input,
            FailedStep::ReadVerify,
            DemoPhase::ShownAfter,
            DemoReport::After,
        ),
        DemoPhase::ShownAfter => if exists|j: int| 0 <= j < SECTOR_SIZE && pattern_buf[j] != verify[j] {
            let index = choose|j: int|
                0 <= j < SECTOR_SIZE && pattern_buf[j] != verify[j] && forall|k: int|
                    0 <= k < j ==> pattern_buf[k] == verify[k];
            (
                DemoPhase::Failing,
                DemoStep::Report(
                    DemoReport::Mismatch {
                        index: index as usize,
                        expected: pattern_buf[index],
                        got: verify[index],
                    },
                ),
            )
        } else {
            (DemoPhase::Verified, DemoStep::Report(DemoReport::VerifyPass))
        },
        DemoPhase::Verified => (
            DemoPhase::Restoring,
            DemoStep::Write { sector: TARGET_SECTOR, from: Buffer::Original },
        ),
        DemoPhase::Restoring => io_outcome(
            input,
            FailedStep::Restore,
            DemoPhase::Restored,
            DemoReport::RestoreOk(TARGET_SECTOR),
        ),
        DemoPhase::Restored => (DemoPhase::Finishing, DemoStep::Report(DemoReport::Finished)),
        DemoPhase::Finishing => (DemoPhase::Done, DemoStep::Shutdown { failure: false }),
        DemoPhase::Failing => (DemoPhase::Done, DemoStep::Shutdown { failure: true }),
        DemoPhase::Done => (DemoPhase::Done, DemoStep::Shutdown { failure: true }),
    }
}

/// After a sector transfer: report success and go on, or report the failure.
pub open spec fn io_outcome(input: DemoInput, step: FailedStep, next: DemoPhase, ok: DemoReport) -> (
    DemoPhase,
    DemoStep,
) {
    match input {
        DemoInput::Io(Err(e)) => (DemoPhase::Failing, DemoStep::Report(DemoReport::Failed(step, e))),
        _ => (next, DemoStep::Report(ok)),
    }
}

impl StorageDemo {
    /// A demo with three zeroed buffers.
    pub fn new() -> (d: Self)
        ensures
            d.phase == DemoPhase::Start,
            d.original@ == Seq::new(SECTOR_SIZE as nat, |i: int| 0u8),
            d.pattern@ == Seq::new(SECTOR_SIZE as nat, |i: int| 0u8),
            d.verify@ == Seq::new(SECTOR_SIZE as nat, |i: int| 0u8),
    {
        let d = StorageDemo {
            phase: DemoPhase::Start,
            original: [0u8; SECTOR_SIZE],
            pattern: [0u8; SECTOR_SIZE],
            verify: [0u8; SECTOR_SIZE],
        };
        assert(d.original@ =~= Seq::new(SECTOR_SIZE as nat, |i: int| 0u8));
        assert(d.pattern@ =~= Seq::new(SECTOR_SIZE as nat, |i: int| 0u8));
        assert(d.verify@ =~= Seq::new(SECTOR_SIZE as nat, |i: int| 0u8));
        d
    }

    fn after_io(&mut self, input: DemoInput, step: FailedStep, next: DemoPhase, ok: DemoReport) -> (r: DemoStep)
        ensures
            (final(self).phase, r) == io_outcome(input, step, next, ok),
            final(self).original == old(self).original,
            final(self).pattern == old(self).pattern,
            final(self).verify == old(self).verify,
    {
        match input {
            DemoInput::Io(Err(e)) => {
                self.phase = DemoPhase::Failing;
                DemoStep::Report(DemoReport::Failed(step, e))
            },
            _ => {
                self.phase = next;
                DemoStep::Report(ok)
            },
        }
    }

    /// Consumes the outcome of the last step and names the next one.
    pub fn step(&mut self, input: DemoInput) -> (r: DemoStep)
        requires
            old(self).phase != DemoPhase::Done,
        ensures
            (final(self).phase, r) == demo_next(
                old(self).phase,
                final(self).pattern@,
                old(self).original@,
                old(self).verify@,
                input,
            ),
            final(self).pattern@ == (if old(self).phase == DemoPhase::ShownBefore {
                pattern(old(self).pattern@, TARGET_SECTOR)
            } else {
                old(self).pattern@
            }),
            final(self).original == old(self).original,
            final(self).verify == old(self).verify,
    {
        match self.phase {
            DemoPhase::Start => {
                self.phase = DemoPhase::Initializing;
                DemoStep::InitDevice
            },
            DemoPhase::Initializing => match input {
                DemoInput::Capacity(Ok(capacity)) => {
                    self.phase = DemoPhase::CapacityKnown { capacity };
                    DemoStep::Report(DemoReport::Capacity(capacity))
                },
                DemoInput::Capacity(Err(e)) => {
                    self.phase = DemoPhase::Failing;
                    DemoStep::Report(DemoReport::Failed(FailedStep::Init, e))
                },
                _ => DemoStep::InitDevice,
            },
            DemoPhase::CapacityKnown { capacity } => {
                if capacity <= TARGET_SECTOR {
                    self.phase = DemoPhase::Failing;
                    DemoStep::Report(DemoReport::CapacityTooSmall(TARGET_SECTOR))
                } else {
                    self.phase = DemoPhase::ReadingOriginal;
                    DemoStep::Read { sector: TARGET_SECTOR, into: Buffer::Original }
                }
            },
            DemoPhase::ReadingOriginal => self.after_io(
                input,
                FailedStep::ReadOriginal,
                DemoPhase::ShownBefore,
                DemoReport::Before,
            ),
            DemoPhase::ShownBefore => {
                build_pattern(&mut self.pattern, TARGET_SECTOR);
                self.phase = DemoPhase::Writing;
                DemoStep::Write { sector: TARGET_SECTOR, from: Buffer::Pattern }
            },
            DemoPhase::Writing => self.after_io(
                input,
                FailedStep::Write,
                DemoPhase::Written,
                DemoReport::WriteOk(TARGET_SECTOR),
            ),
            DemoPhase::Written => {
                self.phase = DemoPhase::ReadingBack;
                DemoStep::Read { sector: TARGET_SECTOR, into: Buffer::Verify }
            },
            DemoPhase::ReadingBack => self.after_io(
                input,
                FailedStep::ReadVerify,
                DemoPhase::ShownAfter,
                DemoReport::After,
            ),
            DemoPhase::ShownAfter => {
                match first_mismatch(&self.pattern, &self.verify) {
                    Some(index) => {
                        let expected = self.pattern[index];
                        let got = self.verify[index];
                        self.phase = DemoPhase::Failing;
                        proof {
                            let p = self.pattern@;
                            let v = self.verify@;
                            let w = choose|j: int|
                                0 <= j < SECTOR_SIZE && p[j] != v[j] && forall|k: int|
                                    0 <= k < j ==> p[k] == v[k];
                            assert(0 <= index < SECTOR_SIZE && p[index as int] != v[index as int]);
                            if w < index {
                            } else if w > index {
                                assert(p[index as int] == v[index as int]);
                            }
                        }
                        DemoStep::Report(DemoReport::Mismatch { index, expected, got })
                    },
                    None => {
                        self.phase = DemoPhase::Verified;
                        DemoStep::Report(DemoReport::VerifyPass)
                    },
                }
            },
            DemoPhase::Verified => {
                self.phase = DemoPhase::Restoring;
                DemoStep::Write { sector: TARGET_SECTOR, from: Buffer::Original }
            },
            DemoPhase::Restoring => self.after_io(
                input,
                FailedStep::Restore,
                DemoPhase::Restored,
                DemoReport::RestoreOk(TARGET_SECTOR),
            ),
            DemoPhase::Restored => {
                self.phase = DemoPhase::Finishing;
                DemoStep::Report(DemoReport::Finished)
            },
            DemoPhase::Finishing => {
                self.phase = DemoPhase::Done;
                DemoStep::Shutdown { failure: false }
            },
            DemoPhase::Failing => {
                self.phase = DemoPhase::Done;
                DemoStep::Shutdown { failure: true }
            },
            DemoPhase::Done => DemoStep::Shutdown { failure: true },
        }
    }
}

/// The demo works on one sector only: every sector read or write it asks for
/// names sector 1 (the original read, the pattern write, the read-back and the
/// restore alike), and every write or restore it reports names that sector.
pub proof fn lemma_demo_touches_only_target(
    phase: DemoPhase,
    pattern_buf: Seq<u8>,
    original: Seq<u8>,
    verify: Seq<u8>,
    input: DemoInput,
)
    ensures
        TARGET_SECTOR == 1,
        match demo_next(phase, pattern_buf, original, verify, input).1 {
            DemoStep::Read { sector, .. } => sector == 1,
            DemoStep::Write { sector, .. } => sector == 1,
            DemoStep::Report(DemoReport::WriteOk(sector)) => sector == 1,
            DemoStep::Report(DemoReport::RestoreOk(sector)) => sector == 1,
            _ => true,
        },
{
}

} // verus!
