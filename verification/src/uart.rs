use vstd::prelude::*;
use vstd::string::StringSliceAdditionalSpecFns;

verus! {

/// MMIO address of the 16550 UART of the QEMU `virt` machine.
pub const UART0: usize = 0x1000_0000;
/// Receive buffer / transmit holding register.
pub const THR: usize = 0;
/// Interrupt enable register.
pub const IER: usize = 1;
/// FIFO control register.
pub const FCR: usize = 2;
/// Line control register.
pub const LCR: usize = 3;
/// Line status register.
pub const LSR: usize = 5;

/// Line control: 8 data bits.
pub const LCR_8BIT: u8 = 0x03;
/// FIFO control: enable the FIFOs.
pub const FCR_ENABLE: u8 = 0x01;
/// Line status: the transmitter can take a byte.
pub const LSR_TX_READY: u8 = 0x20;

/// A byte to store in a UART register (offset from `UART0`).
#[derive(Debug, Clone, Copy, PartialEq, Eq, Structural)]
pub struct RegWrite {
    pub offset: usize,
    pub value: u8,
}

/// The register writes that set the UART up: interrupts off, 8-bit words, FIFOs on.
pub fn uart_init() -> (writes: Vec<RegWrite>)
    ensures
        writes@ == seq![
            RegWrite { offset: IER, value: 0 },
            RegWrite { offset: LCR, value: LCR_8BIT },
            RegWrite { offset: FCR, value: FCR_ENABLE },
        ],
{
    let writes = vec![
        RegWrite { offset: IER, value: 0 },
        RegWrite { offset: LCR, value: LCR_8BIT },
        RegWrite { offset: FCR, value: FCR_ENABLE },
    ];
    assert(writes@ =~= seq![
        RegWrite { offset: IER, value: 0 },
        RegWrite { offset: LCR, value: LCR_8BIT },
        RegWrite { offset: FCR, value: FCR_ENABLE },
    ]);
    writes
}

/// Whether a line status value says the transmitter can take a byte.
pub fn tx_ready(lsr: u8) -> (r: bool)
    ensures
        r == (lsr & LSR_TX_READY != 0),
{
    lsr & LSR_TX_READY != 0
}

/// The bytes the terminal gets for `c`: a line feed is followed by a carriage return.
pub open spec fn line_bytes(c: u8) -> Seq<u8> {
    if c == 10 { seq![10u8, 13u8] } else { seq![c] }
}

/// The bytes the terminal gets for `bytes`, each line feed followed by a carriage return.
pub open spec fn terminal_bytes(bytes: Seq<u8>) -> Seq<u8>
    decreases bytes.len(),
{
    if bytes.len() == 0 {
        Seq::empty()
    } else {
        terminal_bytes(bytes.drop_last()) + line_bytes(bytes.last())
    }
}

/// The bytes to transmit for one character, each sent once the transmitter is ready.
pub fn uart_putc(c: u8) -> (out: Vec<u8>)
    ensures
        out@ == line_bytes(c),
{
    let mut out: Vec<u8> = Vec::new();
    out.push(c);
    if c == 10 {
        out.push(13);
    }
    proof {
        if c == 10 {
            assert(out@ =~= seq![10u8, 13u8]);
        } else {
            assert(out@ =~= seq![c]);
        }
    }
    out
}

/// The bytes to transmit for a string: its UTF-8 bytes, each line feed
/// followed by a carriage return.
pub fn uart_puts(s: &str) -> (out: Vec<u8>)
    ensures
        out@ == terminal_bytes(s.spec_bytes()),
{
    let bytes = s.as_bytes();
    let mut out: Vec<u8> = Vec::new();
    let mut i: usize = 0;
    while i < bytes.len()
        invariant
            i <= bytes@.len(),
            bytes@ == s.spec_bytes(),
            out@ == terminal_bytes(bytes@.subrange(0, i as int)),
        decreases bytes@.len() - i,
    {
        let c = bytes[i];
        let piece = uart_putc(c);
        let ghost pre = out@;
        let mut k: usize = 0;
        while k < piece.len()
            invariant
                k <= piece@.len(),
                out@ == pre + piece@.subrange(0, k as int),
            decreases piece@.len() - k,
        {
            out.push(piece[k]);
            proof {
                assert(piece@.subrange(0, k + 1) =~= piece@.subrange(0, k as int).push(piece@[k as int]));
            }
            k += 1;
        }
        proof {
            let next = bytes@.subrange(0, i + 1);
            assert(next.drop_last() =~= bytes@.subrange(0, i as int));
            assert(piece@.subrange(0, piece@.len() as int) =~= piece@);
            assert(out@ =~= terminal_bytes(next));
        }
        i += 1;
    }
    proof {
        assert(bytes@.subrange(0, bytes@.len() as int) =~= bytes@);
    }
    out
}

/// Formatted output to the UART: `write_str` yields the bytes to transmit.
pub struct UartWriter;

impl UartWriter {
    /// The bytes to transmit for `s`.
    pub fn write_str(&mut self, s: &str) -> (out: Vec<u8>)
        ensures
            out@ == terminal_bytes(s.spec_bytes()),
    {
        uart_puts(s)
    }
}

} // verus!
