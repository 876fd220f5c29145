use vstd::prelude::*;

verus! {

/// MMIO base of the core-local interruptor.
pub const CLINT_BASE: usize = 0x200_0000;
/// Address of the machine timer.
pub const MTIME: usize = CLINT_BASE + 0xBFF8;
/// Address of the machine timer compare register.
pub const MTIMECMP: usize = CLINT_BASE + 0x4000;

/// Ticks between two timer interrupts.
pub const TIMER_INTERVAL: u64 = 10_000_000;

/// SBI TIME extension id.
pub const SBI_EXT_TIME: usize = 0x5449_4D45;
/// SBI function id of `set_timer`.
pub const SBI_FID_SET_TIMER: usize = 0;

/// Interrupt code of the supervisor timer interrupt.
pub const SUPERVISOR_TIMER: usize = 5;

/// The core-local interruptor.
pub struct Clint;

impl Clint {
    /// The compare value that fires the timer `delta` ticks after `now`.
    pub fn set_timer(now: u64, delta: u64) -> (deadline: u64)
        requires
            now + delta <= u64::MAX,
        ensures
            deadline == now + delta,
    {
        now + delta
    }
}

/// Prepares the UART; the QEMU UART needs no set-up, so this does nothing.
pub fn init_uart() {
}

/// The time at which the next timer interrupt is due, one interval after `now`.
pub fn next_timer_deadline(now: u64) -> (deadline: u64)
    requires
        now + TIMER_INTERVAL <= u64::MAX,
    ensures
        deadline == now + TIMER_INTERVAL,
{
    now + TIMER_INTERVAL
}

/// How the trap handler answers a trap.
#[derive(Debug, Clone, Copy, PartialEq, Eq, Structural)]
pub enum TrapAction {
    /// Timer interrupt: print "T", newline, and arm the next timer.
    TimerTick,
    /// Anything else: print "E", newline, and wait for interrupts forever.
    Halt,
}

/// Classifies a trap from its cause: only the supervisor timer interrupt is handled.
pub fn classify_trap(is_interrupt: bool, code: usize) -> (action: TrapAction)
    ensures
        action == (if is_interrupt && code == SUPERVISOR_TIMER {
            TrapAction::TimerTick
        } else {
            TrapAction::Halt
        }),
{
    if is_interrupt && code == SUPERVISOR_TIMER {
        TrapAction::TimerTick
    } else {
        TrapAction::Halt
    }
}

/// The two bytes the trap handler prints for an action.
pub fn trap_echo(action: TrapAction) -> (bytes: (u8, u8))
    ensures
        bytes == (match action {
            TrapAction::TimerTick => (84u8, 10u8),
            TrapAction::Halt => (69u8, 10u8),
        }),
{
    match action {
        TrapAction::TimerTick => (84, 10),
        TrapAction::Halt => (69, 10),
    }
}

} // verus!
