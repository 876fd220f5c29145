use tg_rcore_tutorial::clock::{classify_trap, next_timer_deadline, trap_echo, Clint, TrapAction, init_uart};
use tg_rcore_tutorial::uart::{uart_puts, uart_putc, tx_ready, uart_init, RegWrite, UartWriter, IER, LCR, FCR};

#[test]
fn timer_interrupt_is_handled() {
    assert_eq!(classify_trap(true, 5), TrapAction::TimerTick);
    assert_eq!(trap_echo(TrapAction::TimerTick), (b'T', b'\n'));
}

#[test]
fn other_traps_halt() {
    assert_eq!(classify_trap(false, 5), TrapAction::Halt);
    assert_eq!(classify_trap(true, 9), TrapAction::Halt);
    assert_eq!(trap_echo(TrapAction::Halt), (b'E', b'\n'));
}

#[test]
fn timer_deadlines() {
    assert_eq!(next_timer_deadline(5), 10_000_005);
    assert_eq!(Clint::set_timer(100, 23), 123);
    init_uart();
}

#[test]
fn newline_gets_carriage_return() {
    assert_eq!(uart_puts("a\nb"), vec![b'a', b'\n', b'\r', b'b']);
    assert_eq!(uart_putc(b'\n'), vec![b'\n', b'\r']);
    assert_eq!(uart_putc(b'x'), vec![b'x']);
    let mut w = UartWriter;
    assert_eq!(w.write_str("hi\n"), vec![b'h', b'i', b'\n', b'\r']);
}

#[test]
fn uart_setup_and_ready_bit() {
    assert_eq!(
        uart_init(),
        vec![
            RegWrite { offset: IER, value: 0 },
            RegWrite { offset: LCR, value: 3 },
            RegWrite { offset: FCR, value: 1 },
        ]
    );
    assert!(tx_ready(0x20));
    assert!(tx_ready(0x60));
    assert!(!tx_ready(0x1f));
}
