use kernel::common::x86::idt::key_event_of;
use pc_keyboard::{Error, KeyCode, KeyEvent, KeyState};
use kernel::common::x86::gdt::usermode_selectors;
use kernel::common::x86::idt::{
    keyboard_interrupt_handler, syscall, InterruptIndex, KeyOutput, KeyboardDecoder, SyscallGateAction,
    PIC_1_OFFSET, PIC_2_OFFSET,
};
use kernel::task::userspace::{syscall_handler, SyscallRequest};

#[test]
fn interrupt_index_vectors() {
    assert_eq!(InterruptIndex::Timer.as_u8(), 32);
    assert_eq!(InterruptIndex::Keyboard.as_u8(), 33);
    assert_eq!(InterruptIndex::Timer.as_usize(), 32usize);
    assert_eq!(InterruptIndex::Keyboard.as_usize(), 33usize);
    assert_eq!(PIC_1_OFFSET, 32);
    assert_eq!(PIC_2_OFFSET, PIC_1_OFFSET + 8);
}

#[test]
fn int80_gate_exits_only_on_zero() {
    assert_eq!(syscall(0), SyscallGateAction::Exit { page_table: 0x2000 });
    assert_eq!(syscall(1), SyscallGateAction::Ignore);
    assert_eq!(syscall(u32::MAX), SyscallGateAction::Ignore);
}

#[test]
fn syscall_decoding() {
    assert_eq!(syscall_handler(7, 0, 42), SyscallRequest::Exit { code: 42 });
    assert_eq!(
        syscall_handler(0x1234_5678_9abc_def0, 1, 0x8000_0000),
        SyscallRequest::Write8 { addr: 0x8000_0000, value: 0xf0 }
    );
    assert_eq!(
        syscall_handler(0x1234_5678_9abc_def0, 2, 0x10),
        SyscallRequest::Write16 { addr: 0x10, value: 0xdef0 }
    );
    assert_eq!(
        syscall_handler(0x1234_5678_9abc_def0, 3, 0x20),
        SyscallRequest::Write32 { addr: 0x20, value: 0x9abc_def0 }
    );
    assert_eq!(
        syscall_handler(0x1234_5678_9abc_def0, 4, 0x30),
        SyscallRequest::Write64 { addr: 0x30, value: 0x1234_5678_9abc_def0 }
    );
    assert_eq!(syscall_handler(1, 5, 1), SyscallRequest::Unknown);
    assert_eq!(syscall_handler(1, u64::MAX, 1), SyscallRequest::Unknown);
}

#[test]
fn usermode_selectors_have_ring3() {
    // user data at index 5, user code at index 6 of the descriptor table
    assert_eq!(usermode_selectors(48, 40), (51, 43));
    assert_eq!(usermode_selectors(51, 43), (51, 43));
}

#[test]
fn keyboard_decodes_scancodes() {
    let mut decoder = KeyboardDecoder::new();
    // set 1: 0x1e is the A key pressed, 0x9e released
    let press = keyboard_interrupt_handler(&mut decoder, 0x1e);
    assert!(matches!(press.output, Some(KeyOutput::Unicode('a'))));
    assert_eq!(press.end_of_interrupt, 33);
    let release = keyboard_interrupt_handler(&mut decoder, 0x9e);
    assert!(release.output.is_none());
    assert_eq!(release.end_of_interrupt, 33);
    // left shift held: the next A is upper case
    let shift = keyboard_interrupt_handler(&mut decoder, 0x2a);
    assert!(matches!(shift.output, Some(KeyOutput::RawKey(_))));
    let upper = keyboard_interrupt_handler(&mut decoder, 0x1e);
    assert!(matches!(upper.output, Some(KeyOutput::Unicode('A'))));
}

#[test]
fn key_event_of_decoder_answers() {
    let ev = KeyEvent::new(KeyCode::A, KeyState::Down);
    assert_eq!(key_event_of(Ok(Some(ev.clone()))), Some(ev));
    assert_eq!(key_event_of(Ok(None)), None);
    assert_eq!(key_event_of(Err(Error::BadStartBit)), None);
}

#[test]
fn decoder_calls_can_be_made_directly() {
    let mut decoder = KeyboardDecoder::new();
    let added = decoder.add_byte(0x1e);
    let ev = added.expect("a scancode of set 1").expect("a complete event");
    assert!(matches!(decoder.process_keyevent(ev), Some(KeyOutput::Unicode('a'))));
}
