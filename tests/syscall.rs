use pw_kernel::{
    handle_syscall, raw_handle_syscall, Error, ObjectKind, StaticObjectTable, SysCallId,
};

const DEBUG_NOOP: u16 = 0xf000;
const DEBUG_PUTC: u16 = 0xf002;
const DEBUG_ADD: u16 = 0xf003;
const WAIT_GROUP_ADD: u16 = 0x0004;
const WAIT_GROUP_REMOVE: u16 = 0x0005;
const INTERRUPT_ACK: u16 = 0x0006;

#[test]
fn debug_calls() {
    let mut t = StaticObjectTable::new();
    assert_eq!(handle_syscall(&mut t, DEBUG_NOOP, 1, 2, 3, 4), Ok(0));
    assert_eq!(handle_syscall(&mut t, DEBUG_ADD, 2, 3, 0, 0), Ok(5));
    assert_eq!(handle_syscall(&mut t, DEBUG_ADD, usize::MAX, 1, 0, 0), Err(Error::OutOfRange));
    assert_eq!(handle_syscall(&mut t, DEBUG_PUTC, 'a' as usize, 0, 0, 0), Ok(97));
    assert_eq!(handle_syscall(&mut t, DEBUG_PUTC, 0xd800, 0, 0, 0), Err(Error::InvalidArgument));
    assert_eq!(
        handle_syscall(&mut t, DEBUG_PUTC, 0x110000, 0, 0, 0),
        Err(Error::InvalidArgument)
    );
}

#[test]
fn unknown_and_scheduled_ids() {
    let mut t = StaticObjectTable::new();
    assert_eq!(handle_syscall(&mut t, 0x1234, 0, 0, 0, 0), Err(Error::InvalidArgument));
    assert_eq!(handle_syscall(&mut t, 0x0000, 0, 0, 0, 0), Err(Error::Unimplemented));
    assert_eq!(SysCallId::from_id(0xf003), Ok(SysCallId::DebugAdd));
    assert_eq!(SysCallId::from_id(0x7777), Err(Error::InvalidArgument));
}

#[test]
fn wait_group_calls() {
    let mut t = StaticObjectTable::new();
    assert_eq!(t.add_object(ObjectKind::WaitGroup), Ok(0));
    assert_eq!(t.add_object(ObjectKind::Channel), Ok(1));
    assert_eq!(t.add_object(ObjectKind::Interrupt), Ok(2));
    assert_eq!(handle_syscall(&mut t, WAIT_GROUP_ADD, 0, 1, 1, 11), Ok(0));
    assert_eq!(
        handle_syscall(&mut t, WAIT_GROUP_ADD, 0, 1, 1, 11),
        Err(Error::ResourceExhausted)
    );
    assert_eq!(
        handle_syscall(&mut t, WAIT_GROUP_ADD, 0, 1usize << 40, 1, 11),
        Err(Error::InvalidArgument)
    );
    assert_eq!(handle_syscall(&mut t, WAIT_GROUP_REMOVE, 0, 1, 0, 0), Ok(0));
    assert_eq!(handle_syscall(&mut t, WAIT_GROUP_REMOVE, 0, 1, 0, 0), Err(Error::NotFound));
    assert_eq!(handle_syscall(&mut t, INTERRUPT_ACK, 2, 1, 0, 0), Ok(0));
    assert_eq!(handle_syscall(&mut t, INTERRUPT_ACK, 1, 1, 0, 0), Err(Error::Unimplemented));
}

#[test]
fn packed_return_values() {
    let mut t = StaticObjectTable::new();
    assert_eq!(raw_handle_syscall(&mut t, DEBUG_ADD, 40, 2, 0, 0), 42);
    assert_eq!(raw_handle_syscall(&mut t, 0x1234, 0, 0, 0, 0), -3);
    assert_eq!(raw_handle_syscall(&mut t, DEBUG_ADD, usize::MAX, 1, 0, 0), -11);
    assert_eq!(raw_handle_syscall(&mut t, WAIT_GROUP_REMOVE, 0, 0, 0, 0), -3);
}

#[test]
fn error_codes() {
    assert_eq!(Error::Cancelled.code(), 1);
    assert_eq!(Error::Unknown.code(), 2);
    assert_eq!(Error::InvalidArgument.code(), 3);
    assert_eq!(Error::DeadlineExceeded.code(), 4);
    assert_eq!(Error::NotFound.code(), 5);
    assert_eq!(Error::ResourceExhausted.code(), 8);
    assert_eq!(Error::OutOfRange.code(), 11);
    assert_eq!(Error::Unimplemented.code(), 12);
    assert_eq!(Error::Internal.code(), 13);
}
