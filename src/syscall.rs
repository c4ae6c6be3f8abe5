use vstd::prelude::*;

use crate::signals::{error_code, Error, Signals};
use crate::table::{added, removed, signaled, StaticObjectTable};

verus! {

/// The system calls, by the 16-bit id a thread traps with.
#[derive(Clone, Copy, Debug, PartialEq, Eq, Structural)]
pub enum SysCallId {
    ObjectWait,
    ChannelTransact,
    ChannelRead,
    ChannelRespond,
    WaitGroupAdd,
    WaitGroupRemove,
    InterruptAck,
    DebugNoOp,
    DebugShutdown,
    DebugPutc,
    DebugAdd,
}

/// The call that `id` names, if any.
pub open spec fn syscall_id(id: u16) -> Option<SysCallId> {
    if id == 0x0000 {
        Some(SysCallId::ObjectWait)
    } else if id == 0x0001 {
        Some(SysCallId::ChannelTransact)
    } else if id == 0x0002 {
        Some(SysCallId::ChannelRead)
    } else if id == 0x0003 {
        Some(SysCallId::ChannelRespond)
    } else if id == 0x0004 {
        Some(SysCallId::WaitGroupAdd)
    } else if id == 0x0005 {
        Some(SysCallId::WaitGroupRemove)
    } else if id == 0x0006 {
        Some(SysCallId::InterruptAck)
    } else if id == 0xf000 {
        Some(SysCallId::DebugNoOp)
    } else if id == 0xf001 {
        Some(SysCallId::DebugShutdown)
    } else if id == 0xf002 {
        Some(SysCallId::DebugPutc)
    } else if id == 0xf003 {
        Some(SysCallId::DebugAdd)
    } else {
        None
    }
}

/// The outcome of a call that returns no payload, read from a packed one.
pub open spec fn unit_result(r: Result<u64, Error>) -> Result<(), Error> {
    match r {
        Ok(_) => Ok(()),
        Err(e) => Err(e),
    }
}

/// The calls that sleep or leave the kernel, which the scheduler runs.
pub open spec fn is_scheduled(c: SysCallId) -> bool {
    c == SysCallId::ObjectWait || c == SysCallId::ChannelTransact || c == SysCallId::ChannelRead
        || c == SysCallId::ChannelRespond || c == SysCallId::DebugShutdown
}

/// A Unicode scalar value: below 0x110000 and outside the surrogates.
pub open spec fn is_char(c: u32) -> bool {
    c < 0x110000 && !(0xd800 <= c <= 0xdfff)
}

impl SysCallId {
    /// Decodes `id`; an unknown id fails with `InvalidArgument`.
    pub fn from_id(id: u16) -> (r: Result<SysCallId, Error>)
        ensures
            match syscall_id(id) {
                Some(c) => r == Ok::<SysCallId, Error>(c),
                None => r == Err::<SysCallId, Error>(Error::InvalidArgument),
            },
    {
        match id {
            0x0000 => Ok(SysCallId::ObjectWait),
            0x0001 => Ok(SysCallId::ChannelTransact),
            0x0002 => Ok(SysCallId::ChannelRead),
            0x0003 => Ok(SysCallId::ChannelRespond),
            0x0004 => Ok(SysCallId::WaitGroupAdd),
            0x0005 => Ok(SysCallId::WaitGroupRemove),
            0x0006 => Ok(SysCallId::InterruptAck),
            0xf000 => Ok(SysCallId::DebugNoOp),
            0xf001 => Ok(SysCallId::DebugShutdown),
            0xf002 => Ok(SysCallId::DebugPutc),
            0xf003 => Ok(SysCallId::DebugAdd),
            _ => Err(Error::InvalidArgument),
        }
    }
}

/// A machine word taken as a `u32` argument; one that does not fit is an
/// `InvalidArgument`.
pub fn arg_u32(arg: usize) -> (r: Result<u32, Error>)
    ensures
        arg <= u32::MAX ==> r == Ok::<u32, Error>(arg as u32),
        arg > u32::MAX ==> r == Err::<u32, Error>(Error::InvalidArgument),
{
    if arg <= u32::MAX as usize {
        Ok(arg as u32)
    } else {
        Err(Error::InvalidArgument)
    }
}

/// Whether `c` is a Unicode scalar value.
pub fn is_char_value(c: u32) -> (r: bool)
    ensures
        r == is_char(c),
{
    c < 0x110000 && !(0xd800 <= c && c <= 0xdfff)
}

/// `t1` and `r` are what the system call `id` with arguments `arg0` to
/// `arg3` makes of `t0`, as `handle_syscall` describes.
pub open spec fn dispatched(
    t0: &StaticObjectTable,
    t1: &StaticObjectTable,
    id: u16,
    arg0: usize,
    arg1: usize,
    arg2: usize,
    arg3: usize,
    r: Result<u64, Error>,
) -> bool {
    &&& syscall_id(id) is None ==> r == Err::<u64, Error>(Error::InvalidArgument) && *t1
        == *t0
    &&& syscall_id(id) is Some && is_scheduled(syscall_id(id)->Some_0) ==> r == Err::<
        u64,
        Error,
    >(Error::Unimplemented) && *t1 == *t0
    &&& syscall_id(id) == Some(SysCallId::DebugNoOp) ==> r == Ok::<u64, Error>(0) && *t1
        == *t0
    &&& syscall_id(id) == Some(SysCallId::DebugAdd) ==> *t1 == *t0 && (if arg0
        + arg1 <= usize::MAX {
        r == Ok::<u64, Error>((arg0 + arg1) as u64)
    } else {
        r == Err::<u64, Error>(Error::OutOfRange)
    })
    &&& syscall_id(id) == Some(SysCallId::DebugPutc) ==> *t1 == *t0 && (if arg0
        <= u32::MAX && is_char(arg0 as u32) {
        r == Ok::<u64, Error>(arg0 as u64)
    } else {
        r == Err::<u64, Error>(Error::InvalidArgument)
    })
    &&& syscall_id(id) == Some(SysCallId::WaitGroupAdd) ==> if arg0 <= u32::MAX && arg1 <= u32::MAX
        && arg2 <= u32::MAX {
        &&& added(
            t0,
            t1,
            arg0 as u32,
            arg1 as u32,
            Signals { bits: arg2 as u32 },
            arg3,
            unit_result(r),
        )
        &&& r is Ok ==> r == Ok::<u64, Error>(0)
    } else {
        r == Err::<u64, Error>(Error::InvalidArgument) && *t1 == *t0
    }
    &&& syscall_id(id) == Some(SysCallId::WaitGroupRemove) ==> if arg0 <= u32::MAX && arg1
        <= u32::MAX {
        &&& removed(t0, t1, arg0 as u32, arg1 as u32, unit_result(r))
        &&& r is Ok ==> r == Ok::<u64, Error>(0)
    } else {
        r == Err::<u64, Error>(Error::InvalidArgument) && *t1 == *t0
    }
    &&& syscall_id(id) == Some(SysCallId::InterruptAck) ==> if arg0 <= u32::MAX && arg1
        <= u32::MAX {
        if arg0 >= t0.len() {
            r == Err::<u64, Error>(Error::InvalidArgument) && *t1 == *t0
        } else if !(t0.objects@[arg0 as int] is Interrupt) {
            r == Err::<u64, Error>(Error::Unimplemented) && *t1 == *t0
        } else {
            r == Ok::<u64, Error>(0) && signaled(
                t0,
                t1,
                arg0 as int,
                Signals {
                    bits: t0.base(arg0 as int).state.active_signals.bits & !(
                    arg1 as u32),
                },
            )
        }
    } else {
        r == Err::<u64, Error>(Error::InvalidArgument) && *t1 == *t0
    }
}

/// Runs the system call `id` with its four machine-word arguments on the
/// objects of `table`, for the calls that complete without sleeping.
///
/// `DebugNoOp` returns 0; `DebugAdd` returns `arg0 + arg1`, or
/// `OutOfRange` when the sum overflows; `DebugPutc` returns `arg0` when it
/// is a character and fails with `InvalidArgument` otherwise.
/// `WaitGroupAdd(group, member, signal_mask, user_data)`,
/// `WaitGroupRemove(group, member)` and `InterruptAck(handle, signal_mask)`
/// return 0 or the operation's error; an argument that does not fit its
/// `u32` fails with `InvalidArgument`. An unknown id fails with
/// `InvalidArgument`. The calls that sleep or leave the kernel (waits,
/// channel transfers, shutdown) are run by the scheduler and fail here with
/// `Unimplemented`.
pub fn handle_syscall(
    table: &mut StaticObjectTable,
    id: u16,
    arg0: usize,
    arg1: usize,
    arg2: usize,
    arg3: usize,
) -> (r: Result<u64, Error>)
    requires
        old(table).wf(),
    ensures
        final(table).wf(),
        dispatched(old(table), final(table), id, arg0, arg1, arg2, arg3, r),
{
    let id = SysCallId::from_id(id)?;
    match id {
        SysCallId::DebugNoOp => Ok(0),
        SysCallId::DebugAdd => match arg0.checked_add(arg1) {
            Some(res) => Ok(res as u64),
            None => Err(Error::OutOfRange),
        },
        SysCallId::DebugPutc => {
            let c = arg_u32(arg0)?;
            if is_char_value(c) {
                Ok(arg0 as u64)
            } else {
                Err(Error::InvalidArgument)
            }
        },
        SysCallId::WaitGroupAdd => {
            let group = arg_u32(arg0)?;
            let member = arg_u32(arg1)?;
            let mask = arg_u32(arg2)?;
            let ghost t0 = *table;
            let res = table.wait_group_add(group, member, Signals::from_bits(mask), arg3);
            proof {
                assert(added(&t0, table, group, member, Signals { bits: mask }, arg3, res));
            }
            match res {
                Ok(()) => Ok(0),
                Err(e) => Err(e),
            }
        },
        SysCallId::WaitGroupRemove => {
            let group = arg_u32(arg0)?;
            let member = arg_u32(arg1)?;
            let ghost t0 = *table;
            let res = table.wait_group_remove(group, member);
            proof {
                assert(removed(&t0, table, group, member, res));
            }
            match res {
                Ok(()) => Ok(0),
                Err(e) => Err(e),
            }
        },
        SysCallId::InterruptAck => {
            let handle = arg_u32(arg0)?;
            let mask = arg_u32(arg1)?;
            match table.interrupt_ack(handle, Signals::from_bits(mask)) {
                Ok(()) => Ok(0),
                Err(e) => Err(e),
            }
        },
        _ => Err(Error::Unimplemented),
    }
}

/// The signed word a system call returns: the payload on success, the
/// negated error code on failure.
pub open spec fn return_value(r: Result<u64, Error>) -> i64 {
    match r {
        Ok(v) => v as i64,
        Err(e) => (0 - error_code(e)) as i64,
    }
}

/// Packs the outcome of a system call into the signed word returned to the
/// calling thread.
pub fn pack_result(r: Result<u64, Error>) -> (v: i64)
    ensures
        v == return_value(r),
{
    match r {
        Ok(v) => v as i64,
        Err(e) => -(e.code() as i64),
    }
}

/// `handle_syscall`, with its outcome packed as `pack_result` does.
pub fn raw_handle_syscall(
    table: &mut StaticObjectTable,
    id: u16,
    arg0: usize,
    arg1: usize,
    arg2: usize,
    arg3: usize,
) -> (v: i64)
    requires
        old(table).wf(),
    ensures
        final(table).wf(),
        exists|r: Result<u64, Error>|
            dispatched(old(table), final(table), id, arg0, arg1, arg2, arg3, r) && v
                == return_value(r),
{
    let r = handle_syscall(table, id, arg0, arg1, arg2, arg3);
    pack_result(r)
}

} // verus!
