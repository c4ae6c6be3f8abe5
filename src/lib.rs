pub mod format_ops;
pub mod invariants;
pub mod object;
pub mod signals;
pub mod syscall;
pub mod table;
pub mod wait_group;
pub mod waiter;

pub use format_ops::PrintfTestGeneratorOps;
pub use object::{KernelObject, ObjectBase, ObjectBaseState, WaitStart};
pub use signals::{Error, Signals, WaitReturn};
pub use syscall::{handle_syscall, raw_handle_syscall, SysCallId};
pub use table::{NullObjectTable, ObjectKind, ObjectTable, StaticObjectTable};
pub use wait_group::{WaitGroupMember, WaitGroupObject, WaitGroupState};
pub use waiter::{ObjectWaiter, WaitResult, WaiterList};
