//! Low-level types and constants for syscalls in river.

use vstd::prelude::*;

use crate::capability::{CapError, CapResult, CapabilityType, Captr};

pub mod captr;
pub mod debug;
pub mod handed;
pub mod notification;
pub mod paging;
pub mod thread;

verus! {

/// Syscall numbers as provided to `ecall`.
#[derive(Copy, Clone, Debug, PartialEq, Eq, Hash, Structural)]
pub enum SyscallNumber {
    CaptrDelete,
    PageCreate,
    PageMap,
    PageTableCreate,
    PageTableUnmap,
    ThreadSuspend,
    ThreadConfigure,
    ThreadResume,
    ThreadWriteRegisters,
    ThreadStart,
    CaptrGrant,
    NotificationCreate,
    NotificationWait,
    NotificationSignal,
    NotificationPoll,
    Yield,
    IntrHandlerAck,
    IntrHandlerBind,
    IntrHandlerUnbind,
    IntrPoolGet,
    EndpointSend,
    EndpointRecv,
    ThreadSetPriority,
    ThreadSetIpcBuffer,
    EndpointCreate,
    EndpointReply,
    EndpointCall,
    JobCreate,
    JobLink,
    JobCreateThread,
    DebugCapSlot,
    DebugDumpRoot,
    DebugPrint,
    DebugCapIdentify,
    /// Unknown syscall
    Unknown,
}

impl SyscallNumber {
    /// The number of a syscall.
    pub open spec fn number(self) -> u64 {
        match self {
            SyscallNumber::CaptrDelete => 0,
            SyscallNumber::PageCreate => 1,
            SyscallNumber::PageMap => 2,
            SyscallNumber::PageTableCreate => 3,
            SyscallNumber::PageTableUnmap => 4,
            SyscallNumber::ThreadSuspend => 5,
            SyscallNumber::ThreadConfigure => 6,
            SyscallNumber::ThreadResume => 7,
            SyscallNumber::ThreadWriteRegisters => 8,
            SyscallNumber::ThreadStart => 9,
            SyscallNumber::CaptrGrant => 10,
            SyscallNumber::NotificationCreate => 11,
            SyscallNumber::NotificationWait => 12,
            SyscallNumber::NotificationSignal => 13,
            SyscallNumber::NotificationPoll => 14,
            SyscallNumber::Yield => 15,
            SyscallNumber::IntrHandlerAck => 16,
            SyscallNumber::IntrHandlerBind => 17,
            SyscallNumber::IntrHandlerUnbind => 18,
            SyscallNumber::IntrPoolGet => 19,
            SyscallNumber::EndpointSend => 20,
            SyscallNumber::EndpointRecv => 21,
            SyscallNumber::ThreadSetPriority => 22,
            SyscallNumber::ThreadSetIpcBuffer => 23,
            SyscallNumber::EndpointCreate => 24,
            SyscallNumber::EndpointReply => 25,
            SyscallNumber::EndpointCall => 26,
            SyscallNumber::JobCreate => 27,
            SyscallNumber::JobLink => 28,
            SyscallNumber::JobCreateThread => 29,
            SyscallNumber::DebugCapSlot => 0xFFFF_0000,
            SyscallNumber::DebugDumpRoot => 0xFFFF_0001,
            SyscallNumber::DebugPrint => 0xFFFF_0002,
            SyscallNumber::DebugCapIdentify => 0xFFFF_0003,
            SyscallNumber::Unknown => u64::MAX,
        }
    }

    /// The syscall of a number.
    pub open spec fn of_number(value: u64) -> SyscallNumber {
        if value == 0 {
            SyscallNumber::CaptrDelete
        } else if value == 1 {
            SyscallNumber::PageCreate
        } else if value == 2 {
            SyscallNumber::PageMap
        } else if value == 3 {
            SyscallNumber::PageTableCreate
        } else if value == 4 {
            SyscallNumber::PageTableUnmap
        } else if value == 5 {
            SyscallNumber::ThreadSuspend
        } else if value == 6 {
            SyscallNumber::ThreadConfigure
        } else if value == 7 {
            SyscallNumber::ThreadResume
        } else if value == 8 {
            SyscallNumber::ThreadWriteRegisters
        } else if value == 9 {
            SyscallNumber::ThreadStart
        } else if value == 10 {
            SyscallNumber::CaptrGrant
        } else if value == 11 {
            SyscallNumber::NotificationCreate
        } else if value == 12 {
            SyscallNumber::NotificationWait
        } else if value == 13 {
            SyscallNumber::NotificationSignal
        } else if value == 14 {
            SyscallNumber::NotificationPoll
        } else if value == 15 {
            SyscallNumber::Yield
        } else if value == 16 {
            SyscallNumber::IntrHandlerAck
        } else if value == 17 {
            SyscallNumber::IntrHandlerBind
        } else if value == 18 {
            SyscallNumber::IntrHandlerUnbind
        } else if value == 19 {
            SyscallNumber::IntrPoolGet
        } else if value == 20 {
            SyscallNumber::EndpointSend
        } else if value == 21 {
            SyscallNumber::EndpointRecv
        } else if value == 22 {
            SyscallNumber::ThreadSetPriority
        } else if value == 23 {
            SyscallNumber::ThreadSetIpcBuffer
        } else if value == 24 {
            SyscallNumber::EndpointCreate
        } else if value == 25 {
            SyscallNumber::EndpointReply
        } else if value == 26 {
            SyscallNumber::EndpointCall
        } else if value == 27 {
            SyscallNumber::JobCreate
        } else if value == 28 {
            SyscallNumber::JobLink
        } else if value == 29 {
            SyscallNumber::JobCreateThread
        } else if value == 0xFFFF_0000 {
            SyscallNumber::DebugCapSlot
        } else if value == 0xFFFF_0001 {
            SyscallNumber::DebugDumpRoot
        } else if value == 0xFFFF_0002 {
            SyscallNumber::DebugPrint
        } else if value == 0xFFFF_0003 {
            SyscallNumber::DebugCapIdentify
        } else {
            SyscallNumber::Unknown
        }
    }
}

impl From<u64> for SyscallNumber {
    fn from(value: u64) -> (r: Self) {
        match value {
            0 => SyscallNumber::CaptrDelete,
            1 => SyscallNumber::PageCreate,
            2 => SyscallNumber::PageMap,
            3 => SyscallNumber::PageTableCreate,
            4 => SyscallNumber::PageTableUnmap,
            5 => SyscallNumber::ThreadSuspend,
            6 => SyscallNumber::ThreadConfigure,
            7 => SyscallNumber::ThreadResume,
            8 => SyscallNumber::ThreadWriteRegisters,
            9 => SyscallNumber::ThreadStart,
            10 => SyscallNumber::CaptrGrant,
            11 => SyscallNumber::NotificationCreate,
            12 => SyscallNumber::NotificationWait,
            13 => SyscallNumber::NotificationSignal,
            14 => SyscallNumber::NotificationPoll,
            15 => SyscallNumber::Yield,
            16 => SyscallNumber::IntrHandlerAck,
            17 => SyscallNumber::IntrHandlerBind,
            18 => SyscallNumber::IntrHandlerUnbind,
            19 => SyscallNumber::IntrPoolGet,
            20 => SyscallNumber::EndpointSend,
            21 => SyscallNumber::EndpointRecv,
            22 => SyscallNumber::ThreadSetPriority,
            23 => SyscallNumber::ThreadSetIpcBuffer,
            24 => SyscallNumber::EndpointCreate,
            25 => SyscallNumber::EndpointReply,
            26 => SyscallNumber::EndpointCall,
            27 => SyscallNumber::JobCreate,
            28 => SyscallNumber::JobLink,
            29 => SyscallNumber::JobCreateThread,
            0xFFFF_0000 => SyscallNumber::DebugCapSlot,
            0xFFFF_0001 => SyscallNumber::DebugDumpRoot,
            0xFFFF_0002 => SyscallNumber::DebugPrint,
            0xFFFF_0003 => SyscallNumber::DebugCapIdentify,
            _ => SyscallNumber::Unknown,
        }
    }
}

impl vstd::std_specs::convert::FromSpecImpl<u64> for SyscallNumber {
    open spec fn obeys_from_spec() -> bool {
        true
    }

    open spec fn from_spec(value: u64) -> Self {
        SyscallNumber::of_number(value)
    }
}

impl From<SyscallNumber> for u64 {
    fn from(value: SyscallNumber) -> (r: u64) {
        match value {
            SyscallNumber::CaptrDelete => 0,
            SyscallNumber::PageCreate => 1,
            SyscallNumber::PageMap => 2,
            SyscallNumber::PageTableCreate => 3,
            SyscallNumber::PageTableUnmap => 4,
            SyscallNumber::ThreadSuspend => 5,
            SyscallNumber::ThreadConfigure => 6,
            SyscallNumber::ThreadResume => 7,
            SyscallNumber::ThreadWriteRegisters => 8,
            SyscallNumber::ThreadStart => 9,
            SyscallNumber::CaptrGrant => 10,
            SyscallNumber::NotificationCreate => 11,
            SyscallNumber::NotificationWait => 12,
            SyscallNumber::NotificationSignal => 13,
            SyscallNumber::NotificationPoll => 14,
            SyscallNumber::Yield => 15,
            SyscallNumber::IntrHandlerAck => 16,
            SyscallNumber::IntrHandlerBind => 17,
            SyscallNumber::IntrHandlerUnbind => 18,
            SyscallNumber::IntrPoolGet => 19,
            SyscallNumber::EndpointSend => 20,
            SyscallNumber::EndpointRecv => 21,
            SyscallNumber::ThreadSetPriority => 22,
            SyscallNumber::ThreadSetIpcBuffer => 23,
            SyscallNumber::EndpointCreate => 24,
            SyscallNumber::EndpointReply => 25,
            SyscallNumber::EndpointCall => 26,
            SyscallNumber::JobCreate => 27,
            SyscallNumber::JobLink => 28,
            SyscallNumber::JobCreateThread => 29,
            SyscallNumber::DebugCapSlot => 0xFFFF_0000,
            SyscallNumber::DebugDumpRoot => 0xFFFF_0001,
            SyscallNumber::DebugPrint => 0xFFFF_0002,
            SyscallNumber::DebugCapIdentify => 0xFFFF_0003,
            SyscallNumber::Unknown => u64::MAX,
        }
    }
}

impl vstd::std_specs::convert::FromSpecImpl<SyscallNumber> for u64 {
    open spec fn obeys_from_spec() -> bool {
        true
    }

    open spec fn from_spec(value: SyscallNumber) -> u64 {
        value.number()
    }
}

/// Every syscall is the syscall of its number.
pub proof fn law_syscall_numbers(syscall: SyscallNumber)
    ensures
        SyscallNumber::of_number(syscall.number()) == syscall,
{
}

/// What is handed to the kernel with an `ecall`: the syscall in `a0`, and its
/// arguments in `a1` to `a7`. Registers that a syscall does not use are 0.
#[derive(Copy, Clone, Debug, PartialEq, Eq, Structural)]
pub struct Ecall {
    pub syscall: SyscallNumber,
    pub a1: u64,
    pub a2: u64,
    pub a3: u64,
    pub a4: u64,
    pub a5: u64,
    pub a6: u64,
    pub a7: u64,
}

impl Ecall {
    /// A syscall with up to three arguments.
    pub open spec fn of(syscall: SyscallNumber, a1: u64, a2: u64, a3: u64) -> Ecall {
        Ecall { syscall, a1, a2, a3, a4: 0, a5: 0, a6: 0, a7: 0 }
    }

    /// A syscall with up to three arguments.
    pub fn new(syscall: SyscallNumber, a1: u64, a2: u64, a3: u64) -> (r: Ecall)
        ensures
            r == Ecall::of(syscall, a1, a2, a3),
    {
        Ecall { syscall, a1, a2, a3, a4: 0, a5: 0, a6: 0, a7: 0 }
    }
}

/// What the kernel hands back: an error in `a0`, and a value in `a1`.
#[derive(Copy, Clone, Debug, PartialEq, Eq, Structural)]
pub struct Reply {
    pub a0: u64,
    pub a1: u64,
}

impl Reply {
    /// If `a0` was an error (non-zero), the result is `Err(a0)`. If it was 0
    /// (not an error), `Ok(a1)` is returned.
    pub fn result(self) -> (r: Result<u64, u64>)
        ensures
            r == if self.a0 == 0 {
                Ok::<u64, u64>(self.a1)
            } else {
                Err::<u64, u64>(self.a0)
            },
    {
        match self.a0 {
            0 => Ok(self.a1),
            _ => Err(self.a0),
        }
    }

    /// The reply to a syscall that returns no value.
    pub fn unit(self) -> (r: CapResult<()>)
        ensures
            r == if self.a0 == 0 {
                Ok::<(), CapError>(())
            } else {
                Err::<(), CapError>(CapError::of_number(self.a0))
            },
    {
        match self.result() {
            Ok(_) => Ok(()),
            Err(e) => Err(CapError::from(e)),
        }
    }

    /// The reply to a syscall that returns the captr of a capability.
    pub fn captr(self) -> (r: CapResult<Captr>)
        ensures
            r is Ok <==> self.a0 == 0,
            r matches Ok(captr) ==> captr@ == self.a1,
            r matches Err(e) ==> e == CapError::of_number(self.a0),
    {
        match self.result() {
            Ok(value) => Ok(Captr::from_raw(value)),
            Err(e) => Err(CapError::from(e)),
        }
    }

    /// The reply to a syscall that returns the bits of a notification; `None`
    /// if none was set.
    pub fn signals(self) -> (r: CapResult<Option<u64>>)
        ensures
            r == if self.a0 != 0 {
                Err::<Option<u64>, CapError>(CapError::of_number(self.a0))
            } else if self.a1 == 0 {
                Ok::<Option<u64>, CapError>(None)
            } else {
                Ok::<Option<u64>, CapError>(Some(self.a1))
            },
    {
        match self.result() {
            Ok(0) => Ok(None),
            Ok(value) => Ok(Some(value)),
            Err(e) => Err(CapError::from(e)),
        }
    }

    /// The reply to a syscall that returns the type of a capability.
    pub fn capability_type(self) -> (r: CapResult<CapabilityType>)
        ensures
            r == if self.a0 == 0 {
                Ok::<CapabilityType, CapError>(
                    CapabilityType::of_number((self.a1 % 256) as u8),
                )
            } else {
                Err::<CapabilityType, CapError>(CapError::of_number(self.a0))
            },
    {
        match self.result() {
            Ok(value) => Ok(CapabilityType::from(value)),
            Err(e) => Err(CapError::from(e)),
        }
    }
}

} // verus!
