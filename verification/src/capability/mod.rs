//! Capability table interface for use in all syscalls in river.
//!
//! A capability is an unforgeable token: it refers to some resource in the
//! kernel that a thread can perform certain actions on. Userspace names it by a
//! [`Captr`], an index into the capability table of its job.

use vstd::prelude::*;

use crate::syscalls::{Ecall, SyscallNumber};

pub mod paging;

verus! {

/// The various types of capabilities that can exist.
#[derive(Copy, Clone, Debug, PartialEq, Eq, Hash, Structural)]
pub enum CapabilityType {
    /// The [`Empty`] capability.
    Empty,
    /// Page tables.
    PgTbl,
    /// Pages that can be mapped into page tables.
    Page,
    /// [`Thread`]s.
    Thread,
    /// [`Notification`]s.
    Notification,
    /// [`InterruptPool`]s.
    InterruptPool,
    /// [`InterruptHandler`]s.
    InterruptHandler,
    /// [`Endpoint`]s.
    Endpoint,
    /// [`Job`]s.
    Job,
    /// Any capability type `>=32` is undefined.
    Unknown,
}

impl CapabilityType {
    /// The number that stands for this value.
    pub open spec fn number(self) -> u8 {
        match self {
            CapabilityType::Empty => 0,
            CapabilityType::PgTbl => 3,
            CapabilityType::Page => 4,
            CapabilityType::Thread => 5,
            CapabilityType::Notification => 6,
            CapabilityType::InterruptPool => 7,
            CapabilityType::InterruptHandler => 8,
            CapabilityType::Endpoint => 9,
            CapabilityType::Job => 10,
            CapabilityType::Unknown => 32,
        }
    }

    /// The value that a number stands for.
    pub open spec fn of_number(value: u8) -> CapabilityType {
        if value == 0 {
            CapabilityType::Empty
        } else if value == 3 {
            CapabilityType::PgTbl
        } else if value == 4 {
            CapabilityType::Page
        } else if value == 5 {
            CapabilityType::Thread
        } else if value == 6 {
            CapabilityType::Notification
        } else if value == 7 {
            CapabilityType::InterruptPool
        } else if value == 8 {
            CapabilityType::InterruptHandler
        } else if value == 9 {
            CapabilityType::Endpoint
        } else if value == 10 {
            CapabilityType::Job
        } else {
            CapabilityType::Unknown
        }
    }
}

impl From<u8> for CapabilityType {
    fn from(value: u8) -> (r: Self) {
        match value {
            0 => CapabilityType::Empty,
            3 => CapabilityType::PgTbl,
            4 => CapabilityType::Page,
            5 => CapabilityType::Thread,
            6 => CapabilityType::Notification,
            7 => CapabilityType::InterruptPool,
            8 => CapabilityType::InterruptHandler,
            9 => CapabilityType::Endpoint,
            10 => CapabilityType::Job,
            _ => CapabilityType::Unknown,
        }
    }
}

impl vstd::std_specs::convert::FromSpecImpl<u8> for CapabilityType {
    open spec fn obeys_from_spec() -> bool {
        true
    }

    open spec fn from_spec(value: u8) -> Self {
        CapabilityType::of_number(value)
    }
}

impl CapabilityType {
    /// The number that stands for this value.
    pub fn code(self) -> (r: u8)
        ensures
            r == self.number(),
    {
        match self {
            CapabilityType::Empty => 0,
            CapabilityType::PgTbl => 3,
            CapabilityType::Page => 4,
            CapabilityType::Thread => 5,
            CapabilityType::Notification => 6,
            CapabilityType::InterruptPool => 7,
            CapabilityType::InterruptHandler => 8,
            CapabilityType::Endpoint => 9,
            CapabilityType::Job => 10,
            CapabilityType::Unknown => 32,
        }
    }
}

impl From<CapabilityType> for u8 {
    fn from(value: CapabilityType) -> (r: u8) {
        value.code()
    }
}

impl vstd::std_specs::convert::FromSpecImpl<CapabilityType> for u8 {
    open spec fn obeys_from_spec() -> bool {
        true
    }

    open spec fn from_spec(value: CapabilityType) -> u8 {
        value.number()
    }
}

impl Default for CapabilityType {
    fn default() -> (r: Self)
        ensures
            r == CapabilityType::Empty,
    {
        CapabilityType::Empty
    }
}

proof fn lemma_low_byte(value: u64)
    by (bit_vector)
    ensures
        value as u8 == value % 256,
{
}

impl From<u64> for CapabilityType {
    fn from(value: u64) -> (r: Self) {
        proof {
            lemma_low_byte(value);
        }
        CapabilityType::from(value as u8)
    }
}

impl vstd::std_specs::convert::FromSpecImpl<u64> for CapabilityType {
    open spec fn obeys_from_spec() -> bool {
        true
    }

    open spec fn from_spec(value: u64) -> Self {
        CapabilityType::of_number((value % 256) as u8)
    }
}

impl From<CapabilityType> for u64 {
    fn from(value: CapabilityType) -> (r: u64) {
        value.code() as u64
    }
}

impl vstd::std_specs::convert::FromSpecImpl<CapabilityType> for u64 {
    open spec fn obeys_from_spec() -> bool {
        true
    }

    open spec fn from_spec(value: CapabilityType) -> u64 {
        value.number() as u64
    }
}

/// Every type of capabilities is the type of its number.
pub proof fn law_capability_type_numbers(ty: CapabilityType)
    ensures
        CapabilityType::of_number(ty.number()) == ty,
        CapabilityType::of_number((ty.number() as u64 % 256) as u8) == ty,
{
}

/// Some errors that may arise from capability interface syscalls.
#[derive(Copy, Clone, Debug, PartialEq, Eq, Hash, Structural)]
pub enum CapError {
    /// This is not an error.
    NoError,
    /// The requested resource was not present.
    NotPresent,
    /// The requested resource was of an invalid type for this operation.
    InvalidType,
    /// Not enough memory was available to hold a given resource.
    NotEnoughResources,
    /// The provided size was invalid.
    InvalidSize,
    /// The requested operation could not be performed.
    InvalidOperation,
    /// A capability could not be derived, as it had children.
    RevokeFirst,
    /// The error provided to us by the syscall interface was unknown.
    UnknownError,
}

impl CapError {
    /// The number that stands for this value.
    pub open spec fn number(self) -> u64 {
        match self {
            CapError::NoError => 0,
            CapError::NotPresent => 1,
            CapError::InvalidType => 2,
            CapError::NotEnoughResources => 3,
            CapError::InvalidSize => 4,
            CapError::InvalidOperation => 5,
            CapError::RevokeFirst => 6,
            CapError::UnknownError => u64::MAX,
        }
    }

    /// The value that a number stands for.
    pub open spec fn of_number(value: u64) -> CapError {
        if value == 0 {
            CapError::NoError
        } else if value == 1 {
            CapError::NotPresent
        } else if value == 2 {
            CapError::InvalidType
        } else if value == 3 {
            CapError::NotEnoughResources
        } else if value == 4 {
            CapError::InvalidSize
        } else if value == 5 {
            CapError::InvalidOperation
        } else if value == 6 {
            CapError::RevokeFirst
        } else {
            CapError::UnknownError
        }
    }
}

impl From<u64> for CapError {
    fn from(value: u64) -> (r: Self) {
        match value {
            0 => CapError::NoError,
            1 => CapError::NotPresent,
            2 => CapError::InvalidType,
            3 => CapError::NotEnoughResources,
            4 => CapError::InvalidSize,
            5 => CapError::InvalidOperation,
            6 => CapError::RevokeFirst,
            _ => CapError::UnknownError,
        }
    }
}

impl vstd::std_specs::convert::FromSpecImpl<u64> for CapError {
    open spec fn obeys_from_spec() -> bool {
        true
    }

    open spec fn from_spec(value: u64) -> Self {
        CapError::of_number(value)
    }
}

impl CapError {
    /// The number that stands for this value.
    pub fn code(self) -> (r: u64)
        ensures
            r == self.number(),
    {
        match self {
            CapError::NoError => 0,
            CapError::NotPresent => 1,
            CapError::InvalidType => 2,
            CapError::NotEnoughResources => 3,
            CapError::InvalidSize => 4,
            CapError::InvalidOperation => 5,
            CapError::RevokeFirst => 6,
            CapError::UnknownError => u64::MAX,
        }
    }
}

impl From<CapError> for u64 {
    fn from(value: CapError) -> (r: u64) {
        value.code()
    }
}

impl vstd::std_specs::convert::FromSpecImpl<CapError> for u64 {
    open spec fn obeys_from_spec() -> bool {
        true
    }

    open spec fn from_spec(value: CapError) -> u64 {
        value.number()
    }
}

/// Every error is the error of its number.
pub proof fn law_cap_error_numbers(e: CapError)
    ensures
        CapError::of_number(e.number()) == e,
{
}

/// Helper [`Result`] type for operations involving capability syscalls.
pub type CapResult<T> = Result<T, CapError>;

/// A `Captr`, or capability pointer, is a token for a resource in the kernel:
/// an index into a capability table, or null. It can not be dereferenced but
/// can be passed to syscalls to perform operations on kernel resources.
#[derive(Copy, Clone, Debug, PartialEq, Eq, PartialOrd, Ord, Hash, Structural)]
pub struct Captr {
    inner: u64,
}

impl Captr {
    /// The index; 0 for a null captr.
    pub closed spec fn view(&self) -> u64 {
        self.inner
    }

    /// Create a `Captr` from a given raw capability pointer.
    #[inline]
    pub fn from_raw(inner: u64) -> (r: Self)
        ensures
            r@ == inner,
    {
        Captr { inner }
    }

    /// Convert a `Captr` into its raw representation.
    #[inline]
    pub fn into_raw(self) -> (r: u64)
        ensures
            r == self@,
    {
        self.inner
    }

    /// Check if a `Captr` is null.
    #[inline]
    pub fn is_null(self) -> (r: bool)
        ensures
            r == (self@ == 0),
    {
        self.inner == 0
    }

    /// Create a null `Captr`.
    #[inline]
    pub fn null() -> (r: Self)
        ensures
            r@ == 0,
    {
        Captr { inner: 0 }
    }

    /// Offset a `Captr` by a signed number. Note that this function may
    /// overflow, and may create a null `Captr`. A null `Captr` stays null.
    #[inline]
    pub fn offset(self, by: i64) -> (r: Self)
        ensures
            self@ == 0 ==> r@ == 0,
            self@ != 0 ==> r@ == wrapped(self@ + by),
    {
        if self.inner == 0 {
            return self;
        }
        let inner: u64 = self.inner.wrapping_add_signed(by);
        Captr { inner }
    }

    /// Offset a `Captr` by an unsigned number. Note that this function may
    /// overflow, and may create a null `Captr`. A null `Captr` stays null.
    #[inline]
    pub fn add(self, by: u64) -> (r: Self)
        ensures
            self@ == 0 ==> r@ == 0,
            self@ != 0 ==> r@ == wrapped(self@ + by),
    {
        if self.inner == 0 {
            return self;
        }
        let inner: u64 = self.inner.wrapping_add(by);
        Captr { inner }
    }
}

/// A number, brought into the range of words.
pub open spec fn wrapped(x: int) -> int {
    x % 0x1_0000_0000_0000_0000
}

/// Types that represent objects in the kernel.
pub trait Capability: Sized {
    /// The captr that the capability is.
    spec fn captr(self) -> u64;

    /// The type that the capability corresponds to.
    spec fn ty() -> CapabilityType;

    /// Convert a [`Captr`] to this capability type, without checking if it is
    /// of the correct type.
    fn from_captr(c: Captr) -> (r: Self)
        ensures
            r.captr() == c@,
    ;

    /// Convert this capability into its underlying [`Captr`].
    fn into_captr(self) -> (r: Captr)
        ensures
            r@ == self.captr(),
    ;

    /// What [`CapabilityType`] does this `Capability` correspond to?
    fn capability_type() -> (r: CapabilityType)
        ensures
            r == Self::ty(),
    ;
}

/// The empty capability corresponds to an empty slot in the capability table,
/// into which any capability can be placed.
#[derive(Copy, Clone, Debug, PartialEq, Eq, Structural)]
pub struct Empty(pub Captr);

impl Capability for Empty {
    open spec fn captr(self) -> u64 {
        self.0@
    }

    open spec fn ty() -> CapabilityType {
        CapabilityType::Empty
    }

    fn from_captr(c: Captr) -> (r: Self) {
        Empty(c)
    }

    fn into_captr(self) -> (r: Captr) {
        self.0
    }

    fn capability_type() -> (r: CapabilityType) {
        CapabilityType::Empty
    }
}

/// A capability representing a thread.
#[derive(Copy, Clone, Debug, PartialEq, Eq, Structural)]
pub struct Thread(pub Captr);

impl Capability for Thread {
    open spec fn captr(self) -> u64 {
        self.0@
    }

    open spec fn ty() -> CapabilityType {
        CapabilityType::Thread
    }

    fn from_captr(c: Captr) -> (r: Self) {
        Thread(c)
    }

    fn into_captr(self) -> (r: Captr) {
        self.0
    }

    fn capability_type() -> (r: CapabilityType) {
        CapabilityType::Thread
    }
}

/// A notification is a kernel-backed semaphore between threads, with the
/// ability to block on signals.
#[derive(Copy, Clone, Debug, PartialEq, Eq, Structural)]
pub struct Notification(pub Captr);

impl Capability for Notification {
    open spec fn captr(self) -> u64 {
        self.0@
    }

    open spec fn ty() -> CapabilityType {
        CapabilityType::Notification
    }

    fn from_captr(c: Captr) -> (r: Self) {
        Notification(c)
    }

    fn into_captr(self) -> (r: Captr) {
        self.0
    }

    fn capability_type() -> (r: CapabilityType) {
        CapabilityType::Notification
    }
}

/// Dynamic capabilities, whose type is not known beforehand.
#[derive(Copy, Clone, Debug, PartialEq, Eq, Structural)]
pub struct AnyCap(pub Captr);

impl Capability for AnyCap {
    open spec fn captr(self) -> u64 {
        self.0@
    }

    open spec fn ty() -> CapabilityType {
        CapabilityType::Unknown
    }

    fn from_captr(c: Captr) -> (r: Self) {
        AnyCap(c)
    }

    fn into_captr(self) -> (r: Captr) {
        self.0
    }

    fn capability_type() -> (r: CapabilityType) {
        CapabilityType::Unknown
    }
}

/// A handler of one interrupt.
#[derive(Copy, Clone, Debug, PartialEq, Eq, Structural)]
pub struct InterruptHandler(pub Captr);

impl Capability for InterruptHandler {
    open spec fn captr(self) -> u64 {
        self.0@
    }

    open spec fn ty() -> CapabilityType {
        CapabilityType::InterruptHandler
    }

    fn from_captr(c: Captr) -> (r: Self) {
        InterruptHandler(c)
    }

    fn into_captr(self) -> (r: Captr) {
        self.0
    }

    fn capability_type() -> (r: CapabilityType) {
        CapabilityType::InterruptHandler
    }
}

/// A pool from which handlers of interrupts are made.
#[derive(Copy, Clone, Debug, PartialEq, Eq, Structural)]
pub struct InterruptPool(pub Captr);

impl Capability for InterruptPool {
    open spec fn captr(self) -> u64 {
        self.0@
    }

    open spec fn ty() -> CapabilityType {
        CapabilityType::InterruptPool
    }

    fn from_captr(c: Captr) -> (r: Self) {
        InterruptPool(c)
    }

    fn into_captr(self) -> (r: Captr) {
        self.0
    }

    fn capability_type() -> (r: CapabilityType) {
        CapabilityType::InterruptPool
    }
}

/// A synchronous rendezvous IPC endpoint.
#[derive(Copy, Clone, Debug, PartialEq, Eq, Structural)]
pub struct Endpoint(pub Captr);

impl Capability for Endpoint {
    open spec fn captr(self) -> u64 {
        self.0@
    }

    open spec fn ty() -> CapabilityType {
        CapabilityType::Endpoint
    }

    fn from_captr(c: Captr) -> (r: Self) {
        Endpoint(c)
    }

    fn into_captr(self) -> (r: Captr) {
        self.0
    }

    fn capability_type() -> (r: CapabilityType) {
        CapabilityType::Endpoint
    }
}

/// A job is a group of [`Thread`]s that share resources via capabilities.
#[derive(Copy, Clone, Debug, PartialEq, Eq, Structural)]
pub struct Job(pub Captr);

impl Capability for Job {
    open spec fn captr(self) -> u64 {
        self.0@
    }

    open spec fn ty() -> CapabilityType {
        CapabilityType::Job
    }

    fn from_captr(c: Captr) -> (r: Self) {
        Job(c)
    }

    fn into_captr(self) -> (r: Captr) {
        self.0
    }

    fn capability_type() -> (r: CapabilityType) {
        CapabilityType::Job
    }
}

/// Syscalls that every capability has.
pub trait CaptrOps: Sized {
    /// The captr that the capability is.
    spec fn raw(self) -> u64;

    /// Remove the capability from its slot. Children capabilities derived from
    /// it are not affected.
    fn delete(self) -> (r: Ecall)
        ensures
            r == Ecall::of(SyscallNumber::CaptrDelete, self.raw(), 0, 0),
    ;

    /// Make a copy of the capability with at most the given rights, and with
    /// the given badge.
    fn grant(self, rights: CapRights, badge: Option<u64>) -> (r: Ecall)
        ensures
            r == Ecall::of(
                SyscallNumber::CaptrGrant,
                self.raw(),
                rights.bits,
                badge_bits(badge),
            ),
    ;
}

impl<C: Capability> CaptrOps for C {
    open spec fn raw(self) -> u64 {
        self.captr()
    }

    fn delete(self) -> (r: Ecall) {
        Ecall::new(SyscallNumber::CaptrDelete, self.into_captr().into_raw(), 0, 0)
    }

    fn grant(self, rights: CapRights, badge: Option<u64>) -> (r: Ecall) {
        let badge: u64 = match badge {
            Some(badge) => badge,
            None => 0,
        };
        Ecall::new(
            SyscallNumber::CaptrGrant,
            self.into_captr().into_raw(),
            rights.bits,
            badge,
        )
    }
}

/// A badge as a number, with 0 for no badge.
pub open spec fn badge_bits(badge: Option<u64>) -> u64 {
    match badge {
        Some(badge) => badge,
        None => 0,
    }
}

impl Thread {
    /// Suspend the thread.
    pub fn suspend(self) -> (r: Ecall)
        ensures
            r == Ecall::of(SyscallNumber::ThreadSuspend, self.0@, 0, 0),
    {
        Ecall::new(SyscallNumber::ThreadSuspend, self.0.into_raw(), 0, 0)
    }

    /// Resume the thread. It must have a page table, and be suspended.
    pub fn resume(self) -> (r: Ecall)
        ensures
            r == Ecall::of(SyscallNumber::ThreadResume, self.0@, 0, 0),
    {
        Ecall::new(SyscallNumber::ThreadResume, self.0.into_raw(), 0, 0)
    }

    /// Configure the thread's page table and its IPC buffer. It must be
    /// suspended.
    pub fn configure(self, pgtbl: Captr, ipc_buffer: Captr) -> (r: Ecall)
        ensures
            r == Ecall::of(SyscallNumber::ThreadConfigure, self.0@, pgtbl@, ipc_buffer@),
    {
        Ecall::new(
            SyscallNumber::ThreadConfigure,
            self.0.into_raw(),
            pgtbl.into_raw(),
            ipc_buffer.into_raw(),
        )
    }

    /// Write the registers of the thread, which must be suspended, from the
    /// [`UserRegisters`] at an address.
    pub fn write_registers(self, registers: u64) -> (r: Ecall)
        ensures
            r == Ecall::of(SyscallNumber::ThreadWriteRegisters, self.0@, registers, 0),
    {
        Ecall::new(SyscallNumber::ThreadWriteRegisters, self.0.into_raw(), registers, 0)
    }

    /// Write initial registers to the thread, which has not been started, then
    /// start it.
    pub fn start(self, entry: u64, stack: u64, arg1: Captr, arg2: u64) -> (r: Ecall)
        ensures
            r == (Ecall {
                a4: arg1@,
                a5: arg2,
                ..Ecall::of(SyscallNumber::ThreadStart, self.0@, entry, stack)
            }),
    {
        Ecall {
            syscall: SyscallNumber::ThreadStart,
            a1: self.0.into_raw(),
            a2: entry,
            a3: stack,
            a4: arg1.into_raw(),
            a5: arg2,
            a6: 0,
            a7: 0,
        }
    }
}

impl Notification {
    /// Create a new notification.
    pub fn create() -> (r: Ecall)
        ensures
            r == Ecall::of(SyscallNumber::NotificationCreate, 0, 0, 0),
    {
        Ecall::new(SyscallNumber::NotificationCreate, 0, 0, 0)
    }

    /// Read the semaphore without blocking. If the semaphore was non-zero,
    /// clear it.
    pub fn poll(&self) -> (r: Ecall)
        ensures
            r == Ecall::of(SyscallNumber::NotificationPoll, self.0@, 0, 0),
    {
        Ecall::new(SyscallNumber::NotificationPoll, self.0.into_raw(), 0, 0)
    }

    /// Signal this notification, bitwise `or`ing the semaphore with the
    /// capability's badge. Additionally, this operation will wake up the first
    /// thread waiting on this notification, if any.
    ///
    /// If the capability is zero-badged (or is unbadged), this operation will
    /// only wake up the first thread waiting on this notification.
    pub fn signal(&self) -> (r: Ecall)
        ensures
            r == Ecall::of(SyscallNumber::NotificationSignal, self.0@, 0, 0),
    {
        Ecall::new(SyscallNumber::NotificationSignal, self.0.into_raw(), 0, 0)
    }

    /// Wait until another thread signals this notification, or if there are
    /// unread incoming signals, read those without waiting.
    pub fn wait(&self) -> (r: Ecall)
        ensures
            r == Ecall::of(SyscallNumber::NotificationWait, self.0@, 0, 0),
    {
        Ecall::new(SyscallNumber::NotificationWait, self.0.into_raw(), 0, 0)
    }
}

impl Endpoint {
    /// Create a new `Endpoint`.
    pub fn create() -> (r: Ecall)
        ensures
            r == Ecall::of(SyscallNumber::EndpointCreate, 0, 0, 0),
    {
        Ecall::new(SyscallNumber::EndpointCreate, 0, 0, 0)
    }

    /// Receive a message. `sender` and `cap` are the addresses to which the
    /// sender's badge and a capability are written, or 0.
    pub fn recv_with_regs(self, sender: u64, cap: u64) -> (r: Ecall)
        ensures
            r == Ecall::of(SyscallNumber::EndpointRecv, self.0@, sender, cap),
    {
        Ecall::new(SyscallNumber::EndpointRecv, self.0.into_raw(), sender, cap)
    }

    /// Send a message, and receive the answer. `cap` is the address at which
    /// the captr of a capability to send is, or 0.
    pub fn call_with_regs(self, hdr: MessageHeader, cap: u64, mrs: [u64; 4]) -> (r: Ecall)
        ensures
            r == with_message(
                Ecall::of(SyscallNumber::EndpointCall, self.0@, hdr@, cap),
                mrs@,
            ),
    {
        message(SyscallNumber::EndpointCall, self.0, hdr, cap, mrs)
    }

    /// Send a message. `cap` is the address at which the captr of a capability
    /// to send is, or 0.
    pub fn send_with_regs(self, hdr: MessageHeader, cap: u64, mrs: [u64; 4]) -> (r: Ecall)
        ensures
            r == with_message(
                Ecall::of(SyscallNumber::EndpointSend, self.0@, hdr@, cap),
                mrs@,
            ),
    {
        message(SyscallNumber::EndpointSend, self.0, hdr, cap, mrs)
    }

    /// Answer a message. `cap` is the address at which the captr of a
    /// capability to send is, or 0.
    pub fn reply_with_regs(self, hdr: MessageHeader, cap: u64, mrs: [u64; 4]) -> (r: Ecall)
        ensures
            r == with_message(
                Ecall::of(SyscallNumber::EndpointReply, self.0@, hdr@, cap),
                mrs@,
            ),
    {
        message(SyscallNumber::EndpointReply, self.0, hdr, cap, mrs)
    }
}

/// A syscall, with the message registers `a4` to `a7`.
pub open spec fn with_message(call: Ecall, mrs: Seq<u64>) -> Ecall {
    Ecall { a4: mrs[0], a5: mrs[1], a6: mrs[2], a7: mrs[3], ..call }
}

fn message(
    syscall: SyscallNumber,
    endpoint: Captr,
    hdr: MessageHeader,
    cap: u64,
    mrs: [u64; 4],
) -> (r: Ecall)
    ensures
        r == with_message(Ecall::of(syscall, endpoint@, hdr@, cap), mrs@),
{
    Ecall {
        syscall,
        a1: endpoint.into_raw(),
        a2: hdr.into_raw(),
        a3: cap,
        a4: mrs[0],
        a5: mrs[1],
        a6: mrs[2],
        a7: mrs[3],
    }
}

impl Job {
    /// Create a new job with the given job as its parent.
    pub fn create(parent: Job) -> (r: Ecall)
        ensures
            r == Ecall::of(SyscallNumber::JobCreate, parent.0@, 0, 0),
    {
        Ecall::new(SyscallNumber::JobCreate, parent.0.into_raw(), 0, 0)
    }

    /// Create a thread in the job. `name` and `len` are the address and the
    /// length of its name.
    pub fn create_thread(self, name: u64, len: u64) -> (r: Ecall)
        ensures
            r == Ecall::of(SyscallNumber::JobCreateThread, self.0@, name, len),
    {
        Ecall::new(SyscallNumber::JobCreateThread, self.0.into_raw(), name, len)
    }
}

/// The registers of a userspace thread.
#[derive(Copy, Clone, Debug, PartialEq, Eq, Structural)]
pub struct UserRegisters {
    pub ra: u64,
    pub sp: u64,
    pub gp: u64,
    pub tp: u64,
    pub t0: u64,
    pub t1: u64,
    pub t2: u64,
    pub s0: u64,
    pub s1: u64,
    pub a0: u64,
    pub a1: u64,
    pub a2: u64,
    pub a3: u64,
    pub a4: u64,
    pub a5: u64,
    pub a6: u64,
    pub a7: u64,
    pub s2: u64,
    pub s3: u64,
    pub s4: u64,
    pub s5: u64,
    pub s6: u64,
    pub s7: u64,
    pub s8: u64,
    pub s9: u64,
    pub s10: u64,
    pub s11: u64,
    pub t3: u64,
    pub t4: u64,
    pub t5: u64,
    pub t6: u64,
    pub pc: u64,
}

/// An exclusive range of capability pointers.
pub struct CaptrRange<C> {
    /// The low end of the range.
    pub lo: Captr,
    /// The high end of the range, exclusive.
    pub hi: Captr,
    pub phantom: core::marker::PhantomData<C>,
}

impl<C: Capability> CaptrRange<C> {
    /// Create a new `CaptrRange` from its bounding [`Captr`]s, without checking
    /// if the capabilities are of the valid type.
    pub fn new(lo: Captr, hi: Captr) -> (r: Self)
        ensures
            r.lo == lo,
            r.hi == hi,
    {
        CaptrRange { lo, hi, phantom: core::marker::PhantomData }
    }

    /// Get the low end of the `CaptrRange`.
    pub fn lo(self) -> (r: C)
        ensures
            r.captr() == self.lo@,
    {
        C::from_captr(self.lo)
    }

    /// Get the high end of the `CaptrRange`. Note that this is exclusive and
    /// is thus not a valid instance of `C`.
    pub fn hi(self) -> (r: Captr)
        ensures
            r == self.hi,
    {
        self.hi
    }

    /// How many capability pointers are in the range: its high end is not.
    pub fn count(&self) -> (r: u64)
        requires
            self.lo@ <= self.hi@,
        ensures
            r == self.hi@ - self.lo@,
    {
        self.hi.into_raw() - self.lo.into_raw()
    }
}

/// Rights for capabilities.
#[derive(Copy, Clone, Debug, PartialEq, Eq, Hash, Structural)]
pub struct CapRights {
    pub bits: u64,
}

proof fn lemma_rights_bits(bits: u64, other: u64)
    by (bit_vector)
    ensures
        bits & 7 == bits % 8,
        bits & 1 == bits % 2,
        bits & 1 == 1 <==> bits % 2 == 1,
        bits & 2 == 2 <==> (bits / 2) % 2 == 1,
        bits & 4 == 4 <==> (bits / 4) % 2 == 1,
        bits < 8 ==> bits & other < 8,
{
}

impl CapRights {
    /// A page can be mapped readable.
    pub const READ: u64 = 1;

    /// A page can be mapped writable.
    pub const WRITE: u64 = 2;

    /// A page can be mapped executable.
    pub const EXECUTE: u64 = 4;

    /// Only the bits that are rights are set.
    pub open spec fn wf(self) -> bool {
        self.bits < 8
    }

    /// All rights.
    pub fn all() -> (r: Self)
        ensures
            r.bits == 7,
    {
        CapRights { bits: 7 }
    }

    /// No rights.
    pub fn empty() -> (r: Self)
        ensures
            r.bits == 0,
    {
        CapRights { bits: 0 }
    }

    /// The rights with the given bits; bits that are no rights are dropped.
    pub fn from_bits_truncate(bits: u64) -> (r: Self)
        ensures
            r.bits == bits % 8,
            r.wf(),
    {
        proof {
            lemma_rights_bits(bits, 0);
        }
        CapRights { bits: bits & 7 }
    }

    /// Whether all of the given bits are set.
    pub fn contains(self, bits: u64) -> (r: bool)
        ensures
            r == (self.bits & bits == bits),
    {
        self.bits & bits == bits
    }

    /// The rights that are both in these and in `other`.
    pub fn intersection(self, other: CapRights) -> (r: Self)
        ensures
            r.bits == self.bits & other.bits,
            self.wf() ==> r.wf(),
    {
        proof {
            lemma_rights_bits(self.bits, other.bits);
        }
        CapRights { bits: self.bits & other.bits }
    }

    /// The page table flags that these rights allow.
    pub open spec fn pgtbl_mask(self) -> u8 {
        ((if self.bits % 2 == 1 {
            2int
        } else {
            0
        }) + (if (self.bits / 2) % 2 == 1 {
            4int
        } else {
            0
        }) + (if (self.bits / 4) % 2 == 1 {
            8int
        } else {
            0
        })) as u8
    }

    /// Convert these rights into a mask of [`paging::PageTableFlags`].
    pub fn into_pgtbl_mask(self) -> (r: paging::PageTableFlags)
        ensures
            r.bits == self.pgtbl_mask(),
    {
        proof {
            lemma_rights_bits(self.bits, 0);
        }
        let mut bits: u8 = 0;
        if self.contains(Self::READ) {
            bits = bits + paging::PageTableFlags::READ;
        }
        if self.contains(Self::WRITE) {
            bits = bits + paging::PageTableFlags::WRITE;
        }
        if self.contains(Self::EXECUTE) {
            bits = bits + paging::PageTableFlags::EXECUTE;
        }
        paging::PageTableFlags { bits }
    }
}

impl Default for CapRights {
    /// All rights.
    fn default() -> (r: Self)
        ensures
            r.bits == 7,
    {
        CapRights::all()
    }
}

impl From<u64> for CapRights {
    fn from(x: u64) -> (r: Self) {
        CapRights::from_bits_truncate(x)
    }
}

impl vstd::std_specs::convert::FromSpecImpl<u64> for CapRights {
    open spec fn obeys_from_spec() -> bool {
        true
    }

    open spec fn from_spec(x: u64) -> Self {
        CapRights { bits: x % 8 }
    }
}

/// A [`Captr`] with additional information about its type, rights, and badge.
#[derive(Copy, Clone, Debug, PartialEq, Eq, Structural)]
pub struct AnnotatedCaptr {
    /// The inner `Captr`.
    pub cap: Captr,
    /// What type is this captr?
    pub ty: CapabilityType,
    /// What rights does this captr have?
    pub rights: CapRights,
    /// What is this captr's badge, if any?
    pub badge: Option<u64>,
}

impl Default for AnnotatedCaptr {
    fn default() -> (r: Self)
        ensures
            r.cap@ == 0,
            r.ty == CapabilityType::Unknown,
            r.rights.bits == 0,
            r.badge is None,
    {
        AnnotatedCaptr {
            cap: Captr::null(),
            ty: CapabilityType::Unknown,
            rights: CapRights::empty(),
            badge: None,
        }
    }
}

/// A header for an IPC message. Consists of a 9-bit length (1 to 512) and an
/// arbitrary, user-defined 55-bit private value.
///
/// Note that message lengths are in units of words, not bytes.
#[derive(Copy, Clone, Debug, PartialEq, Eq, Structural)]
pub struct MessageHeader(pub u64);

proof fn lemma_header_bits(raw: u64, x: u64)
    by (bit_vector)
    ensures
        raw & 0x1FF == raw % 512,
        (raw & !0x1FFu64) >> 9 == raw / 512,
        (raw & !0x1FFu64) | (x & 0x1FF) == raw - raw % 512 + x % 512,
        (raw & !(!0x1FFu64)) | ((x << 9) & !0x1FFu64) == raw % 512 + (x % 0x80_0000_0000_0000)
            * 512,
{
}

impl MessageHeader {
    /// The header as a number.
    pub open spec fn view(&self) -> u64 {
        self.0
    }

    /// Create a new, empty `MessageHeader` with a minimum length.
    pub fn new() -> (r: Self)
        ensures
            r@ == 0,
    {
        MessageHeader(0)
    }

    /// Convert a `MessageHeader` from its raw `u64` representation.
    pub fn from_raw(raw: u64) -> (r: Self)
        ensures
            r@ == raw,
    {
        MessageHeader(raw)
    }

    /// Get the length of this `MessageHeader`. Note that this is in units of
    /// words, not bytes.
    pub fn length(self) -> (r: u64)
        ensures
            r == self@ % 512 + 1,
    {
        proof {
            lemma_header_bits(self.0, 0);
        }
        (self.0 & 0x1FF) + 1
    }

    /// Get the private value of this `MessageHeader`.
    pub fn private(self) -> (r: u64)
        ensures
            r == self@ / 512,
    {
        proof {
            lemma_header_bits(self.0, 0);
        }
        (self.0 & !0x1FFu64) >> 9
    }

    /// Set the length of the provided `MessageHeader`, and return the new
    /// header.
    ///
    /// Note that the length is in units of words, not bytes.
    pub fn with_length(self, length: u64) -> (r: Self)
        ensures
            r@ == self@ - self@ % 512 + if length == 0 {
                0
            } else {
                (length - 1) % 512
            },
    {
        let field: u64 = length.saturating_sub(1);
        proof {
            lemma_header_bits(self.0, field);
        }
        MessageHeader((self.0 & !0x1FFu64) | (field & 0x1FF))
    }

    /// Set the private value of the provided `MessageHeader`, and return the
    /// new header.
    pub fn with_private(self, private: u64) -> (r: Self)
        ensures
            r@ == self@ % 512 + (private % 0x80_0000_0000_0000) * 512,
    {
        proof {
            lemma_header_bits(self.0, private);
        }
        MessageHeader((self.0 & !(!0x1FFu64)) | ((private << 9) & !0x1FFu64))
    }

    /// Convert a `MessageHeader` into its raw `u64` representation.
    pub fn into_raw(self) -> (r: u64)
        ensures
            r == self@,
    {
        self.0
    }
}

impl From<u64> for MessageHeader {
    fn from(value: u64) -> (r: Self)
        ensures
            r@ == value,
    {
        MessageHeader::from_raw(value)
    }
}

impl vstd::std_specs::convert::FromSpecImpl<u64> for MessageHeader {
    open spec fn obeys_from_spec() -> bool {
        false
    }

    open spec fn from_spec(value: u64) -> Self {
        arbitrary()
    }
}

impl From<MessageHeader> for u64 {
    fn from(value: MessageHeader) -> (r: u64) {
        value.into_raw()
    }
}

impl vstd::std_specs::convert::FromSpecImpl<MessageHeader> for u64 {
    open spec fn obeys_from_spec() -> bool {
        true
    }

    open spec fn from_spec(value: MessageHeader) -> u64 {
        value@
    }
}

/// The length that a header is given is the length that it has, and leaves the
/// private value alone; lengths from 1 to 512 can be given.
pub proof fn law_header_length(raw: u64, length: int)
    requires
        1 <= length <= 512,
    ensures
        (raw - raw % 512 + (length - 1) % 512) % 512 + 1 == length,
        (raw - raw % 512 + (length - 1) % 512) / 512 == raw as int / 512,
{
}

/// The private value that a header is given is the one that it has, and leaves
/// the length alone; values of up to 55 bits can be given.
pub proof fn law_header_private(raw: u64, private: int)
    requires
        0 <= private < 0x80_0000_0000_0000,
    ensures
        (raw % 512 + (private % 0x80_0000_0000_0000) * 512) / 512 == private,
        (raw % 512 + (private % 0x80_0000_0000_0000) * 512) % 512 == raw as int % 512,
{
}

/// The types of capabilities are counted from 3 on, in this order; an empty slot is 0, and
/// what is not known is 32. Every other number is not known.
pub proof fn law_types_in_order(i: int, value: u8)
    requires
        0 <= i < 8,
    ensures
        ({
            let types = seq![
                CapabilityType::PgTbl,
                CapabilityType::Page,
                CapabilityType::Thread,
                CapabilityType::Notification,
                CapabilityType::InterruptPool,
                CapabilityType::InterruptHandler,
                CapabilityType::Endpoint,
                CapabilityType::Job,
            ];
            &&& types[i].number() == i + 3
            &&& 3 <= value < 11 ==> CapabilityType::of_number(value) == types[value - 3]
        }),
        CapabilityType::Empty.number() == 0,
        CapabilityType::Unknown.number() == 32,
        CapabilityType::of_number(value) is Empty <==> value == 0,
        CapabilityType::of_number(value) is Unknown <==> value == 1 || value == 2 || value > 10,
{
}

/// Errors are counted from 1 on, in this order; none is 0. Every other number is an error
/// that is not known.
pub proof fn law_errors_in_order(i: int, value: u64)
    requires
        0 <= i < 6,
    ensures
        ({
            let errors = seq![
                CapError::NotPresent,
                CapError::InvalidType,
                CapError::NotEnoughResources,
                CapError::InvalidSize,
                CapError::InvalidOperation,
                CapError::RevokeFirst,
            ];
            &&& errors[i].number() == i + 1
            &&& 1 <= value < 7 ==> CapError::of_number(value) == errors[value - 1]
        }),
        CapError::NoError.number() == 0,
        CapError::of_number(value) is NoError <==> value == 0,
        CapError::of_number(value) is UnknownError <==> value > 6,
{
}

/// A right to a page is the right to that access: reading, writing, executing, in the order
/// of the bits of the rights and, from the second bit on, of the mapping.
pub proof fn law_rights_are_accesses(rights: CapRights)
    requires
        rights.wf(),
    ensures
        rights.pgtbl_mask() == 2 * rights.bits,
{
}

/// A header has the length and the private bits that it was given last, whichever was given
/// first; a new one is that of a message of one word.
pub proof fn law_headers_keep_what_they_are_given(
    h: MessageHeader,
    length: u64,
    private: u64,
    long: MessageHeader,
    both: MessageHeader,
    l: u64,
    p: u64,
)
    requires
        1 <= length <= 512,
        private < 0x80_0000_0000_0000,
        call_ensures(MessageHeader::length, (both,), l),
        call_ensures(MessageHeader::private, (both,), p),
    ensures
        call_ensures(MessageHeader::with_length, (h, length), long) && call_ensures(
            MessageHeader::with_private,
            (long, private),
            both,
        ) ==> l == length && p == private,
        call_ensures(MessageHeader::with_private, (h, private), long) && call_ensures(
            MessageHeader::with_length,
            (long, length),
            both,
        ) ==> l == length && p == private,
        call_ensures(MessageHeader::new, (), both) ==> l == 1 && p == 0,
{
}

/// Captrs are counted from one on: moving one there and back gives it again, and the null
/// captr stays what it is.
pub proof fn law_captrs_move(c: Captr, by: u64, there: Captr, back: Captr)
    requires
        by <= i64::MAX,
        call_ensures(Captr::add, (c, by), there),
        call_ensures(Captr::offset, (there, (-(by as int)) as i64), back),
    ensures
        c@ == 0 ==> there@ == 0 && back@ == 0,
        c@ != 0 && c@ + by <= u64::MAX ==> there@ == c@ + by && back@ == c@,
{
}

/// Rights in common are those that both have.
pub proof fn law_common_rights(a: CapRights, b: CapRights, r: CapRights, bit: u64)
    requires
        call_ensures(CapRights::intersection, (a, b), r),
        bit < 64,
    ensures
        r.bits & (1u64 << bit) != 0 <==> a.bits & (1u64 << bit) != 0 && b.bits & (1u64 << bit) != 0,
{
    let (x, y) = (a.bits, b.bits);
    assert((x & y) & (1u64 << bit) != 0 <==> x & (1u64 << bit) != 0 && y & (1u64 << bit) != 0)
        by (bit_vector);
}

} // verus!
