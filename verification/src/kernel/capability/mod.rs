//! Capabilities: the objects of the kernel, and the slots that refer to them.
//!
//! Threads, notifications, endpoints and the like are kept in tables of the
//! kernel, and are referred to by their numbers there.

use vstd::prelude::*;

use std::collections::BTreeMap;

use crate::capability::{
    AnyCap, CapRights, CapabilityType, Empty as EmptyCap, Endpoint as EndpointCap,
    InterruptHandler as InterruptHandlerCap, InterruptPool as InterruptPoolCap, Job as JobCap,
    Notification as NotificationCap, Thread as ThreadCap,
};
use crate::capability::paging::{
    DynLevel, Page as PageCap, PageTable as PageTableCap,
};
use crate::kernel::paging::SharedPageTable;
use thread::Thread;

pub mod captbl;
pub mod derivation;
pub mod slotref;
pub mod thread;
pub mod untyped;
pub mod wait_queue;

verus! {

/// What a slot refers to.
#[derive(Copy, Clone, Debug)]
pub enum CapabilityKind {
    Empty,
    PgTbl(SharedPageTable),
    Page(Page),
    Thread(usize),
    Notification(usize),
    InterruptPool(usize),
    InterruptHandler(usize),
    Endpoint(usize),
    Job(usize),
}

impl CapabilityKind {
    /// The type of the capability.
    pub open spec fn ty(self) -> CapabilityType {
        match self {
            CapabilityKind::Empty => CapabilityType::Empty,
            CapabilityKind::PgTbl(_) => CapabilityType::PgTbl,
            CapabilityKind::Page(_) => CapabilityType::Page,
            CapabilityKind::Thread(_) => CapabilityType::Thread,
            CapabilityKind::Notification(_) => CapabilityType::Notification,
            CapabilityKind::InterruptPool(_) => CapabilityType::InterruptPool,
            CapabilityKind::InterruptHandler(_) => CapabilityType::InterruptHandler,
            CapabilityKind::Endpoint(_) => CapabilityType::Endpoint,
            CapabilityKind::Job(_) => CapabilityType::Job,
        }
    }

    /// The type of the capability.
    pub fn cap_type(&self) -> (r: CapabilityType)
        ensures
            r == self.ty(),
    {
        match self {
            CapabilityKind::Empty => CapabilityType::Empty,
            CapabilityKind::PgTbl(_) => CapabilityType::PgTbl,
            CapabilityKind::Page(_) => CapabilityType::Page,
            CapabilityKind::Thread(_) => CapabilityType::Thread,
            CapabilityKind::Notification(_) => CapabilityType::Notification,
            CapabilityKind::InterruptPool(_) => CapabilityType::InterruptPool,
            CapabilityKind::InterruptHandler(_) => CapabilityType::InterruptHandler,
            CapabilityKind::Endpoint(_) => CapabilityType::Endpoint,
            CapabilityKind::Job(_) => CapabilityType::Job,
        }
    }

    /// The page table, if it is one.
    pub fn pgtbl(&self) -> (r: Option<SharedPageTable>)
        ensures
            r == match *self {
                CapabilityKind::PgTbl(x) => Some(x),
                _ => None::<SharedPageTable>,
            },
    {
        match self {
            CapabilityKind::PgTbl(x) => Some(*x),
            _ => None,
        }
    }

    /// The page, if it is one.
    pub fn page(&self) -> (r: Option<Page>)
        ensures
            r == match *self {
                CapabilityKind::Page(x) => Some(x),
                _ => None::<Page>,
            },
    {
        match self {
            CapabilityKind::Page(x) => Some(*x),
            _ => None,
        }
    }

    /// The thread, if it is one.
    pub fn thread(&self) -> (r: Option<usize>)
        ensures
            r == match *self {
                CapabilityKind::Thread(x) => Some(x),
                _ => None::<usize>,
            },
    {
        match self {
            CapabilityKind::Thread(x) => Some(*x),
            _ => None,
        }
    }

    /// The notification, if it is one.
    pub fn notification(&self) -> (r: Option<usize>)
        ensures
            r == match *self {
                CapabilityKind::Notification(x) => Some(x),
                _ => None::<usize>,
            },
    {
        match self {
            CapabilityKind::Notification(x) => Some(*x),
            _ => None,
        }
    }

    /// The pool, if it is one.
    pub fn intr_pool(&self) -> (r: Option<usize>)
        ensures
            r == match *self {
                CapabilityKind::InterruptPool(x) => Some(x),
                _ => None::<usize>,
            },
    {
        match self {
            CapabilityKind::InterruptPool(x) => Some(*x),
            _ => None,
        }
    }

    /// The handler, if it is one.
    pub fn intr_handler(&self) -> (r: Option<usize>)
        ensures
            r == match *self {
                CapabilityKind::InterruptHandler(x) => Some(x),
                _ => None::<usize>,
            },
    {
        match self {
            CapabilityKind::InterruptHandler(x) => Some(*x),
            _ => None,
        }
    }

    /// The endpoint, if it is one.
    pub fn endpoint(&self) -> (r: Option<usize>)
        ensures
            r == match *self {
                CapabilityKind::Endpoint(x) => Some(x),
                _ => None::<usize>,
            },
    {
        match self {
            CapabilityKind::Endpoint(x) => Some(*x),
            _ => None,
        }
    }

    /// The job, if it is one.
    pub fn job(&self) -> (r: Option<usize>)
        ensures
            r == match *self {
                CapabilityKind::Job(x) => Some(x),
                _ => None::<usize>,
            },
    {
        match self {
            CapabilityKind::Job(x) => Some(*x),
            _ => None,
        }
    }

    /// The page, to be changed, if it is one.
    pub fn page_mut(&mut self) -> (r: Option<&mut Page>)
        ensures
            r is Some <==> *old(self) is Page,
            r matches Some(page) ==> *old(self) == CapabilityKind::Page(*page) && *final(self)
                == CapabilityKind::Page(*final(page)),
            r is None ==> *final(self) == *old(self),
    {
        match self {
            CapabilityKind::Page(page) => Some(page),
            _ => None,
        }
    }

    /// Whether two slots refer to the same object, where the objects can be
    /// told apart; elsewhere, whether they refer to objects of the same type.
    pub open spec fn same(self, other: CapabilityKind) -> bool {
        match (self, other) {
            (CapabilityKind::PgTbl(l), CapabilityKind::PgTbl(r)) => l == r,
            (CapabilityKind::Page(l), CapabilityKind::Page(r)) => l == r,
            (CapabilityKind::Thread(l), CapabilityKind::Thread(r)) => l == r,
            (CapabilityKind::Notification(l), CapabilityKind::Notification(r)) => l == r,
            _ => self.ty() == other.ty(),
        }
    }
}

impl Default for CapabilityKind {
    fn default() -> (r: Self)
        ensures
            r == CapabilityKind::Empty,
    {
        CapabilityKind::Empty
    }
}

impl PartialEq for CapabilityKind {
    fn eq(&self, other: &Self) -> (r: bool) {
        match (self, other) {
            (CapabilityKind::PgTbl(l), CapabilityKind::PgTbl(r)) => *l == *r,
            (CapabilityKind::Page(l), CapabilityKind::Page(r)) => *l == *r,
            (CapabilityKind::Thread(l), CapabilityKind::Thread(r)) => *l == *r,
            (CapabilityKind::Notification(l), CapabilityKind::Notification(r)) => *l == *r,
            _ => self.cap_type() == other.cap_type(),
        }
    }
}

impl vstd::std_specs::cmp::PartialEqSpecImpl for CapabilityKind {
    open spec fn obeys_eq_spec() -> bool {
        true
    }

    open spec fn eq_spec(&self, other: &Self) -> bool {
        self.same(*other)
    }
}

impl Eq for CapabilityKind {

}

/// What a slot of a capability table holds.
#[derive(Copy, Clone, Debug, PartialEq, Eq)]
pub struct CapabilitySlotInner {
    pub cap: CapabilityKind,
    /// What marks this capability among others to the same object; never
    /// `Some(0)`.
    pub badge: Option<u64>,
    pub rights: CapRights,
}

impl CapabilitySlotInner {
    /// A slot that refers to an object, without a badge and with all rights.
    pub open spec fn holding(cap: CapabilityKind) -> CapabilitySlotInner {
        CapabilitySlotInner { cap, badge: None, rights: CapRights { bits: 7 } }
    }
}

impl Default for CapabilitySlotInner {
    /// An empty slot.
    fn default() -> (r: Self)
        ensures
            r == CapabilitySlotInner::holding(CapabilityKind::Empty),
    {
        CapabilitySlotInner { cap: CapabilityKind::Empty, badge: None, rights: CapRights::all() }
    }
}

/// A badge, of which 0 means none.
pub open spec fn badge_of(bits: u64) -> Option<u64> {
    if bits == 0 {
        None
    } else {
        Some(bits)
    }
}

/// A badge, of which 0 means none.
pub fn make_badge(bits: u64) -> (r: Option<u64>)
    ensures
        r == badge_of(bits),
{
    if bits == 0 {
        None
    } else {
        Some(bits)
    }
}

/// The number of a badge, 0 for none.
pub fn badge_number(badge: Option<u64>) -> (r: u64)
    ensures
        r == crate::capability::badge_bits(badge),
{
    match badge {
        Some(bits) => bits,
        None => 0,
    }
}

/// Types that slots of capability tables can be looked up as.
pub trait Capability: crate::capability::Capability {
    /// Whether a slot that holds a capability of type `cap_type` is of this
    /// type.
    spec fn accepts(cap_type: CapabilityType) -> bool;

    /// Whether a slot that holds a capability of type `cap_type` is of this
    /// type.
    fn is_valid_type(cap_type: CapabilityType) -> (r: bool)
        ensures
            r == Self::accepts(cap_type),
    ;
}

impl Capability for EmptyCap {
    open spec fn accepts(cap_type: CapabilityType) -> bool {
        cap_type == CapabilityType::Empty
    }

    fn is_valid_type(cap_type: CapabilityType) -> (r: bool) {
        cap_type == CapabilityType::Empty
    }
}

impl Capability for PageTableCap {
    open spec fn accepts(cap_type: CapabilityType) -> bool {
        cap_type == CapabilityType::PgTbl
    }

    fn is_valid_type(cap_type: CapabilityType) -> (r: bool) {
        cap_type == CapabilityType::PgTbl
    }
}

impl Capability for PageCap<DynLevel> {
    open spec fn accepts(cap_type: CapabilityType) -> bool {
        cap_type == CapabilityType::Page
    }

    fn is_valid_type(cap_type: CapabilityType) -> (r: bool) {
        cap_type == CapabilityType::Page
    }
}

impl Capability for ThreadCap {
    open spec fn accepts(cap_type: CapabilityType) -> bool {
        cap_type == CapabilityType::Thread
    }

    fn is_valid_type(cap_type: CapabilityType) -> (r: bool) {
        cap_type == CapabilityType::Thread
    }
}

impl Capability for NotificationCap {
    open spec fn accepts(cap_type: CapabilityType) -> bool {
        cap_type == CapabilityType::Notification
    }

    fn is_valid_type(cap_type: CapabilityType) -> (r: bool) {
        cap_type == CapabilityType::Notification
    }
}

impl Capability for InterruptHandlerCap {
    open spec fn accepts(cap_type: CapabilityType) -> bool {
        cap_type == CapabilityType::InterruptHandler
    }

    fn is_valid_type(cap_type: CapabilityType) -> (r: bool) {
        cap_type == CapabilityType::InterruptHandler
    }
}

impl Capability for InterruptPoolCap {
    open spec fn accepts(cap_type: CapabilityType) -> bool {
        cap_type == CapabilityType::InterruptPool
    }

    fn is_valid_type(cap_type: CapabilityType) -> (r: bool) {
        cap_type == CapabilityType::InterruptPool
    }
}

impl Capability for EndpointCap {
    open spec fn accepts(cap_type: CapabilityType) -> bool {
        cap_type == CapabilityType::Endpoint
    }

    fn is_valid_type(cap_type: CapabilityType) -> (r: bool) {
        cap_type == CapabilityType::Endpoint
    }
}

impl Capability for JobCap {
    open spec fn accepts(cap_type: CapabilityType) -> bool {
        cap_type == CapabilityType::Job
    }

    fn is_valid_type(cap_type: CapabilityType) -> (r: bool) {
        cap_type == CapabilityType::Job
    }
}

impl Capability for AnyCap {
    open spec fn accepts(cap_type: CapabilityType) -> bool {
        true
    }

    fn is_valid_type(cap_type: CapabilityType) -> (r: bool) {
        true
    }
}

/// Values that a slot can be made to hold.
pub trait CapabilityValue: Sized {
    /// What a slot that holds the value refers to.
    spec fn kind(self) -> CapabilityKind;

    /// What a slot that holds the value refers to.
    fn into_kind(self) -> (r: CapabilityKind)
        ensures
            r == self.kind(),
    ;
}

/// The empty capability.
#[derive(Copy, Clone, Debug, PartialEq, Eq, Structural)]
pub struct Empty;

impl CapabilityValue for Empty {
    open spec fn kind(self) -> CapabilityKind {
        CapabilityKind::Empty
    }

    fn into_kind(self) -> (r: CapabilityKind) {
        CapabilityKind::Empty
    }
}

/// The number of a thread.
#[derive(Copy, Clone, Debug, PartialEq, Eq, Structural)]
pub struct ThreadRef(pub usize);

impl CapabilityValue for ThreadRef {
    open spec fn kind(self) -> CapabilityKind {
        CapabilityKind::Thread(self.0)
    }

    fn into_kind(self) -> (r: CapabilityKind) {
        CapabilityKind::Thread(self.0)
    }
}

/// The number of a notification.
#[derive(Copy, Clone, Debug, PartialEq, Eq, Structural)]
pub struct NotificationRef(pub usize);

impl CapabilityValue for NotificationRef {
    open spec fn kind(self) -> CapabilityKind {
        CapabilityKind::Notification(self.0)
    }

    fn into_kind(self) -> (r: CapabilityKind) {
        CapabilityKind::Notification(self.0)
    }
}

/// The number of a pool of interrupts.
#[derive(Copy, Clone, Debug, PartialEq, Eq, Structural)]
pub struct InterruptPoolRef(pub usize);

impl CapabilityValue for InterruptPoolRef {
    open spec fn kind(self) -> CapabilityKind {
        CapabilityKind::InterruptPool(self.0)
    }

    fn into_kind(self) -> (r: CapabilityKind) {
        CapabilityKind::InterruptPool(self.0)
    }
}

/// The number of a handler of an interrupt.
#[derive(Copy, Clone, Debug, PartialEq, Eq, Structural)]
pub struct InterruptHandlerRef(pub usize);

impl CapabilityValue for InterruptHandlerRef {
    open spec fn kind(self) -> CapabilityKind {
        CapabilityKind::InterruptHandler(self.0)
    }

    fn into_kind(self) -> (r: CapabilityKind) {
        CapabilityKind::InterruptHandler(self.0)
    }
}

/// The number of an endpoint.
#[derive(Copy, Clone, Debug, PartialEq, Eq, Structural)]
pub struct EndpointRef(pub usize);

impl CapabilityValue for EndpointRef {
    open spec fn kind(self) -> CapabilityKind {
        CapabilityKind::Endpoint(self.0)
    }

    fn into_kind(self) -> (r: CapabilityKind) {
        CapabilityKind::Endpoint(self.0)
    }
}

/// The number of a job.
#[derive(Copy, Clone, Debug, PartialEq, Eq, Structural)]
pub struct JobRef(pub usize);

impl CapabilityValue for JobRef {
    open spec fn kind(self) -> CapabilityKind {
        CapabilityKind::Job(self.0)
    }

    fn into_kind(self) -> (r: CapabilityKind) {
        CapabilityKind::Job(self.0)
    }
}

impl CapabilityValue for Page {
    open spec fn kind(self) -> CapabilityKind {
        CapabilityKind::Page(self)
    }

    fn into_kind(self) -> (r: CapabilityKind) {
        CapabilityKind::Page(self)
    }
}

impl CapabilityValue for SharedPageTable {
    open spec fn kind(self) -> CapabilityKind {
        CapabilityKind::PgTbl(self)
    }

    fn into_kind(self) -> (r: CapabilityKind) {
        CapabilityKind::PgTbl(self)
    }
}

/// A value of any type.
#[derive(Copy, Clone, Debug)]
pub enum AnyCapVal {
    Empty,
    PgTbl(SharedPageTable),
    Page(Page),
    Thread(usize),
    Notification(usize),
    InterruptPool(usize),
    InterruptHandler(usize),
    Endpoint(usize),
    Job(usize),
}

impl CapabilityValue for AnyCapVal {
    open spec fn kind(self) -> CapabilityKind {
        match self {
            AnyCapVal::Empty => CapabilityKind::Empty,
            AnyCapVal::PgTbl(x) => CapabilityKind::PgTbl(x),
            AnyCapVal::Page(x) => CapabilityKind::Page(x),
            AnyCapVal::Thread(x) => CapabilityKind::Thread(x),
            AnyCapVal::Notification(x) => CapabilityKind::Notification(x),
            AnyCapVal::InterruptPool(x) => CapabilityKind::InterruptPool(x),
            AnyCapVal::InterruptHandler(x) => CapabilityKind::InterruptHandler(x),
            AnyCapVal::Endpoint(x) => CapabilityKind::Endpoint(x),
            AnyCapVal::Job(x) => CapabilityKind::Job(x),
        }
    }

    fn into_kind(self) -> (r: CapabilityKind) {
        match self {
            AnyCapVal::Empty => CapabilityKind::Empty,
            AnyCapVal::PgTbl(x) => CapabilityKind::PgTbl(x),
            AnyCapVal::Page(x) => CapabilityKind::Page(x),
            AnyCapVal::Thread(x) => CapabilityKind::Thread(x),
            AnyCapVal::Notification(x) => CapabilityKind::Notification(x),
            AnyCapVal::InterruptPool(x) => CapabilityKind::InterruptPool(x),
            AnyCapVal::InterruptHandler(x) => CapabilityKind::InterruptHandler(x),
            AnyCapVal::Endpoint(x) => CapabilityKind::Endpoint(x),
            AnyCapVal::Job(x) => CapabilityKind::Job(x),
        }
    }
}

/// Slots whose value can be taken along.
pub trait CapToOwned {
    /// What the slot refers to.
    spec fn held(&self) -> CapabilityKind;

    /// The value that the slot holds.
    fn to_owned_cap(&self) -> (r: AnyCapVal)
        ensures
            r.kind() == self.held(),
    ;
}

/// The value that a slot holds.
pub fn owned(cap: CapabilityKind) -> (r: AnyCapVal)
    ensures
        r.kind() == cap,
{
    match cap {
        CapabilityKind::Empty => AnyCapVal::Empty,
        CapabilityKind::PgTbl(x) => AnyCapVal::PgTbl(x),
        CapabilityKind::Page(x) => AnyCapVal::Page(x),
        CapabilityKind::Thread(x) => AnyCapVal::Thread(x),
        CapabilityKind::Notification(x) => AnyCapVal::Notification(x),
        CapabilityKind::InterruptPool(x) => AnyCapVal::InterruptPool(x),
        CapabilityKind::InterruptHandler(x) => AnyCapVal::InterruptHandler(x),
        CapabilityKind::Endpoint(x) => AnyCapVal::Endpoint(x),
        CapabilityKind::Job(x) => AnyCapVal::Job(x),
    }
}

/// The threads after another slot has been made to refer to `cap`.
pub open spec fn counted(threads: Seq<Thread>, cap: CapabilityKind) -> Seq<Thread> {
    match cap {
        CapabilityKind::Thread(t) => threads.update(
            t as int,
            Thread { slot_refcount: (threads[t as int].slot_refcount + 1) as u64, ..threads[t as int] },
        ),
        _ => threads,
    }
}

/// Whether another slot can be made to refer to `cap`.
pub open spec fn countable(threads: Seq<Thread>, cap: CapabilityKind) -> bool {
    cap matches CapabilityKind::Thread(t) ==> t < threads.len() && threads[t as int].slot_refcount
        < u32::MAX
}

/// The threads after a slot no longer refers to `cap`.
pub open spec fn discounted(threads: Seq<Thread>, cap: CapabilityKind) -> Seq<Thread> {
    match cap {
        CapabilityKind::Thread(t) => threads.update(
            t as int,
            Thread {
                slot_refcount: crate::capability::wrapped(threads[t as int].slot_refcount - 1) as u64,
                ..threads[t as int]
            },
        ),
        _ => threads,
    }
}

/// Count a slot that has been made to refer to `cap`.
pub fn copy_hook(cap: CapabilityKind, threads: &mut Vec<Thread>)
    requires
        countable(old(threads)@, cap),
    ensures
        final(threads)@ == counted(old(threads)@, cap),
{
    match cap {
        CapabilityKind::Thread(t) => {
            let mut thread = threads[t];
            thread.slot_refcount = thread.slot_refcount + 1;
            threads.set(t, thread);
        },
        _ => {},
    }
}

/// Discount a slot that is about to stop referring to `cap`.
pub fn delete_hook(cap: CapabilityKind, threads: &mut Vec<Thread>)
    requires
        cap matches CapabilityKind::Thread(t) ==> t < old(threads)@.len(),
    ensures
        final(threads)@ == discounted(old(threads)@, cap),
{
    match cap {
        CapabilityKind::Thread(t) => {
            let mut thread = threads[t];
            thread.slot_refcount = thread.slot_refcount.wrapping_sub(1);
            threads.set(t, thread);
        },
        _ => {},
    }
}

/// To discount a slot undoes the counting of it.
pub proof fn law_discount_undoes_count(threads: Seq<Thread>, cap: CapabilityKind)
    requires
        countable(threads, cap),
    ensures
        discounted(counted(threads, cap), cap) == threads,
{
    assert(discounted(counted(threads, cap), cap) =~= threads);
}

/// Memory that can be mapped into page tables.
#[derive(Copy, Clone, Debug, PartialEq, Eq, Structural)]
pub struct Page {
    /// The physical address of the page.
    pub phys: u64,
    /// The base-2 logarithm of its size in bytes.
    pub size_log2: u8,
    /// Whether it is device memory.
    pub is_device: bool,
}

impl Page {
    /// A page of physical memory.
    pub fn new(phys: u64, size_log2: u8) -> (r: Self)
        ensures
            r == (Page { phys, size_log2, is_device: false }),
    {
        Page { phys, size_log2, is_device: false }
    }

    /// A page of device memory.
    pub fn new_device(phys: u64, size_log2: u8) -> (r: Self)
        ensures
            r == (Page { phys, size_log2, is_device: true }),
    {
        Page { phys, size_log2, is_device: true }
    }
}

/// A semaphore on which threads can wait.
#[derive(Copy, Clone, Debug, PartialEq, Eq, Structural)]
pub struct Notification {
    /// The signals that have not been read yet.
    pub word: u64,
    /// The queue of the threads that wait for signals.
    pub wait_queue: usize,
}

/// The handlers that have been made, by the numbers of their interrupts.
pub struct InterruptPool {
    pub map: BTreeMap<u16, usize>,
}

impl InterruptPool {
    /// The handler of an interrupt, if one has been made.
    pub fn find(&self, irq: u16) -> (r: Option<usize>)
        ensures
            r == if self.map@.dom().contains(irq) {
                Some(self.map@[irq])
            } else {
                None::<usize>
            },
    {
        broadcast use vstd::std_specs::btree::group_btree_axioms;
        broadcast use vstd::laws_cmp::group_laws_cmp;

        match self.map.get(&irq) {
            Some(handler) => Some(*handler),
            None => None,
        }
    }

    /// Enter the handler of an interrupt.
    pub fn enter(&mut self, irq: u16, handler: usize)
        ensures
            final(self).map@ == old(self).map@.insert(irq, handler),
    {
        broadcast use vstd::std_specs::btree::group_btree_axioms;
        broadcast use vstd::laws_cmp::group_laws_cmp;

        let _ = self.map.insert(irq, handler);
    }
}

/// A pool from which no handler has been made yet.
pub fn global_interrupt_pool() -> (r: InterruptPool)
    ensures
        r.map@ == Map::<u16, usize>::empty(),
{
    InterruptPool { map: BTreeMap::new() }
}

/// The handler of an interrupt.
#[derive(Copy, Clone, Debug)]
pub struct InterruptHandler {
    /// The notification to signal, and the bits to signal to it.
    pub notification: Option<(usize, u64)>,
    /// The number of the interrupt.
    pub irq: u16,
}

/// A rendezvous point at which threads exchange messages.
#[derive(Copy, Clone, Debug, PartialEq, Eq, Structural)]
pub struct Endpoint {
    /// The queue of the threads that wait for a message.
    pub recv_wait_queue: usize,
    /// The queue of the threads that wait for a receiver.
    pub send_wait_queue: usize,
    /// The endpoint at which a caller waits for the reply.
    pub reply_cap: Option<usize>,
}

} // verus!
