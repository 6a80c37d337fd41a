//! Processes: what the kernel switches between, and their memory.

use vstd::prelude::*;

use self::context::Context;
use self::mman::UserMemoryManager;
use super::boot::runs;
use super::hart_local::HartCtx;
use super::paging;
use super::paging::{PageSize, PageTableFlags};
use super::physmem::{PhysicalMemory, DIRECT_MAPPED_PAGES};
use super::state::CodeAddresses;
use super::trampoline::TRAMPOLINE_PAGE;
use crate::addr::mappings;
use crate::addr::mappings::{AddressLayout, DirectMapped};
use crate::addr::{Identity, Physical, PhysicalConst, PhysicalMut, VirtualConst};

pub mod context;
pub mod mman;
pub mod sched;

verus! {

/// The size of a process's kernel stack: 4 MiB.
pub const KERNEL_STACK_SIZE: u64 = 0x40_0000;

/// Where the trapframe of a process is mapped: the third page from the end of
/// the address space.
pub const TRAPFRAME_PAGE: u64 = 0xFFFF_FFFF_FFFF_D000;

/// What a process is doing.
#[derive(Copy, Clone, Debug, PartialEq, Eq, Structural)]
pub enum ProcState {
    Uninit,
    Sleeping,
    Runnable,
    Running,
}

/// What any hart may ask of a process.
#[derive(Copy, Clone, Debug, PartialEq, Eq, Structural)]
pub struct ProcProtected {
    pub state: ProcState,
}

/// What only the hart that runs a process may use.
pub struct ProcPrivate {
    /// The address of the kernel stack.
    pub kernel_stack: u64,
    pub mem_size: u64,
    pub mman: UserMemoryManager,
    /// The page number of the trapframe.
    pub trapframe: u64,
    pub name: String,
}

/// A process.
pub struct Proc {
    pub pid: u64,
    pub protected: ProcProtected,
    pub private: ProcPrivate,
    pub context: Context,
}

impl Proc {
    /// Make a process. Its address space holds the trampoline and its trapframe,
    /// and it begins by leaving the kernel for userspace.
    pub fn new(
        mem: &mut PhysicalMemory,
        layout: &AddressLayout,
        code: &CodeAddresses,
        name: String,
        next_pid: &mut u64,
    ) -> (r: Proc)
        requires
            old(mem)@.wf(),
            old(mem)@.available() >= 1030,
            mappings::standard_layout(*layout),
            code.trampoline % 4096 == 0,
            code.trampoline < DIRECT_MAPPED_PAGES * 4096,
            *old(next_pid) < u64::MAX,
        ensures
            *final(next_pid) == *old(next_pid) + 1,
            r.pid == *old(next_pid),
            r.protected.state == ProcState::Uninit,
            r.private.kernel_stack == old(mem)@.next() * 4096 + layout.physical_offset,
            r.private.mem_size == 0,
            r.private.trapframe == old(mem)@.next() + 1024,
            r.private.name == name,
            r.private.mman.map@ == Map::<u64, mman::VmemRegion>::empty(),
            r.private.mman.table.root == old(mem)@.next() + 1025,
            r.context == (Context {
                ra: code.user_trap_ret,
                sp: (r.private.kernel_stack + KERNEL_STACK_SIZE) as u64,
                ..Context::zeroed()
            }),
            final(mem)@ == paging::mapped(
                paging::mapped(
                    old(mem)@.grow_by(1026),
                    r.private.mman.table.root as int,
                    TRAMPOLINE_PAGE,
                    paging::map_entry(code.trampoline, 203),
                    PageSize::Base,
                ),
                r.private.mman.table.root as int,
                TRAPFRAME_PAGE,
                paging::map_entry((r.private.trapframe * 4096) as u64, 199),
                PageSize::Base,
            ),
            final(mem)@.wf(),
    {
        let ghost m0 = mem@;
        let kernel_stack: u64 = mem.allocate_run(1024);
        assert(mem@.frames() == m0.frames() + 1024);
        let trapframe: u64 = mem.allocate();
        assert(mem@.frames() == m0.frames() + 1025);
        let mut mman = UserMemoryManager::new(mem);
        let ghost m1 = mem@;
        let ghost root = mman.table.root as int;
        assert(m1.frames() == m0.frames() + 1026);
        assert(m1 =~= m0.grow_by(1026));
        proof {
            lemma_first_maps(m1, root, code.trampoline, trapframe);
        }
        let trampoline: PhysicalConst<u8, Identity> = Physical::from_usize_unchecked(
            code.trampoline,
        );
        mman.map_direct(
            mem,
            trampoline,
            VirtualConst::from_usize_unchecked(TRAMPOLINE_PAGE),
            PageTableFlags { bits: 203 },
        );
        let frame: PhysicalConst<u8, Identity> = Physical::from_usize_unchecked(trapframe * 4096);
        mman.map_direct(
            mem,
            frame,
            VirtualConst::from_usize_unchecked(TRAPFRAME_PAGE),
            PageTableFlags { bits: 199 },
        );
        proof {
            mappings::law_direct_map_inverts(*layout, (kernel_stack * 4096) as u64);
        }
        let stack: PhysicalMut<u8, DirectMapped> = Physical::from_usize_unchecked(
            kernel_stack * 4096,
        );
        let kernel_stack: u64 = stack.into_virt(layout).into_usize();
        let context = Context::starting_at(code.user_trap_ret, kernel_stack + KERNEL_STACK_SIZE);
        let pid: u64 = *next_pid;
        *next_pid = pid + 1;
        Proc {
            pid,
            protected: ProcProtected { state: ProcState::Uninit },
            private: ProcPrivate { kernel_stack, mem_size: 0, mman, trapframe, name },
            context,
        }
    }

    /// Get the private data of a process, given the token of the hart that runs
    /// it.
    pub fn private(&self, token: &ProcToken) -> (r: &ProcPrivate)
        requires
            token.proc.pid == self.pid,
        ensures
            *r == self.private,
    {
        &self.private
    }

    /// Get a mutable reference to the private data of a mutably borrowed Proc
    /// (i.e., one that is still in the initialization phase).
    pub fn private_mut(&mut self) -> (r: &mut ProcPrivate)
        ensures
            *r == old(self).private,
            *final(self) == (Proc { private: *final(r), ..*old(self) }),
    {
        &mut self.private
    }

    /// What the process is doing.
    pub fn state(&self) -> (r: ProcState)
        ensures
            r == self.protected.state,
    {
        self.protected.state
    }

    /// Set what the process is doing. Returns what it was doing.
    pub fn set_state(&mut self, state: ProcState) -> (r: ProcState)
        ensures
            r == old(self).protected.state,
            *final(self) == (Proc { protected: ProcProtected { state }, ..*old(self) }),
    {
        let before = self.protected.state;
        self.protected.state = state;
        before
    }
}

/// The trampoline and the trapframe can be mapped into a table that maps nothing
/// yet.
proof fn lemma_first_maps(m: super::physmem::Mem, root: int, trampoline: u64, trapframe: u64)
    requires
        m.wf(),
        paging::tree_wf(m, root),
        paging::unshared(m, root),
        forall|va: u64| #[trigger] paging::translate(m, root, va) is None,
        m.available() >= 4,
        trampoline % 4096 == 0,
        trampoline < DIRECT_MAPPED_PAGES * 4096,
        trapframe < DIRECT_MAPPED_PAGES,
    ensures
        paging::has_room(m, root, TRAMPOLINE_PAGE, PageSize::Base),
        ({
            let n = paging::mapped(
                m,
                root,
                TRAMPOLINE_PAGE,
                paging::map_entry(trampoline, 203),
                PageSize::Base,
            );
            &&& paging::tree_wf(n, root)
            &&& paging::unshared(n, root)
            &&& paging::has_room(n, root, TRAPFRAME_PAGE, PageSize::Base)
            &&& paging::translate(n, root, TRAPFRAME_PAGE) is None
        }),
        crate::addr::virt::canonical(TRAMPOLINE_PAGE) == TRAMPOLINE_PAGE,
        crate::addr::virt::canonical(TRAPFRAME_PAGE) == TRAPFRAME_PAGE,
{
    reveal(paging::flags_valid);
    reveal(paging::flags_access);
    assert(paging::translate(m, root, TRAMPOLINE_PAGE) is None);
    assert(paging::translate(m, root, TRAPFRAME_PAGE) is None);
    runs::lemma_unmapped_has_room(m, root, TRAMPOLINE_PAGE);
    runs::lemma_one_more(m, root, trampoline, TRAMPOLINE_PAGE, 203, TRAPFRAME_PAGE);
    let n = paging::mapped(
        m,
        root,
        TRAMPOLINE_PAGE,
        paging::map_entry(trampoline, 203),
        PageSize::Base,
    );
    assert(runs::page(TRAPFRAME_PAGE) != runs::page(TRAMPOLINE_PAGE)) by {
        reveal(runs::page);
    }
    runs::lemma_unmapped_has_room(n, root, TRAPFRAME_PAGE);
}

/// An opaque token representing the process running on the current hart.
pub struct ProcToken<'h> {
    pub proc: &'h Proc,
    pub hart: &'h HartCtx,
}

impl<'h> ProcToken<'h> {
    /// The process.
    pub fn proc(&self) -> (r: &'h Proc)
        ensures
            *r == *self.proc,
    {
        self.proc
    }

    /// The hart.
    pub fn hart(&self) -> (r: &'h HartCtx)
        ensures
            *r == *self.hart,
    {
        self.hart
    }
}

} // verus!
