# river

River is a capability-based microkernel for RV64, and the library through which
its userspace talks to it. This crate is its logic, written in Rust and proved
with Verus: every function in `src/` carries a contract.

## Layout

- `src/addr`, `src/units.rs`: physical and virtual addresses and how they are
  mapped to each other.
- `src/capability`, `src/syscalls`, `src/init.rs`: capabilities, system calls and
  boot information as userspace sees them.
- `src/elf`, `src/io_traits.rs`: ELF files, and the streams they are read from.
- `src/kernel/physmem.rs`, `src/kernel/paging.rs`, `src/kernel/kalloc`: physical
  memory, Sv39 page tables and the heap.
- `src/kernel/capability`: what the kernel holds behind a capability, and the tree
  in which capabilities are derived.
- `src/kernel/state.rs`: the kernel as a whole, and its invariant. All operations
  are stated as functions from one `State` to the next.
- `src/kernel/sched.rs`, `dispatch.rs`, `inherit.rs`: run queues, the choice of
  threads and harts, and the inheritance of priorities.
- `src/kernel/ipc.rs`, `threads.rs`, `slots.rs`, `trap`: messages, threads, slots,
  and the handling of traps and system calls.
- `src/kernel/order.rs`, `src/kernel/trap/soundness.rs`: what every step of the
  kernel keeps. `State::ordered` says that all that is referred to exists and that
  the threads that wait and those that they wait for agree; `State::sound` adds that
  the page tables are trees. A kernel that has been brought up is sound.
- `src/kernel/boot`: from the bytes of the device tree to the first process:
  which trees can be read, what is read of them, paging, and the kernel's objects.
- `src/kernel/registers.rs`, `plic.rs`, `sync`, `hart_local.rs`, `syslog.rs`,
  `proc`: control registers, interrupts, locks, the log, processes.
- `app`: a driver around the library that reads files, prints, and hands the
  kernel what happens on a hart.
- `tests`: what the library does on given values.

Functions named `law_..` state what holds across functions.

## Trust

Eight functions are believed without proof. `decode_utf8` calls
`String::from_utf8`. The others, all in `src/kernel/boot/devicetree.rs`, call the
`fdt` crate: `fdt_total_size`, `memory_regions`, `cpus`, `stdout_address`,
`stdout_compatible`, `stdout_interrupt` and `compatible_address`. The first reads
the header of a tree, and its contract says what it returns. Of the others it is
only believed that they return, on a tree of which `tree_wf` holds, what depends on
nothing but the bytes of the tree; `check_tree` finds out whether `tree_wf` holds.
