//! How the kernel comes up: its own memory and page table, and the first
//! process.

pub mod runs;
pub mod table;
pub mod early;
pub mod window;
pub mod process;
pub mod harts;
pub mod heap;
pub mod tree;
pub mod devicetree;
pub mod idle;
pub mod kmain;
