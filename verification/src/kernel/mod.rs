//! What the kernel decides while it takes over memory from the loader.

pub mod bump;
pub mod console;
pub mod heap;
pub mod memory;
pub mod phys;
