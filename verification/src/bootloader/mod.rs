//! What the loader decides while it builds the kernel's address space.

pub mod address_space;
pub mod load_kernel;
pub mod memory;
