//! Memory-virtualisation and boot-handoff core of a two-stage operating
//! system: a loader that runs under the firmware's boot services, and a
//! kernel that runs after it with nothing below.
//!
//! - [`memory_layout`]: the plan of the kernel's address space, shared by
//!   loader and kernel.
//! - [`boot_info`]: the structure that the loader hands to the kernel.
//! - [`paging`]: frames, pages and mapping requests.
//! - [`bootloader`]: the loader's allocators, the loading of the kernel
//!   image, and the rest of the kernel's address space.
//! - [`kernel`]: the kernel's frame allocator, its first heap and its
//!   console.
//! - [`psf`]: the console's bitmap fonts.
//!
//! The library decides and computes; it never touches the firmware, the
//! page tables or the processor. Memory that it reads and writes, such as
//! physical memory or the pixels of the screen, is handed in as a slice.

pub mod boot_info;
pub mod bootloader;
pub mod kernel;
pub mod memory_layout;
pub mod paging;
pub mod psf;
