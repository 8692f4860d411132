//! A verified bootstrap memory allocator for the boot window before a
//! kernel's full allocators are initialized, together with a small chained
//! hash map utility kept alongside it.

pub mod early;
pub mod fnv;
pub mod hashmap;

pub use early::AllocError;
pub use early::AllocResult;
pub use early::EarlyAllocator;
