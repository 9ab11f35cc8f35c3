//! Low-level memory allocators: a single-buffer bump arena with bulk reset, and
//! the decision logic of a native-heap allocator that sits on the platform's
//! allocation primitives.
//!
//! The library works on addresses and lengths as plain integers. Whoever owns
//! the memory turns a [`Region`] into a pointer.

pub mod arena_allocator;
pub mod c_allocator;
pub mod layout;

pub use arena_allocator::{ArenaAllocator, ArenaState, Request};
pub use c_allocator::{allocate_memory, AlignedRequest, CAllocator, RawCAllocator, Relocation, Reply};
pub use layout::{AllocError, Region};
