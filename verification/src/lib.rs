//! Composable building blocks for custom memory allocators.
//!
//! The crate models memory with plain values: an address is a `usize`, a
//! block's bytes are a `Seq<u8>` held by the allocator that backs it.  On
//! top of that model it defines the allocator capability contracts
//! ([`AllocRef`](alloc_ref::AllocRef), [`Owns`](alloc_ref::Owns),
//! [`AllocAll`](alloc_ref::AllocAll),
//! [`CallbackRef`](callback_ref::CallbackRef)), a fixed-region leaf
//! allocator ([`Region`](region::Region)), and the two combinators that
//! compose them: [`FallbackAlloc`](fallback_alloc::FallbackAlloc), which
//! chains a primary and a fallback allocator, and
//! [`Proxy`](proxy::Proxy), which observes every operation through a pair
//! of hooks.

pub mod block;
pub mod alloc_ref;
pub mod callback_ref;
pub mod fallback_alloc;
pub mod proxy;
pub mod recorder;
pub mod region;

pub use block::{AllocErr, AllocInit, Layout, MemoryBlock, ReallocPlacement};
pub use alloc_ref::{AllocAll, AllocRef, Owns};
pub use callback_ref::{AllocEvent, CallbackRef};
pub use fallback_alloc::{grow, FallbackAlloc};
pub use proxy::Proxy;
pub use recorder::Recorder;
pub use region::Region;
