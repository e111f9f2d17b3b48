//! A minimal bare-metal runtime core for single-core, interrupt-driven
//! targets: raw memory-region descriptors, byte-region primitives, a
//! bitmap-backed block allocator, a circular buffer, and a spin lock.
//!
//! None of the data structures here performs internal locking. On a target
//! where interrupt handlers may preempt the main context, every mutating call
//! into a shared [`bitmap::Bitmap`], [`slab::SlabAllocator`] or
//! [`ring_buffer::RingBuffer`] must be bracketed by a
//! [`locks::SpinLock`] acquire/release pair by the caller. That discipline is
//! part of the design contract, not an implementation detail.

pub mod bitmap;
pub mod errors;
pub mod locks;
pub mod math;
pub mod memory;
pub mod ring_buffer;
pub mod slab;
pub mod traits;
