//! A family of fixed-region allocators: bump, buddy and segregated free-list
//! policies over a caller-supplied contiguous byte region.
//!
//! The policy engines in this crate are pure bookkeeping over addresses: an
//! engine is handed the bounds of a region and hands out addresses from it.
//! The engines never touch the bytes themselves, so the same verified logic
//! serves a hosted test harness and a freestanding embedding alike; the
//! embedding supplies the storage and the exclusion discipline around each
//! engine.

pub mod buddy_alloc;
pub mod bump_alloc;
pub mod common;
pub mod const_bump_alloc;
pub mod linked_list_alloc;

pub use crate::common::{align_up, Alloc, AllocInit, AllocState, Allocator, AllocatorError, Layout};
pub use crate::buddy_alloc::locked::LockedBuddy;
pub use crate::buddy_alloc::{BuddyAlloc, FreeArea, FreeList};
pub use crate::bump_alloc::locked::LockedBump;
pub use crate::bump_alloc::lockless::LocklessBump;
pub use crate::bump_alloc::BumpAlloc;
pub use crate::const_bump_alloc::ConstBumpAlloc;
pub use crate::linked_list_alloc::locked::LockedLinkedList;
pub use crate::linked_list_alloc::{LinkedListAlloc, Node};
