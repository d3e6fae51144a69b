//! Fixed memory-layout constants shared by the loader and the task manager.

use vstd::prelude::*;

verus! {

/// Size in bytes of each task's user-mode stack.
pub const USER_STACK_SIZE: usize = 4096 * 2;

/// Size in bytes of each task's supervisor-mode stack.
pub const KERNEL_STACK_SIZE: usize = 4096 * 2;

/// Address of the first task's memory region.
pub const APP_BASE_ADDRESS: usize = 0x4020_0000;

/// Size in bytes of every task's memory region; no image may be larger.
pub const APP_SIZE_LIMIT: usize = 0x20000;

} // verus!
