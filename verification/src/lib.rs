use vstd::prelude::*;

pub mod async_mutex;
pub mod block_cache;
pub mod hart;
pub mod kernel_syscall;
pub mod lfu_cache;
pub mod fib;
pub mod fs_node;
pub mod memory;
pub mod mod_mgmt;
pub mod net;
pub mod safe_cell;
pub mod syscall;

verus! {
} // verus!
