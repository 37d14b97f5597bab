//! Build-time limits of the runtime.
use vstd::prelude::*;

verus! {

/// Number of task slots in a runtime's table.
pub const MAX_TASK_SLOTS: usize = 1024;

/// Cap on spare run-queue nodes kept for reuse.
pub const FREELIST_MAX: usize = 256;

/// Size of the region that backs the bump allocator (16 MiB).
pub const HEAP_SIZE: usize = 16777216;

/// Stack size of each worker thread (64 KiB).
pub const WORKER_STACK_SIZE: usize = 65536;

/// Listen backlog of the server socket.
pub const LISTEN_BACKLOG: i32 = 128;

} // verus!
