//! A cooperative task runtime core: generation-tagged task handles, a task
//! table, a LIFO run queue, a file-descriptor readiness registry and the
//! wake-signal bookkeeping that ties them together, with the bump allocator's
//! allocation rule. Everything here is plain state with verified transitions;
//! the threads, system calls and futures that drive it live outside the
//! library. Alongside sit the byte formats of the HTTP and WebSocket front end
//! (decimal rendering, header lookup, frames, SHA-1, base64) and argument
//! parsing.

pub mod config;
pub mod handle;
pub mod task_table;
pub mod run_queue;
pub mod reactor;
pub mod executor;
pub mod bump;
pub mod text;
pub mod wire;
pub mod encoding;
pub mod digest;
pub mod net;
pub mod buffers;
pub mod pty;
pub mod websocket;
pub mod args;
pub mod notify;
