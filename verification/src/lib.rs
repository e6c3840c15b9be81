//! Positioned reads over `io_uring`, as verified state machines.
//!
//! Nothing here performs I/O. A state machine is told what happened (an event)
//! and answers with what has to be done next (an action); the caller owns the
//! ring, the files and the tasks.
pub mod behaviour;
pub mod bench;
pub mod block;
pub mod channel;
pub mod contents;
pub mod context;
pub mod entry;
pub mod error;
pub mod flush;
pub mod generate;
pub mod poller;
pub mod protocol;
pub mod read;
pub mod system;
pub mod task;
pub mod traits;
pub mod uring;
pub mod word;
