//! An epoll-compatible readiness multiplexer over a proactive, token-based
//! asynchronous I/O engine. The library holds the verified core: the
//! generational handle table, the per-direction operation state machines,
//! the socket and dpoll state, and every decision the `pwait` algorithm
//! makes. The engine itself and the kernel are outside collaborators; the
//! thin unverified shim that talks to them drives these state machines and
//! hands their decisions back as plain values.

pub mod buffer;
pub mod completion;
pub mod dpoll;
pub mod errno;
pub mod event;
pub mod handle;
pub mod operation;
pub mod sga;
pub mod socket;
