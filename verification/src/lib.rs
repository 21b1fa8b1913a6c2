//! Transport-connectivity core of an HTTP client stack.
//!
//! The crate establishes, reuses, and retires network connections behind a
//! poll-based request/response abstraction: a millisecond-granular timer
//! driver with cancellable registrations, a timeout race, a connection pool
//! enforcing keep-alive, lifetime and per-authority limit policies, and a
//! protocol dispatcher that routes requests to the plain or the TLS path and
//! tags each connection with the ALPN-negotiated protocol.

pub mod connect;
pub mod connector;
pub mod delay;
pub mod driver;
pub mod interval;
pub mod poll;
pub mod pool;
pub mod responder;
pub mod split;
pub mod time;
pub mod timeout;
