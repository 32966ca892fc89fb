//! A minimal time-distribution service, verified.
//!
//! The service answers each TCP connection with the current Unix time as a
//! decimal ASCII string and closes the connection. Three interchangeable
//! dispatch strategies (blocking, worker-pool, async) schedule the handling;
//! a load client drives the protocol from the other side. This crate holds
//! the verified core: the response codec, the configuration rules, the
//! connection-handler logic, and the decision logic of the dispatch loop and
//! the load client. The sockets, threads and async runtime that carry these
//! decisions out live outside the library.

pub mod client;
pub mod codec;
pub mod config;
pub mod dispatch;
pub mod handler;
