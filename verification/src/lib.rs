//! The decision core of a reverse proxy whose backends are found at run time.
//!
//! An operator registers a domain; its name is resolved to a set of backend
//! addresses; a supervised pool of those backends is installed in the registry;
//! and every request whose `Host` names the domain is routed to a live backend of
//! that pool. Nothing in this crate performs I/O: sockets, timers, the resolver
//! and the HTTP engine stay with the caller, which feeds events in and carries
//! actions out.

pub mod admin;
pub mod lb;
pub mod svcs;
