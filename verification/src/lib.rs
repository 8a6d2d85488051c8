//! Bringing a cloud instance up and reaching it by remote shell.
//!
//! The library holds the decisions of that flow: reading and rewriting the
//! connection configuration file, choosing an instance among the provider's
//! answers, deciding whether an instance may be started, and the polling
//! policy that waits for an address and then for the shell port, all under one
//! deadline. The caller performs the provider calls, the connection attempts
//! and the file operations, and reports what it observed.

pub mod commit;
pub mod config;
pub mod failure;
pub mod instance;
pub mod lifecycle;
pub mod lines;
pub mod poller;
pub mod session;
pub mod text;
