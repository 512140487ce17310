//! Secret references in a process environment or in lines of text, resolved
//! against a versioned key-value store, and the supervision of the child
//! process that runs in the materialized environment.
//!
//! The library decides and computes; reading the environment, talking to
//! the store and starting processes are left to its caller.

pub mod cli;
pub mod environment;
pub mod failure;
pub mod inject;
pub mod reference;
pub mod resolve;
pub mod store;
pub mod supervisor;
pub mod text;
