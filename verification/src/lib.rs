//! Stateless-session authentication and role-based authorization core.
//!
//! The crate authenticates a caller from a signed compact token, re-validates
//! the caller's authority against live role storage, and evaluates a
//! composable permission expression before granting access.

pub mod claim;
pub mod guard;
pub mod password;
pub mod permissions;
pub mod roles;
pub mod token;
