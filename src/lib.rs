//! A credential vault built on a capability-based secure backend.
//!
//! The backend (key storage, signatures, hashing and a path-addressed file
//! store) is reached by the application around this crate. This crate holds
//! the logic in between, proved correct: how labels become storage paths, how
//! records are laid out in bytes, how one-time passwords are derived, and how
//! the bounded key vault and its unlock gate behave.
use vstd::prelude::*;

pub mod address;
pub mod authenticator;
pub mod cli;
pub mod le;
pub mod platform;
pub mod record;
pub mod vault;
pub mod wireguard;
pub mod error;
pub mod gate;

verus! {

} // verus!
