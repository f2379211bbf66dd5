//! Client-side core of the Source RCON protocol: the length-prefixed packet
//! codec, the session that assigns request ids and drives the authorize /
//! command exchanges, and reassembly of responses that arrive in fragments.
//!
//! All network I/O lives outside this crate; the functions here work on plain
//! byte sequences, so every protocol decision is stated and verified.

pub mod codec;
pub mod error;
pub mod reassemble;
pub mod session;
