//! Bounded concurrent TCP scanning and host fingerprinting.
//!
//! The library holds the decisions of the scanner: how much concurrency a run
//! gets, how a target turns into work, how the engine admits and retires work,
//! and how probe replies become fingerprints. The network and process work
//! itself is done by the caller, which hands the outcomes back as plain values.
pub mod limits;
pub mod target;
pub mod engine;
pub mod text;
pub mod fingerprint;
pub mod cli;
pub mod aggregate;
