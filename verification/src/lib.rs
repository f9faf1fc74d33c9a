//! A structural-verification engine for root filesystem trees.
//!
//! The engine validates the layout of a root filesystem tree — either the
//! running operating system root or an alternative root taken from a
//! container image — against a registry of independent correctness rules
//! (lints).  The tree is represented as an in-memory snapshot ([`fsmodel`]),
//! so every rule, the single shared traversal, the first-failure policy,
//! the tallying and the final verdict are verified.  Reading a real
//! filesystem into a snapshot, and invoking the delegate subsystems whose
//! results the engine consumes, is left to unverified callers.

pub mod bytestr;
pub mod checks;
pub mod delegates;
pub mod engine;
pub mod fsmodel;
pub mod laws;
pub mod lints;
pub mod outcome;
pub mod users;
