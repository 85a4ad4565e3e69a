//! Key-policy attribute-based encryption in the style of Yao, Chen and
//! Tian, with its access-policy toolchain: boolean policies parsed from a
//! JSON-shaped and a human-readable syntax, secret sharing over the policy
//! tree, the Lewko–Waters conversion to a monotone span program, and the
//! scheme itself over a pairing library's scalar field and target group.
//!
//! The scheme is kept for reference and compatibility only: published
//! attacks recover its master secret, so it must not be used where security
//! matters.

pub mod algebra;
pub mod errors;
pub mod msp;
pub mod parser;
pub mod policy;
pub mod secretsharing;
pub mod strutil;
pub mod symenc;
pub mod yct14;
