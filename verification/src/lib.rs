//! Identifies the software stack behind a URL by evaluating HTTP response
//! snapshots against a library of fingerprint rules.
//!
//! The crate holds the pure core: request preparation, charset negotiation,
//! next-hop resolution, favicon discovery, the redirect/scheme orchestration
//! decisions, and the rule-matching engine. Network transport is left to the
//! caller, which hands response data in as plain values.

pub mod cache;
pub mod deps;
pub mod fingerprint;
pub mod request;
pub mod strutil;
pub mod ward;

use vstd::prelude::*;

verus! {

} // verus!
