//! A persistent content-and-voting store.
//!
//! The library keeps a set of posts and, per post, a ledger of which voter
//! identities have cast which vote. Each identity holds at most one vote per
//! post: casting the same direction twice is rejected, casting the opposite
//! direction retracts the earlier vote. A post's aggregate score is kept
//! consistent with its ledger by construction.

pub mod codec;
pub mod model;
pub mod service;
pub mod storage;
pub mod types;
