//! An authorized off-chain task pipeline: key matching, a single-slot request
//! ledger, and signed submission into a delivery queue.

pub mod authority;
pub mod bytes;
pub mod example;
pub mod extrinsic;
pub mod pool;
pub mod submitter;
pub mod testing;
