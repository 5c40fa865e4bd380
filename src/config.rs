//! Detection settings.
use vstd::prelude::*;

verus! {

/// Blocks a transaction must wait before it can be flagged, unless configured.
pub const DEFAULT_MIN_PENDING_BLOCKS: u64 = 3;

/// Seconds a transaction must wait before it can be flagged, unless configured.
pub const DEFAULT_MIN_PENDING_SECONDS: i64 = 60;

/// The informational fee-percentile threshold, in percent, unless configured.
/// Detection always compares against the 25th percentile.
pub const DEFAULT_FEE_PERCENTILE_THRESHOLD: u8 = 25;

/// Connection, storage and detection settings.
#[derive(Debug, Clone)]
pub struct Config {
    pub rpc_url: String,
    pub db_path: String,
    /// In percent; informational only.
    pub fee_percentile_threshold: u8,
    pub min_pending_blocks: u64,
    pub min_pending_seconds: i64,
}

} // verus!
