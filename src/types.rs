//! The records that flow through the tracker and the detector.
//!
//! Amounts are held as plain integers: priority and total fees per gas unit
//! are `u128` wei (the width that the node reports them in), addresses are
//! their 20 raw bytes, and a 256-bit transfer value is four little-endian
//! 64-bit limbs.
use vstd::prelude::*;

verus! {

/// A 20-byte account address.
pub type Address = [u8; 20];

/// Lifecycle of a tracked transaction. Every transaction starts `Pending`;
/// no transition leaves `Included`, `Dropped` or `PotentiallyCensored`.
#[derive(Debug, Clone, Copy, PartialEq, Eq, Structural)]
pub enum TxStatus {
    Pending,
    Included { block_number: u64 },
    Dropped,
    PotentiallyCensored,
}

/// An unconfirmed transaction as first observed.
#[derive(Debug, Clone)]
pub struct PendingTx {
    pub hash: String,
    pub from: Address,
    pub to: Option<Address>,
    pub max_priority_fee: u128,
    pub max_fee: u128,
    pub nonce: u64,
    pub first_seen: i64,
    pub gas_limit: u64,
    pub value: [u64; 4],
    pub input_data_size: usize,
}

impl PendingTx {
    /// A field-by-field copy.
    pub fn copied(&self) -> (r: PendingTx)
        ensures
            r == *self,
    {
        PendingTx {
            hash: self.hash.clone(),
            from: self.from,
            to: self.to,
            max_priority_fee: self.max_priority_fee,
            max_fee: self.max_fee,
            nonce: self.nonce,
            first_seen: self.first_seen,
            gas_limit: self.gas_limit,
            value: self.value,
            input_data_size: self.input_data_size,
        }
    }
}

/// A transaction together with its lifecycle status and the time of its last
/// status change.
#[derive(Debug, Clone)]
pub struct TrackedTx {
    pub tx: PendingTx,
    pub status: TxStatus,
    pub last_checked: i64,
}

impl TrackedTx {
    /// A field-by-field copy.
    pub fn copied(&self) -> (r: TrackedTx)
        ensures
            r == *self,
    {
        TrackedTx { tx: self.tx.copied(), status: self.status, last_checked: self.last_checked }
    }
}

/// Priority fees at the 25th, 50th, 75th and 90th percentile.
#[derive(Debug, Clone, Copy, PartialEq, Eq, Structural)]
pub struct FeePercentiles {
    pub p25: u128,
    pub p50: u128,
    pub p75: u128,
    pub p90: u128,
}

/// The fee distribution and tracked count at one point in time.
#[derive(Debug, Clone, Copy, PartialEq, Eq, Structural)]
pub struct MempoolSnapshot {
    pub timestamp: i64,
    pub fee_percentiles: FeePercentiles,
    pub tx_count: usize,
}

/// A mined block and the hashes of the transactions it included, in order.
#[derive(Debug, Clone)]
pub struct MinedBlock {
    pub number: u64,
    pub timestamp: u64,
    pub base_fee: u128,
    pub tx_hashes: Vec<String>,
    pub gas_used: u128,
    pub gas_limit: u128,
}

/// A transaction flagged as plausibly censored in one detection pass.
///
/// `fee_percentile` is the bucket the fee falls in, in percent (90, 75, 50,
/// 25, or 10 below the 25th percentile). `confidence_score` is the score in
/// millionths: 1_000_000 stands for full confidence.
#[derive(Debug, Clone)]
pub struct CensorshipEvent {
    pub tx_hash: String,
    pub from: Address,
    pub to: Option<Address>,
    pub priority_fee: u128,
    pub threshold_fee: u128,
    pub fee_percentile: u8,
    pub blocks_pending: u64,
    pub seconds_pending: i64,
    pub confidence_score: u32,
    pub detected_at_block: u64,
    pub detected_at: i64,
}

} // verus!
