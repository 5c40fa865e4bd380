use mempool_watch::clock::timestamp_from_secs;
use mempool_watch::fees::{fee_percentiles, percentile_position, sort_fees};
use mempool_watch::state::MempoolState;
use mempool_watch::types::{FeePercentiles, PendingTx, TxStatus};

fn tx(hash: &str, fee: u128, first_seen: i64) -> PendingTx {
    PendingTx {
        hash: hash.to_string(),
        from: [1u8; 20],
        to: Some([2u8; 20]),
        max_priority_fee: fee,
        max_fee: fee * 2,
        nonce: 0,
        first_seen,
        gas_limit: 21_000,
        value: [0, 0, 0, 0],
        input_data_size: 0,
    }
}

#[test]
fn percentiles_of_four_fees() {
    let p = fee_percentiles(&vec![10u128, 20, 30, 40]);
    assert_eq!(p, FeePercentiles { p25: 20, p50: 30, p75: 40, p90: 40 });
}

#[test]
fn percentiles_of_unsorted_fees() {
    let fees = vec![40u128, 10, 30, 20];
    let p = fee_percentiles(&fees);
    assert_eq!(p, FeePercentiles { p25: 20, p50: 30, p75: 40, p90: 40 });
}

#[test]
fn percentiles_ordered_and_members() {
    let fees = vec![7u128, 3, 99, 3, 42, 15, 8, 1, 64, 23, 5];
    let p = fee_percentiles(&fees);
    assert!(p.p25 <= p.p50 && p.p50 <= p.p75 && p.p75 <= p.p90);
    for v in [p.p25, p.p50, p.p75, p.p90] {
        assert!(fees.contains(&v));
    }
    // sorted: 1 3 3 5 7 8 15 23 42 64 99; indices 2, 5, 8, 9
    assert_eq!(p, FeePercentiles { p25: 3, p50: 8, p75: 42, p90: 64 });
}

#[test]
fn percentiles_of_empty_distribution_are_zero() {
    let p = fee_percentiles(&Vec::new());
    assert_eq!(p, FeePercentiles { p25: 0, p50: 0, p75: 0, p90: 0 });
}

#[test]
fn percentiles_of_single_fee() {
    let p = fee_percentiles(&vec![5u128]);
    assert_eq!(p, FeePercentiles { p25: 5, p50: 5, p75: 5, p90: 5 });
}

#[test]
fn sorting_keeps_duplicates() {
    assert_eq!(sort_fees(&vec![3u128, 1, 3, 2, u128::MAX, 0]), vec![0, 1, 2, 3, 3, u128::MAX]);
}

#[test]
fn percentile_position_values() {
    assert_eq!(percentile_position(4, 25), 1);
    assert_eq!(percentile_position(4, 90), 3);
    assert_eq!(percentile_position(0, 50), 0);
    assert_eq!(percentile_position(7, 75), 5);
    assert_eq!(percentile_position(usize::MAX, 90), ((usize::MAX as u128) * 90 / 100) as usize);
}

#[test]
fn snapshot_reports_percentiles_and_count() {
    let mut s = MempoolState::new();
    for (i, fee) in [10u128, 20, 30, 40].iter().enumerate() {
        s.add_tx_at(tx(&format!("0x{}", i), *fee, 0), 0);
    }
    let snap = s.calculate_snapshot_at(77);
    assert_eq!(snap.timestamp, 77);
    assert_eq!(snap.tx_count, 4);
    assert_eq!(snap.fee_percentiles, FeePercentiles { p25: 20, p50: 30, p75: 40, p90: 40 });
}

#[test]
fn adding_a_hash_twice_keeps_one_entry() {
    let mut s = MempoolState::new();
    s.add_tx_at(tx("0xaa", 50, 1), 1);
    s.add_tx_at(tx("0xaa", 90, 2), 2);
    assert_eq!(s.get_tx_count(), 1);
    assert_eq!(s.fee_distribution(), &vec![50u128]);
    let pending = s.get_pending_txs();
    assert_eq!(pending.len(), 1);
    assert_eq!(pending[0].last_checked, 1);
    assert_eq!(pending[0].tx.max_priority_fee, 50);
}

#[test]
fn readding_does_not_reset_status() {
    let mut s = MempoolState::new();
    s.add_tx_at(tx("0xaa", 50, 1), 1);
    s.mark_included_txs_at(&["0xaa".to_string()], 9, 5);
    s.add_tx_at(tx("0xaa", 50, 1), 6);
    assert_eq!(s.status_of(&"0xaa".to_string()), Some(TxStatus::Included { block_number: 9 }));
    assert_eq!(s.fee_distribution().len(), 1);
}

#[test]
fn inclusion_records_the_block_and_is_not_repeated() {
    let mut s = MempoolState::new();
    s.add_tx_at(tx("0xaa", 50, 1), 1);
    s.add_tx_at(tx("0xbb", 60, 1), 1);
    s.mark_included_txs_at(&["0xaa".to_string(), "0xcc".to_string()], 100, 10);
    assert_eq!(s.status_of(&"0xaa".to_string()), Some(TxStatus::Included { block_number: 100 }));
    assert_eq!(s.status_of(&"0xbb".to_string()), Some(TxStatus::Pending));
    assert_eq!(s.status_of(&"0xcc".to_string()), None);
    s.mark_included_txs_at(&["0xaa".to_string()], 101, 20);
    assert_eq!(s.status_of(&"0xaa".to_string()), Some(TxStatus::Included { block_number: 100 }));
    let pending = s.get_pending_txs();
    assert_eq!(pending.len(), 1);
    assert_eq!(pending[0].tx.hash, "0xbb");
}

#[test]
fn inclusion_leaves_censored_alone() {
    let mut s = MempoolState::new();
    s.add_tx_at(tx("0xaa", 50, 1), 1);
    s.mark_censored_txs_at(&["0xaa".to_string()], 3);
    assert_eq!(s.status_of(&"0xaa".to_string()), Some(TxStatus::PotentiallyCensored));
    s.mark_included_txs_at(&["0xaa".to_string()], 7, 4);
    assert_eq!(s.status_of(&"0xaa".to_string()), Some(TxStatus::PotentiallyCensored));
    assert!(s.get_pending_txs().is_empty());
}

#[test]
fn cleanup_keeps_live_and_evicts_old_included() {
    let mut s = MempoolState::new();
    s.add_tx_at(tx("0xp", 10, 0), 0);
    s.add_tx_at(tx("0xc", 20, 0), 0);
    s.add_tx_at(tx("0xi", 30, 0), 0);
    s.add_tx_at(tx("0xj", 40, 0), 0);
    s.mark_censored_txs_at(&["0xc".to_string()], 0);
    s.mark_included_txs_at(&["0xi".to_string()], 5, 100);
    s.mark_included_txs_at(&["0xj".to_string()], 6, 950);
    assert_eq!(s.fee_distribution(), &vec![10u128, 20, 30, 40]);
    // cutoff = 1000 - 100 = 900
    s.cleanup_old_txs_at(100, 1000);
    assert_eq!(s.get_tx_count(), 3);
    assert_eq!(s.status_of(&"0xp".to_string()), Some(TxStatus::Pending));
    assert_eq!(s.status_of(&"0xc".to_string()), Some(TxStatus::PotentiallyCensored));
    assert_eq!(s.status_of(&"0xi".to_string()), None);
    assert_eq!(s.status_of(&"0xj".to_string()), Some(TxStatus::Included { block_number: 6 }));
    assert_eq!(s.fee_distribution(), &vec![10u128]);
}

#[test]
fn cleanup_keeps_entry_exactly_at_cutoff() {
    let mut s = MempoolState::new();
    s.add_tx_at(tx("0xi", 30, 0), 0);
    s.add_tx_at(tx("0xj", 40, 0), 0);
    s.mark_included_txs_at(&["0xi".to_string()], 5, 900);
    s.mark_included_txs_at(&["0xj".to_string()], 5, 899);
    s.cleanup_old_txs_at(100, 1000);
    assert_eq!(s.get_tx_count(), 1);
    assert_eq!(s.status_of(&"0xi".to_string()), Some(TxStatus::Included { block_number: 5 }));
    assert_eq!(s.status_of(&"0xj".to_string()), None);
}

#[test]
fn cleanup_with_extreme_age_does_not_overflow() {
    let mut s = MempoolState::new();
    s.add_tx_at(tx("0xi", 30, 0), 0);
    s.mark_included_txs_at(&["0xi".to_string()], 5, 0);
    s.cleanup_old_txs_at(i64::MAX, i64::MIN);
    assert_eq!(s.get_tx_count(), 1);
    s.cleanup_old_txs_at(i64::MIN, i64::MAX);
    assert_eq!(s.get_tx_count(), 0);
}

#[test]
fn snapshot_and_pending_agree() {
    let mut s = MempoolState::new();
    s.add_tx_at(tx("0xa", 10, 0), 0);
    s.add_tx_at(tx("0xb", 20, 0), 0);
    s.mark_included_txs_at(&["0xa".to_string()], 1, 1);
    let (snap, pending) = s.snapshot_and_pending(5);
    assert_eq!(snap.tx_count, 2);
    assert_eq!(pending.len(), 1);
    assert_eq!(pending[0].tx.hash, "0xb");
}

#[test]
fn clock_reads_a_recent_time() {
    let now = mempool_watch::clock::current_timestamp();
    assert!(now > 1_600_000_000);
}

#[test]
fn clock_reading_conversion() {
    assert_eq!(timestamp_from_secs(Some(1_700_000_000)), 1_700_000_000);
    assert_eq!(timestamp_from_secs(Some(i64::MAX as u64)), i64::MAX);
    assert_eq!(timestamp_from_secs(Some(u64::MAX)), i64::MAX);
    assert_eq!(timestamp_from_secs(None), 0);
}
