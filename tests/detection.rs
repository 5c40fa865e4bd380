use mempool_watch::config::Config;
use mempool_watch::detector::{evaluate_transaction, CensorshipDetector};
use mempool_watch::fees::percentile_bucket;
use mempool_watch::score::confidence_score;
use mempool_watch::state::MempoolState;
use mempool_watch::types::{FeePercentiles, MempoolSnapshot, PendingTx, TrackedTx, TxStatus};

fn config(min_blocks: u64, min_secs: i64) -> Config {
    Config {
        rpc_url: "ws://localhost:8546".to_string(),
        db_path: "censorship.db".to_string(),
        fee_percentile_threshold: 25,
        min_pending_blocks: min_blocks,
        min_pending_seconds: min_secs,
    }
}

fn pending(hash: &str, fee: u128, first_seen: i64) -> TrackedTx {
    TrackedTx {
        tx: PendingTx {
            hash: hash.to_string(),
            from: [7u8; 20],
            to: None,
            max_priority_fee: fee,
            max_fee: fee + 100,
            nonce: 3,
            first_seen,
            gas_limit: 50_000,
            value: [1, 0, 0, 0],
            input_data_size: 4,
        },
        status: TxStatus::Pending,
        last_checked: first_seen,
    }
}

fn snapshot(p25: u128, p50: u128, p75: u128, p90: u128) -> MempoolSnapshot {
    MempoolSnapshot { timestamp: 0, fee_percentiles: FeePercentiles { p25, p50, p75, p90 }, tx_count: 4 }
}

#[test]
fn scored_event_for_a_long_waiting_generous_fee() {
    let snap = snapshot(20, 30, 40, 60);
    let t = pending("0xfeed", 50, 900);
    let e = evaluate_transaction(&config(3, 0), &t, 0, 10, &snap, 1000).expect("event");
    assert_eq!(e.tx_hash, "0xfeed");
    assert_eq!(e.from, [7u8; 20]);
    assert_eq!(e.to, None);
    assert_eq!(e.priority_fee, 50);
    assert_eq!(e.threshold_fee, 20);
    assert_eq!(e.blocks_pending, 10);
    assert_eq!(e.seconds_pending, 100);
    assert_eq!(e.confidence_score, 1_000_000);
    assert_eq!(e.fee_percentile, 75);
    assert_eq!(e.detected_at_block, 10);
    assert_eq!(e.detected_at, 1000);
}

#[test]
fn zero_threshold_yields_no_event() {
    let snap = snapshot(0, 0, 0, 0);
    let t = pending("0x1", u128::MAX, 0);
    assert!(evaluate_transaction(&config(0, 0), &t, 0, 1_000, &snap, 1_000_000).is_none());
    let snap = snapshot(0, 5, 9, 12);
    assert!(evaluate_transaction(&config(0, 0), &t, 0, 1_000, &snap, 1_000_000).is_none());
}

#[test]
fn fee_below_threshold_yields_no_event() {
    let snap = snapshot(20, 30, 40, 60);
    assert!(evaluate_transaction(&config(0, 0), &pending("0x1", 19, 0), 0, 50, &snap, 500).is_none());
}

#[test]
fn too_few_blocks_or_seconds_yield_no_event() {
    let snap = snapshot(20, 30, 40, 60);
    let t = pending("0x1", 50, 900);
    assert!(evaluate_transaction(&config(3, 0), &t, 8, 10, &snap, 1000).is_none());
    assert!(evaluate_transaction(&config(3, 101), &t, 0, 10, &snap, 1000).is_none());
    assert!(evaluate_transaction(&config(3, 100), &t, 0, 10, &snap, 1000).is_some());
    // a first-seen block after the current one counts as zero blocks waited
    assert!(evaluate_transaction(&config(1, 0), &t, 20, 10, &snap, 1000).is_none());
}

#[test]
fn confidence_formula_values() {
    assert_eq!(confidence_score(50, 20, 10), 1_000_000);
    assert_eq!(confidence_score(20, 20, 5), 250_000);
    assert_eq!(confidence_score(30, 20, 3), 225_000);
    assert_eq!(confidence_score(25, 20, 3), 187_500);
    assert_eq!(confidence_score(20, 20, 0), 0);
    assert_eq!(confidence_score(1, 3, 1), 16_666);
    assert_eq!(confidence_score(u128::MAX, u128::MAX, 9), 450_000);
    assert_eq!(confidence_score(u128::MAX - 1, u128::MAX, 10), 499_999);
    assert_eq!(confidence_score(u128::MAX, 1, 1), 1_000_000);
}

#[test]
fn confidence_grows_with_fee_and_blocks() {
    let mut last = 0;
    for fee in 20u128..200 {
        let c = confidence_score(fee, 20, 4);
        assert!(c >= last);
        last = c;
    }
    let mut last = 0;
    for blocks in 0u64..30 {
        let c = confidence_score(27, 20, blocks);
        assert!(c >= last);
        last = c;
    }
    assert_eq!(confidence_score(27, 20, 10), confidence_score(27, 20, 1_000));
}

#[test]
fn bucket_is_highest_percentile_at_or_below_fee() {
    let p = FeePercentiles { p25: 20, p50: 30, p75: 40, p90: 60 };
    assert_eq!(percentile_bucket(60, &p), 90);
    assert_eq!(percentile_bucket(59, &p), 75);
    assert_eq!(percentile_bucket(30, &p), 50);
    assert_eq!(percentile_bucket(20, &p), 25);
    assert_eq!(percentile_bucket(19, &p), 10);
}

fn add(s: &mut MempoolState, hash: &str, fee: u128, first_seen: i64) {
    s.add_tx_at(pending(hash, fee, first_seen).tx, first_seen);
}

#[test]
fn scan_records_first_seen_block_once() {
    let mut s = MempoolState::new();
    add(&mut s, "0x0", 10, 0);
    add(&mut s, "0x1", 20, 0);
    add(&mut s, "0x2", 30, 0);
    add(&mut s, "0x3", 40, 0);
    let mut d = CensorshipDetector::new(config(3, 60));
    assert!(d.scan_mempool_at(&s, 100, 1_000).is_empty());
    let mut events = d.scan_mempool_at(&s, 110, 2_000);
    events.sort_by(|a, b| a.tx_hash.cmp(&b.tx_hash));
    let summary: Vec<(String, u64, u32, u8)> = events
        .iter()
        .map(|e| (e.tx_hash.clone(), e.blocks_pending, e.confidence_score, e.fee_percentile))
        .collect();
    assert_eq!(
        summary,
        vec![
            ("0x1".to_string(), 10, 500_000, 25),
            ("0x2".to_string(), 10, 750_000, 50),
            ("0x3".to_string(), 10, 1_000_000, 90),
        ]
    );
    assert_eq!(d.record_first_seen(&"0x2".to_string(), 500), 100);
    assert_eq!(d.record_first_seen(&"0x9".to_string(), 500), 500);
}

#[test]
fn scan_skips_included_transactions() {
    let mut s = MempoolState::new();
    add(&mut s, "0x0", 10, 0);
    add(&mut s, "0x1", 20, 0);
    add(&mut s, "0x2", 30, 0);
    add(&mut s, "0x3", 40, 0);
    s.mark_included_txs_at(&["0x3".to_string()], 105, 10);
    let mut d = CensorshipDetector::new(config(0, 0));
    let events = d.scan_mempool_at(&s, 100, 1_000);
    // the fee of 0x0 is below the 25th percentile (20); 0x3 is no longer pending
    assert_eq!(events.len(), 2);
    assert!(events.iter().all(|e| e.tx_hash == "0x1" || e.tx_hash == "0x2"));
    assert!(events.iter().all(|e| e.confidence_score == 0));
}

#[test]
fn scan_of_empty_state_yields_nothing() {
    let s = MempoolState::new();
    let mut d = CensorshipDetector::new(config(0, 0));
    assert!(d.scan_mempool_at(&s, 1, 1).is_empty());
}

#[test]
fn pruning_forgets_hashes_that_left_pending() {
    let mut s = MempoolState::new();
    add(&mut s, "0x1", 20, 0);
    add(&mut s, "0x2", 30, 0);
    let mut d = CensorshipDetector::new(config(0, 0));
    d.scan_mempool_at(&s, 50, 100);
    s.mark_included_txs_at(&["0x2".to_string()], 51, 110);
    assert!(s.is_pending(&"0x1".to_string()));
    assert!(!s.is_pending(&"0x2".to_string()));
    assert!(!s.is_pending(&"0x3".to_string()));
    d.retain_pending(&s);
    assert_eq!(d.record_first_seen(&"0x1".to_string(), 60), 50);
    assert_eq!(d.record_first_seen(&"0x2".to_string(), 60), 60);
}
