//! The censorship detector: scores each pending transaction of a snapshot and
//! keeps, per hash, the block at which the hash was first seen pending.
use vstd::prelude::*;
use vstd::arithmetic::div_mod::{lemma_div_by_multiple, lemma_div_is_ordered};
use crate::clock::current_timestamp;
use crate::config::Config;
use crate::fees::{bucket_of, percentile_bucket, percentiles_of};
use crate::score::{confidence_ppm, confidence_score};
use crate::state::{has_hash, pending_of, MempoolState};
use crate::types::{CensorshipEvent, MempoolSnapshot, PendingTx, TrackedTx};

verus! {

/// `x` clamped to the range of `i64`.
pub open spec fn clamp_i64(x: int) -> i64 {
    if x > i64::MAX {
        i64::MAX
    } else if x < i64::MIN {
        i64::MIN
    } else {
        x as i64
    }
}

/// `max(0, current - first)`.
pub open spec fn blocks_between(first: u64, current: u64) -> u64 {
    if current >= first {
        (current - first) as u64
    } else {
        0
    }
}

/// The event that scoring `tx` yields, given the block it was first seen
/// pending at, the current block and time, and the snapshot: none when the
/// 25th-percentile threshold is zero, when the fee is below it, or when the
/// transaction has not waited both the configured blocks and seconds.
pub open spec fn event_for(
    tx: PendingTx,
    first_block: u64,
    current_block: u64,
    snapshot: MempoolSnapshot,
    config: Config,
    now: i64,
) -> Option<CensorshipEvent> {
    let elapsed = now - tx.first_seen;
    let blocks = blocks_between(first_block, current_block);
    let fee = tx.max_priority_fee;
    let threshold = snapshot.fee_percentiles.p25;
    if threshold == 0 {
        None
    } else if !(fee >= threshold && blocks >= config.min_pending_blocks && elapsed
        >= config.min_pending_seconds) {
        None
    } else {
        Some(
            CensorshipEvent {
                tx_hash: tx.hash,
                from: tx.from,
                to: tx.to,
                priority_fee: fee,
                threshold_fee: threshold,
                fee_percentile: bucket_of(fee, snapshot.fee_percentiles),
                blocks_pending: blocks,
                seconds_pending: clamp_i64(elapsed),
                confidence_score: confidence_ppm(fee as nat, threshold as nat, blocks as nat) as u32,
                detected_at_block: current_block,
                detected_at: now,
            },
        )
    }
}

/// The first-seen map after meeting `h` at block `block`: an absent hash is
/// recorded at `block`, a present one keeps its block.
pub open spec fn recorded(m: Map<Seq<char>, u64>, h: Seq<char>, block: u64) -> Map<Seq<char>, u64> {
    if m.contains_key(h) {
        m
    } else {
        m.insert(h, block)
    }
}

/// The hashes of the pending transactions of `txs`.
pub open spec fn pending_hashes(txs: Seq<TrackedTx>) -> Set<Seq<char>> {
    Set::new(|h: Seq<char>| has_hash(pending_of(txs), h))
}

/// The events of one detection pass over `txs`, in order, and the first-seen
/// map after it.
pub open spec fn scan_result(
    txs: Seq<TrackedTx>,
    m: Map<Seq<char>, u64>,
    current_block: u64,
    snapshot: MempoolSnapshot,
    config: Config,
    now: i64,
) -> (Seq<CensorshipEvent>, Map<Seq<char>, u64>)
    decreases txs.len(),
{
    if txs.len() == 0 {
        (Seq::empty(), m)
    } else {
        let prev = scan_result(txs.drop_last(), m, current_block, snapshot, config, now);
        let t = txs.last();
        let m2 = recorded(prev.1, t.tx.hash@, current_block);
        match event_for(t.tx, m2[t.tx.hash@], current_block, snapshot, config, now) {
            Some(e) => (prev.0.push(e), m2),
            None => (prev.0, m2),
        }
    }
}

/// Scores `pending_tx` against `snapshot` at block `current_block` and time
/// `now`, given the block at which it was first seen pending.
pub fn evaluate_transaction(
    config: &Config,
    pending_tx: &TrackedTx,
    first_seen_block: u64,
    current_block: u64,
    snapshot: &MempoolSnapshot,
    now: i64,
) -> (r: Option<CensorshipEvent>)
    ensures
        r == event_for(pending_tx.tx, first_seen_block, current_block, *snapshot, *config, now),
{
    let elapsed: i128 = now as i128 - pending_tx.tx.first_seen as i128;
    let seconds_pending: i64 = if elapsed > i64::MAX as i128 {
        i64::MAX
    } else if elapsed < i64::MIN as i128 {
        i64::MIN
    } else {
        elapsed as i64
    };
    let blocks_waited = current_block.saturating_sub(first_seen_block);
    let fee = pending_tx.tx.max_priority_fee;
    let threshold = snapshot.fee_percentiles.p25;
    if threshold == 0 {
        return None;
    }
    let has_competitive_fee = fee >= threshold;
    let waited_long_enough = blocks_waited >= config.min_pending_blocks && elapsed
        >= config.min_pending_seconds as i128;
    if !has_competitive_fee || !waited_long_enough {
        return None;
    }
    // A fee at or above the threshold has a ratio of at least one; kept as a guard.
    proof {
        lemma_div_is_ordered(threshold as int, fee as int, threshold as int);
        lemma_div_by_multiple(1, threshold as int);
        assert(1 * (threshold as int) == threshold as int);
    }
    if fee / threshold < 1 {
        return None;
    }
    let confidence = confidence_score(fee, threshold, blocks_waited);
    let bucket = percentile_bucket(fee, &snapshot.fee_percentiles);
    Some(
        CensorshipEvent {
            tx_hash: pending_tx.tx.hash.clone(),
            from: pending_tx.tx.from,
            to: pending_tx.tx.to,
            priority_fee: fee,
            threshold_fee: threshold,
            fee_percentile: bucket,
            blocks_pending: blocks_waited,
            seconds_pending,
            confidence_score: confidence,
            detected_at_block: current_block,
            detected_at: now,
        },
    )
}

/// Scores pending transactions and remembers when each hash was first seen.
pub struct CensorshipDetector {
    config: Config,
    block_first_seen: Vec<(String, u64)>,
    seen: Ghost<Map<Seq<char>, u64>>,
}

impl CensorshipDetector {
    /// For each hash met so far, the block at which it was first seen pending.
    pub closed spec fn first_seen(&self) -> Map<Seq<char>, u64> {
        self.seen@
    }

    /// The settings the detector scores with.
    pub closed spec fn config(&self) -> Config {
        self.config
    }

    /// The entries hold exactly the first-seen map.
    pub closed spec fn wf(&self) -> bool {
        &&& forall|i: int|
            0 <= i < self.block_first_seen@.len() ==> {
                let e = #[trigger] self.block_first_seen@[i];
                self.seen@.contains_key(e.0@) && self.seen@[e.0@] == e.1
            }
        &&& forall|k: Seq<char>|
            #[trigger] self.seen@.contains_key(k) ==> exists|i: int|
                0 <= i < self.block_first_seen@.len() && (#[trigger] self.block_first_seen@[i]).0@
                    == k
    }

    /// A detector that has seen no hash yet.
    pub fn new(config: Config) -> (r: CensorshipDetector)
        ensures
            r.wf(),
            r.config() == config,
            r.first_seen() == Map::<Seq<char>, u64>::empty(),
    {
        CensorshipDetector { config, block_first_seen: Vec::new(), seen: Ghost(Map::empty()) }
    }

    /// The block at which `hash` was first seen, recording `current_block` if
    /// the hash is new.
    pub fn record_first_seen(&mut self, hash: &String, current_block: u64) -> (r: u64)
        requires
            old(self).wf(),
        ensures
            final(self).wf(),
            final(self).config() == old(self).config(),
            final(self).first_seen() == recorded(old(self).first_seen(), hash@, current_block),
            r == final(self).first_seen()[hash@],
    {
        let mut i: usize = 0;
        while i < self.block_first_seen.len()
            invariant
                self.wf(),
                i <= self.block_first_seen@.len(),
                forall|k: int| 0 <= k < i ==> (#[trigger] self.block_first_seen@[k]).0@ != hash@,
            decreases self.block_first_seen@.len() - i,
        {
            if self.block_first_seen[i].0 == *hash {
                return self.block_first_seen[i].1;
            }
            i = i + 1;
        }
        proof {
            if self.seen@.contains_key(hash@) {
                let j = choose|j: int|
                    0 <= j < self.block_first_seen@.len() && (#[trigger] self.block_first_seen@[
                        j
                    ]).0@ == hash@;
            }
        }
        self.block_first_seen.push((hash.clone(), current_block));
        self.seen = Ghost(self.seen@.insert(hash@, current_block));
        proof {
            assert forall|k: Seq<char>| #[trigger] self.seen@.contains_key(k) implies exists|i: int|
                0 <= i < self.block_first_seen@.len() && (#[trigger] self.block_first_seen@[i]).0@
                    == k by {
                if k == hash@ {
                    assert(self.block_first_seen@[self.block_first_seen@.len() - 1].0@ == k);
                } else {
                    assert(old(self).seen@.contains_key(k));
                    let j = choose|j: int|
                        0 <= j < old(self).block_first_seen@.len() && (#[trigger] old(
                            self,
                        ).block_first_seen@[j]).0@ == k;
                    assert(self.block_first_seen@[j] == old(self).block_first_seen@[j]);
                }
            }
        }
        current_block
    }

    /// Scores one pending transaction at block `current_block` and time `now`,
    /// first recording the block at which its hash was first seen.
    pub fn analyze_transaction(
        &mut self,
        pending_tx: &TrackedTx,
        current_block: u64,
        snapshot: &MempoolSnapshot,
        now: i64,
    ) -> (r: Option<CensorshipEvent>)
        requires
            old(self).wf(),
        ensures
            final(self).wf(),
            final(self).config() == old(self).config(),
            final(self).first_seen() == recorded(
                old(self).first_seen(),
                pending_tx.tx.hash@,
                current_block,
            ),
            r == event_for(
                pending_tx.tx,
                final(self).first_seen()[pending_tx.tx.hash@],
                current_block,
                *snapshot,
                old(self).config(),
                now,
            ),
    {
        let first_seen_block = self.record_first_seen(&pending_tx.tx.hash, current_block);
        evaluate_transaction(
            &self.config,
            pending_tx,
            first_seen_block,
            current_block,
            snapshot,
            now,
        )
    }

    /// One detection pass at block `current_block` and time `now`: takes the
    /// snapshot and the pending list from `state` in one view and scores each
    /// pending transaction in turn.
    pub fn scan_mempool_at(&mut self, state: &MempoolState, current_block: u64, now: i64) -> (r: Vec<
        CensorshipEvent,
    >)
        requires
            old(self).wf(),
        ensures
            final(self).wf(),
            final(self).config() == old(self).config(),
            (r@, final(self).first_seen()) == scan_result(
                pending_of(state.txs()),
                old(self).first_seen(),
                current_block,
                (MempoolSnapshot {
                    timestamp: now,
                    fee_percentiles: percentiles_of(state.fees()),
                    tx_count: state.txs().len() as usize,
                }),
                old(self).config(),
                now,
            ),
    {
        let (snapshot, pending) = state.snapshot_and_pending(now);
        let ghost cfg = self.config();
        let ghost m0 = self.first_seen();
        let mut events: Vec<CensorshipEvent> = Vec::new();
        let mut i: usize = 0;
        while i < pending.len()
            invariant
                self.wf(),
                self.config() == cfg,
                i <= pending@.len(),
                (events@, self.first_seen()) == scan_result(
                    pending@.subrange(0, i as int),
                    m0,
                    current_block,
                    snapshot,
                    cfg,
                    now,
                ),
            decreases pending@.len() - i,
        {
            proof {
                assert(pending@.subrange(0, i + 1).drop_last() == pending@.subrange(0, i as int));
            }
            if let Some(event) = self.analyze_transaction(&pending[i], current_block, &snapshot, now) {
                events.push(event);
            }
            i = i + 1;
        }
        assert(pending@.subrange(0, pending@.len() as int) == pending@);
        events
    }

    /// Forgets the first-seen block of every hash that is not pending in
    /// `state`. Callers run it after inclusion marking or cleanup, so that the
    /// detector keeps entries only for transactions still waiting.
    pub fn retain_pending(&mut self, state: &MempoolState)
        requires
            old(self).wf(),
            state.wf(),
        ensures
            final(self).wf(),
            final(self).config() == old(self).config(),
            final(self).first_seen() == old(self).first_seen().restrict(
                pending_hashes(state.txs()),
            ),
    {
        let ghost entries = self.block_first_seen@;
        let ghost m = self.seen@;
        let ghost keep = pending_hashes(state.txs());
        let mut kept: Vec<(String, u64)> = Vec::new();
        let mut i: usize = 0;
        while i < self.block_first_seen.len()
            invariant
                self.block_first_seen@ == entries,
                self.seen@ == m,
                self.wf(),
                state.wf(),
                keep == pending_hashes(state.txs()),
                i <= entries.len(),
                forall|j: int|
                    0 <= j < kept@.len() ==> {
                        let e = #[trigger] kept@[j];
                        m.contains_key(e.0@) && keep.contains(e.0@) && m[e.0@] == e.1
                    },
                forall|k: int|
                    0 <= k < i && keep.contains((#[trigger] entries[k]).0@) ==> exists|j: int|
                        0 <= j < kept@.len() && (#[trigger] kept@[j]).0@ == entries[k].0@,
            decreases entries.len() - i,
        {
            let e = &self.block_first_seen[i];
            if state.is_pending(&e.0) {
                let ghost before = kept@;
                kept.push((e.0.clone(), e.1));
                proof {
                    assert forall|k: int|
                        0 <= k < i + 1 && keep.contains((#[trigger] entries[k]).0@) implies exists|
                        j: int,
                    | 0 <= j < kept@.len() && (#[trigger] kept@[j]).0@ == entries[k].0@ by {
                        if k == i {
                            assert(kept@[before.len() as int].0@ == entries[k].0@);
                        } else {
                            let j = choose|j: int|
                                0 <= j < before.len() && (#[trigger] before[j]).0@
                                    == entries[k].0@;
                            assert(kept@[j] == before[j]);
                        }
                    }
                }
            }
            i = i + 1;
        }
        assert(forall|k: Seq<char>|
            #[trigger] m.contains_key(k) ==> exists|i0: int|
                0 <= i0 < entries.len() && (#[trigger] entries[i0]).0@ == k);
        self.block_first_seen = kept;
        self.seen = Ghost(m.restrict(keep));
        proof {
            assert forall|k: Seq<char>| #[trigger] self.seen@.contains_key(k) implies exists|
                i: int,
            | 0 <= i < self.block_first_seen@.len() && (#[trigger] self.block_first_seen@[i]).0@
                == k by {
                let i0 = choose|i0: int|
                    0 <= i0 < entries.len() && (#[trigger] entries[i0]).0@ == k;
                assert(keep.contains(entries[i0].0@));
                let j = choose|j: int|
                    0 <= j < self.block_first_seen@.len() && (#[trigger] self.block_first_seen@[
                        j
                    ]).0@ == entries[i0].0@;
                assert(self.block_first_seen@[j].0@ == k);
            }
        }
    }

    /// `scan_mempool_at` at the current time.
    pub fn scan_mempool(&mut self, state: &MempoolState, current_block: u64) -> (r: Vec<
        CensorshipEvent,
    >)
        requires
            old(self).wf(),
        ensures
            final(self).wf(),
            final(self).config() == old(self).config(),
            exists|now: i64|
                now >= 0 && (r@, final(self).first_seen()) == #[trigger] scan_result(
                    pending_of(state.txs()),
                    old(self).first_seen(),
                    current_block,
                    (MempoolSnapshot {
                        timestamp: now,
                        fee_percentiles: percentiles_of(state.fees()),
                        tx_count: state.txs().len() as usize,
                    }),
                    old(self).config(),
                    now,
                ),
    {
        let now = current_timestamp();
        self.scan_mempool_at(state, current_block, now)
    }
}

/// With a zero threshold fee (an empty or degenerate distribution) no
/// transaction yields an event, whatever its other fields.
pub proof fn lemma_zero_threshold_no_event(
    tx: PendingTx,
    first_block: u64,
    current_block: u64,
    snapshot: MempoolSnapshot,
    config: Config,
    now: i64,
)
    requires
        snapshot.fee_percentiles.p25 == 0,
    ensures
        event_for(tx, first_block, current_block, snapshot, config, now) is None,
{
}

} // verus!
