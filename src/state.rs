//! The mempool state tracker: the registry of tracked transactions and the
//! priority-fee distribution that the percentiles are computed from.
//!
//! The tracker is a plain value; callers that share it between tasks guard it
//! with a lock, and `snapshot_and_pending` gives one consistent view of both
//! the percentiles and the pending list.
use vstd::prelude::*;
use crate::clock::current_timestamp;
use crate::fees::{fee_percentiles, percentiles_of};
use crate::types::{MempoolSnapshot, PendingTx, TrackedTx, TxStatus};

verus! {

/// Some tracked transaction has hash `h`.
pub open spec fn has_hash(txs: Seq<TrackedTx>, h: Seq<char>) -> bool {
    exists|i: int| 0 <= i < txs.len() && (#[trigger] txs[i]).tx.hash@ == h
}

/// No two tracked transactions share a hash.
pub open spec fn distinct_hashes(txs: Seq<TrackedTx>) -> bool {
    forall|i: int, j: int|
        0 <= i < txs.len() && 0 <= j < txs.len() && i != j ==> (#[trigger] txs[i]).tx.hash@
            != (#[trigger] txs[j]).tx.hash@
}

/// The registry and the distribution after `add` of `tx` at time `now`: a new
/// hash is appended as `Pending` and its fee joins the distribution; a known
/// hash changes nothing.
pub open spec fn after_add(txs: Seq<TrackedTx>, fees: Seq<u128>, tx: PendingTx, now: i64) -> (
    Seq<TrackedTx>,
    Seq<u128>,
) {
    if has_hash(txs, tx.hash@) {
        (txs, fees)
    } else {
        (
            txs.push(TrackedTx { tx: tx, status: TxStatus::Pending, last_checked: now }),
            fees.push(tx.max_priority_fee),
        )
    }
}

/// `h` is one of `hashes`.
pub open spec fn listed(hashes: Seq<String>, h: Seq<char>) -> bool {
    exists|j: int| 0 <= j < hashes.len() && (#[trigger] hashes[j])@ == h
}

/// One transaction after the `Pending` transactions whose hash is in
/// `hashes` moved to status `to` at time `now`.
pub open spec fn moved(t: TrackedTx, hashes: Seq<String>, to: TxStatus, now: i64) -> TrackedTx {
    if t.status is Pending && listed(hashes, t.tx.hash@) {
        TrackedTx { tx: t.tx, status: to, last_checked: now }
    } else {
        t
    }
}

/// One transaction after a block with `hashes` was mined as number `block`.
pub open spec fn marked(t: TrackedTx, hashes: Seq<String>, block: u64, now: i64) -> TrackedTx {
    moved(t, hashes, TxStatus::Included { block_number: block }, now)
}

/// The registry after `markIncluded`.
pub open spec fn after_mark(txs: Seq<TrackedTx>, hashes: Seq<String>, block: u64, now: i64) -> Seq<
    TrackedTx,
> {
    txs.map_values(|t: TrackedTx| marked(t, hashes, block, now))
}

/// The registry after the transactions with `hashes` were flagged as
/// plausibly censored.
pub open spec fn after_flag(txs: Seq<TrackedTx>, hashes: Seq<String>, now: i64) -> Seq<TrackedTx> {
    txs.map_values(|t: TrackedTx| moved(t, hashes, TxStatus::PotentiallyCensored, now))
}

/// Selects the transactions in `Pending` status.
pub open spec fn pending_pred() -> spec_fn(TrackedTx) -> bool {
    |t: TrackedTx| t.status is Pending
}

/// The pending transactions, in registry order.
pub open spec fn pending_of(txs: Seq<TrackedTx>) -> Seq<TrackedTx> {
    txs.filter(pending_pred())
}

/// Selects the transactions that `cleanup(max_age)` keeps at time `now`:
/// those `Pending` or `PotentiallyCensored`, and those whose last status
/// change is not older than `now - max_age`.
pub open spec fn survives_pred(max_age: i64, now: i64) -> spec_fn(TrackedTx) -> bool {
    |t: TrackedTx|
        t.status is Pending || t.status is PotentiallyCensored || t.last_checked >= now - max_age
}

/// The registry after `cleanup(max_age)` at time `now`.
pub open spec fn after_cleanup(txs: Seq<TrackedTx>, max_age: i64, now: i64) -> Seq<TrackedTx> {
    txs.filter(survives_pred(max_age, now))
}

/// The priority fees of the pending transactions, in registry order.
pub open spec fn pending_fees(txs: Seq<TrackedTx>) -> Seq<u128> {
    pending_of(txs).map_values(|t: TrackedTx| t.tx.max_priority_fee)
}

/// The registry of tracked transactions and the fee distribution.
pub struct MempoolState {
    tracked_txs: Vec<TrackedTx>,
    fee_distribution: Vec<u128>,
}

impl MempoolState {
    /// The tracked transactions, in order of first observation.
    pub closed spec fn txs(&self) -> Seq<TrackedTx> {
        self.tracked_txs@
    }

    /// The fee distribution that the percentiles are computed from.
    pub closed spec fn fees(&self) -> Seq<u128> {
        self.fee_distribution@
    }

    /// Hashes identify tracked transactions.
    pub open spec fn wf(&self) -> bool {
        distinct_hashes(self.txs())
    }

    /// An empty tracker.
    pub fn new() -> (r: MempoolState)
        ensures
            r.wf(),
            r.txs() == Seq::<TrackedTx>::empty(),
            r.fees() == Seq::<u128>::empty(),
    {
        MempoolState { tracked_txs: Vec::new(), fee_distribution: Vec::new() }
    }

    /// Position of the transaction with hash `hash`, if it is tracked.
    fn position_of(&self, hash: &String) -> (r: Option<usize>)
        ensures
            r matches Some(i) ==> i < self.txs().len() && self.txs()[i as int].tx.hash@ == hash@,
            r is None ==> !has_hash(self.txs(), hash@),
    {
        let mut i: usize = 0;
        while i < self.tracked_txs.len()
            invariant
                i <= self.tracked_txs@.len(),
                forall|k: int| 0 <= k < i ==> (#[trigger] self.tracked_txs@[k]).tx.hash@ != hash@,
            decreases self.tracked_txs@.len() - i,
        {
            if self.tracked_txs[i].tx.hash == *hash {
                return Some(i);
            }
            i = i + 1;
        }
        None
    }

    /// Starts tracking `tx` as `Pending` at time `now`, and adds its priority
    /// fee to the distribution; a hash already tracked is left as it is.
    pub fn add_tx_at(&mut self, tx: PendingTx, now: i64)
        requires
            old(self).wf(),
        ensures
            final(self).wf(),
            (final(self).txs(), final(self).fees()) == after_add(
                old(self).txs(),
                old(self).fees(),
                tx,
                now,
            ),
    {
        match self.position_of(&tx.hash) {
            Some(_) => {},
            None => {
                let fee = tx.max_priority_fee;
                self.tracked_txs.push(TrackedTx { tx, status: TxStatus::Pending, last_checked: now });
                self.fee_distribution.push(fee);
            },
        }
    }

    /// `add_tx_at` at the current time.
    pub fn add_tx(&mut self, tx: PendingTx)
        requires
            old(self).wf(),
        ensures
            final(self).wf(),
            exists|now: i64|
                now >= 0 && (final(self).txs(), final(self).fees()) == #[trigger] after_add(
                    old(self).txs(),
                    old(self).fees(),
                    tx,
                    now,
                ),
    {
        let now = current_timestamp();
        let ghost t = tx;
        self.add_tx_at(tx, now);
        assert((self.txs(), self.fees()) == after_add(old(self).txs(), old(self).fees(), t, now));
    }

    /// Moves every `Pending` transaction whose hash is in `hashes` to status
    /// `to` and stamps it with `now`; other hashes are ignored.
    fn move_listed(&mut self, hashes: &[String], to: TxStatus, now: i64)
        requires
            old(self).wf(),
        ensures
            final(self).wf(),
            final(self).txs() == old(self).txs().map_values(
                |t: TrackedTx| moved(t, hashes@, to, now),
            ),
            final(self).fees() == old(self).fees(),
    {
        let ghost before = self.tracked_txs@;
        let mut out: Vec<TrackedTx> = Vec::new();
        let mut i: usize = 0;
        while i < self.tracked_txs.len()
            invariant
                self.tracked_txs@ == before,
                i <= before.len(),
                out@.len() == i,
                forall|k: int|
                    0 <= k < i ==> #[trigger] out@[k] == moved(before[k], hashes@, to, now),
            decreases before.len() - i,
        {
            let t = &self.tracked_txs[i];
            let hit = match t.status {
                TxStatus::Pending => is_listed(hashes, &t.tx.hash),
                _ => false,
            };
            assert(hit == (t.status is Pending && listed(hashes@, t.tx.hash@)));
            if hit {
                out.push(
                    TrackedTx {
                        tx: t.tx.copied(),
                        status: to,
                        last_checked: now,
                    },
                );
            } else {
                out.push(t.copied());
            }
            i = i + 1;
        }
        self.tracked_txs = out;
        assert(self.tracked_txs@ =~= before.map_values(|t: TrackedTx| moved(t, hashes@, to, now)));
    }

    /// Moves every `Pending` transaction whose hash is in `hashes` to
    /// `Included { block_number }` and stamps it with `now`; other hashes are
    /// ignored.
    pub fn mark_included_txs_at(&mut self, hashes: &[String], block_number: u64, now: i64)
        requires
            old(self).wf(),
        ensures
            final(self).wf(),
            final(self).txs() == after_mark(old(self).txs(), hashes@, block_number, now),
            final(self).fees() == old(self).fees(),
    {
        self.move_listed(hashes, TxStatus::Included { block_number }, now);
        assert(self.txs() =~= after_mark(old(self).txs(), hashes@, block_number, now));
    }

    /// Moves every `Pending` transaction whose hash is in `hashes` to
    /// `PotentiallyCensored` and stamps it with `now`; other hashes are
    /// ignored.
    pub fn mark_censored_txs_at(&mut self, hashes: &[String], now: i64)
        requires
            old(self).wf(),
        ensures
            final(self).wf(),
            final(self).txs() == after_flag(old(self).txs(), hashes@, now),
            final(self).fees() == old(self).fees(),
    {
        self.move_listed(hashes, TxStatus::PotentiallyCensored, now);
        assert(self.txs() =~= after_flag(old(self).txs(), hashes@, now));
    }

    /// `mark_included_txs_at` at the current time.
    pub fn mark_included_txs(&mut self, hashes: &[String], block_number: u64)
        requires
            old(self).wf(),
        ensures
            final(self).wf(),
            exists|now: i64|
                now >= 0 && final(self).txs() == #[trigger] after_mark(
                    old(self).txs(),
                    hashes@,
                    block_number,
                    now,
                ),
            final(self).fees() == old(self).fees(),
    {
        let now = current_timestamp();
        self.mark_included_txs_at(hashes, block_number, now);
    }

    /// The percentiles of the fee distribution and the tracked count, stamped
    /// `now`.
    pub fn calculate_snapshot_at(&self, now: i64) -> (r: MempoolSnapshot)
        ensures
            r == (MempoolSnapshot {
                timestamp: now,
                fee_percentiles: percentiles_of(self.fees()),
                tx_count: self.txs().len() as usize,
            }),
            r.tx_count == self.txs().len(),
    {
        MempoolSnapshot {
            timestamp: now,
            fee_percentiles: fee_percentiles(&self.fee_distribution),
            tx_count: self.tracked_txs.len(),
        }
    }

    /// `calculate_snapshot_at` at the current time.
    pub fn calculate_snapshot(&self) -> (r: MempoolSnapshot)
        ensures
            r.timestamp >= 0,
            r.fee_percentiles == percentiles_of(self.fees()),
            r.tx_count == self.txs().len(),
    {
        let now = current_timestamp();
        self.calculate_snapshot_at(now)
    }

    /// A copy of every transaction in `Pending` status, in registry order.
    pub fn get_pending_txs(&self) -> (r: Vec<TrackedTx>)
        ensures
            r@ == pending_of(self.txs()),
    {
        let ghost all = self.tracked_txs@;
        let mut out: Vec<TrackedTx> = Vec::new();
        let mut i: usize = 0;
        while i < self.tracked_txs.len()
            invariant
                self.tracked_txs@ == all,
                i <= all.len(),
                out@ == all.subrange(0, i as int).filter(pending_pred()),
            decreases all.len() - i,
        {
            let t = &self.tracked_txs[i];
            proof {
                reveal(Seq::filter);
                assert(all.subrange(0, i + 1).drop_last() == all.subrange(0, i as int));
            }
            if let TxStatus::Pending = t.status {
                out.push(t.copied());
            }
            i = i + 1;
        }
        assert(all.subrange(0, all.len() as int) == all);
        out
    }

    /// The snapshot and the pending list, taken from one view of the state.
    pub fn snapshot_and_pending(&self, now: i64) -> (r: (MempoolSnapshot, Vec<TrackedTx>))
        ensures
            r.0 == (MempoolSnapshot {
                timestamp: now,
                fee_percentiles: percentiles_of(self.fees()),
                tx_count: self.txs().len() as usize,
            }),
            r.1@ == pending_of(self.txs()),
    {
        (self.calculate_snapshot_at(now), self.get_pending_txs())
    }

    /// Evicts the transactions that are neither `Pending` nor
    /// `PotentiallyCensored` and whose last status change is older than
    /// `now - max_age_secs` (strictly before it), then rebuilds the fee distribution from the
    /// pending transactions that remain.
    pub fn cleanup_old_txs_at(&mut self, max_age_secs: i64, now: i64)
        requires
            old(self).wf(),
        ensures
            final(self).wf(),
            final(self).txs() == after_cleanup(old(self).txs(), max_age_secs, now),
            final(self).fees() == pending_fees(final(self).txs()),
    {
        broadcast use vstd::seq_lib::group_filter_ensures;

        let ghost all = self.tracked_txs@;
        let cutoff: i128 = now as i128 - max_age_secs as i128;
        let mut kept: Vec<TrackedTx> = Vec::new();
        let mut fees: Vec<u128> = Vec::new();
        let mut i: usize = 0;
        while i < self.tracked_txs.len()
            invariant
                self.tracked_txs@ == all,
                cutoff == now - max_age_secs,
                i <= all.len(),
                kept@ == all.subrange(0, i as int).filter(survives_pred(max_age_secs, now)),
                fees@ == pending_fees(kept@),
            decreases all.len() - i,
        {
            let t = &self.tracked_txs[i];
            proof {
                reveal(Seq::filter);
                assert(all.subrange(0, i + 1).drop_last() == all.subrange(0, i as int));
            }
            let keep = match t.status {
                TxStatus::Pending => true,
                TxStatus::PotentiallyCensored => true,
                _ => t.last_checked as i128 >= cutoff,
            };
            if keep {
                let ghost k0 = kept@;
                kept.push(t.copied());
                proof {
                    reveal(Seq::filter);
                    assert(kept@.drop_last() == k0);
                    assert(pending_of(kept@) == if t.status is Pending {
                        pending_of(k0).push(*t)
                    } else {
                        pending_of(k0)
                    });
                }
                if let TxStatus::Pending = t.status {
                    fees.push(t.tx.max_priority_fee);
                    assert(fees@ =~= pending_fees(kept@));
                } else {
                    assert(fees@ =~= pending_fees(kept@));
                }
            }
            i = i + 1;
        }
        assert(all.subrange(0, all.len() as int) == all);
        proof {
            assert forall|a: int, b: int|
                0 <= a < kept@.len() && 0 <= b < kept@.len() && a != b implies (
            #[trigger] kept@[a]).tx.hash@ != (#[trigger] kept@[b]).tx.hash@ by {
                lemma_filter_keeps_distinct(all, survives_pred(max_age_secs, now));
            }
        }
        self.tracked_txs = kept;
        self.fee_distribution = fees;
    }

    /// `cleanup_old_txs_at` at the current time.
    pub fn cleanup_old_txs(&mut self, max_age_secs: i64)
        requires
            old(self).wf(),
        ensures
            final(self).wf(),
            exists|now: i64|
                now >= 0 && final(self).txs() == #[trigger] after_cleanup(
                    old(self).txs(),
                    max_age_secs,
                    now,
                ),
            final(self).fees() == pending_fees(final(self).txs()),
    {
        let now = current_timestamp();
        self.cleanup_old_txs_at(max_age_secs, now);
    }

    /// The number of tracked transactions.
    pub fn get_tx_count(&self) -> (r: usize)
        ensures
            r == self.txs().len(),
    {
        self.tracked_txs.len()
    }

    /// The status of the transaction with hash `hash`, if it is tracked.
    pub fn status_of(&self, hash: &String) -> (r: Option<TxStatus>)
        requires
            self.wf(),
        ensures
            r is None <==> !has_hash(self.txs(), hash@),
            forall|i: int|
                0 <= i < self.txs().len() && (#[trigger] self.txs()[i]).tx.hash@ == hash@ ==> r
                    == Some(self.txs()[i].status),
    {
        match self.position_of(hash) {
            Some(i) => Some(self.tracked_txs[i].status),
            None => None,
        }
    }

    /// Whether a transaction with hash `hash` is tracked and `Pending`.
    pub fn is_pending(&self, hash: &String) -> (r: bool)
        requires
            self.wf(),
        ensures
            r == has_hash(pending_of(self.txs()), hash@),
    {
        broadcast use vstd::seq_lib::group_filter_ensures;

        let ghost txs = self.txs();
        let ghost p = pending_of(txs);
        match self.position_of(hash) {
            Some(i) => {
                let r = match self.tracked_txs[i].status {
                    TxStatus::Pending => true,
                    _ => false,
                };
                proof {
                    if r {
                        assert(p.contains(txs[i as int]));
                        let k = choose|k: int| 0 <= k < p.len() && p[k] == txs[i as int];
                    } else {
                        assert forall|k: int| 0 <= k < p.len() implies (#[trigger] p[k]).tx.hash@
                            != hash@ by {
                            assert(p.contains(p[k]));
                            txs.lemma_filter_contains_rev(pending_pred(), p[k]);
                            let j = choose|j: int| 0 <= j < txs.len() && txs[j] == p[k];
                            assert(pending_pred()(p[k]));
                        }
                    }
                }
                r
            },
            None => {
                proof {
                    assert forall|k: int| 0 <= k < p.len() implies (#[trigger] p[k]).tx.hash@
                        != hash@ by {
                        assert(p.contains(p[k]));
                        txs.lemma_filter_contains_rev(pending_pred(), p[k]);
                        let j = choose|j: int| 0 <= j < txs.len() && txs[j] == p[k];
                    }
                }
                false
            },
        }
    }

    /// The fee distribution.
    pub fn fee_distribution(&self) -> (r: &Vec<u128>)
        ensures
            r@ == self.fees(),
    {
        &self.fee_distribution
    }
}

/// Whether `h` is one of `hashes`.
fn is_listed(hashes: &[String], h: &String) -> (r: bool)
    ensures
        r == listed(hashes@, h@),
{
    let mut j: usize = 0;
    while j < hashes.len()
        invariant
            j <= hashes@.len(),
            forall|k: int| 0 <= k < j ==> (#[trigger] hashes@[k])@ != h@,
        decreases hashes@.len() - j,
    {
        if hashes[j] == *h {
            return true;
        }
        j = j + 1;
    }
    false
}

/// Filtering a registry keeps its hashes distinct.
proof fn lemma_filter_keeps_distinct(txs: Seq<TrackedTx>, pred: spec_fn(TrackedTx) -> bool)
    requires
        distinct_hashes(txs),
    ensures
        distinct_hashes(txs.filter(pred)),
    decreases txs.len(),
{
    broadcast use vstd::seq_lib::group_filter_ensures;

    reveal(Seq::filter);
    if txs.len() > 0 {
        let rest = txs.drop_last();
        assert(distinct_hashes(rest));
        lemma_filter_keeps_distinct(rest, pred);
        if pred(txs.last()) {
            let f = rest.filter(pred);
            assert forall|k: int| 0 <= k < f.len() implies (#[trigger] f[k]).tx.hash@
                != txs.last().tx.hash@ by {
                assert(f.contains(f[k]));
                rest.lemma_filter_contains_rev(pred, f[k]);
                let i = choose|i: int| 0 <= i < rest.len() && rest[i] == f[k];
                assert(txs[i] == rest[i]);
                assert(txs[txs.len() - 1] == txs.last());
            }
        }
    }
}

/// Adding the same transaction twice gives what adding it once gave: the
/// registry then holds exactly one entry with its hash, and its fee joined the
/// distribution once.
pub proof fn lemma_add_idempotent(
    txs: Seq<TrackedTx>,
    fees: Seq<u128>,
    tx: PendingTx,
    now1: i64,
    now2: i64,
)
    requires
        distinct_hashes(txs),
    ensures
        ({
            let once = after_add(txs, fees, tx, now1);
            &&& after_add(once.0, once.1, tx, now2) == once
            &&& has_hash(once.0, tx.hash@)
            &&& distinct_hashes(once.0)
            &&& once.1.len() == fees.len() + if has_hash(txs, tx.hash@) {
                0int
            } else {
                1int
            }
        }),
{
    let once = after_add(txs, fees, tx, now1);
    if !has_hash(txs, tx.hash@) {
        assert(once.0[txs.len() as int].tx.hash@ == tx.hash@);
    }
}

/// Marking inclusion never changes a transaction that is not `Pending`.
pub proof fn lemma_mark_keeps_settled(
    txs: Seq<TrackedTx>,
    hashes: Seq<String>,
    block: u64,
    now: i64,
)
    ensures
        after_mark(txs, hashes, block, now).len() == txs.len(),
        forall|i: int|
            0 <= i < txs.len() && !(txs[i].status is Pending) ==> #[trigger] after_mark(
                txs,
                hashes,
                block,
                now,
            )[i] == txs[i],
{
}

/// Cleanup keeps every `Pending` and `PotentiallyCensored` transaction,
/// however old. An `Included` transaction whose last status change is older
/// than `now - max_age` is gone afterwards, and no pending entry, from
/// which the rebuilt distribution is taken, carries its hash.
pub proof fn lemma_cleanup_retention(txs: Seq<TrackedTx>, max_age: i64, now: i64)
    requires
        distinct_hashes(txs),
    ensures
        forall|i: int|
            0 <= i < txs.len() && (txs[i].status is Pending || txs[i].status is PotentiallyCensored)
                ==> after_cleanup(txs, max_age, now).contains(#[trigger] txs[i]),
        forall|i: int|
            0 <= i < txs.len() && #[trigger] txs[i].status is Included && txs[i].last_checked < now
                - max_age ==> !has_hash(after_cleanup(txs, max_age, now), txs[i].tx.hash@)
                && !has_hash(pending_of(after_cleanup(txs, max_age, now)), txs[i].tx.hash@),
{
    broadcast use vstd::seq_lib::group_filter_ensures;

    let pred = survives_pred(max_age, now);
    let kept = after_cleanup(txs, max_age, now);
    assert forall|i: int|
        0 <= i < txs.len() && #[trigger] txs[i].status is Included && txs[i].last_checked < now
            - max_age implies !has_hash(kept, txs[i].tx.hash@) && !has_hash(
        pending_of(kept),
        txs[i].tx.hash@,
    ) by {
        assert forall|k: int| 0 <= k < kept.len() implies (#[trigger] kept[k]).tx.hash@
            != txs[i].tx.hash@ by {
            assert(kept.contains(kept[k]));
            txs.lemma_filter_contains_rev(pred, kept[k]);
            let j = choose|j: int| 0 <= j < txs.len() && txs[j] == kept[k];
            assert(pred(kept[k]));
        }
        assert forall|k: int| 0 <= k < pending_of(kept).len() implies (#[trigger] pending_of(
            kept,
        )[k]).tx.hash@ != txs[i].tx.hash@ by {
            let e = pending_of(kept)[k];
            assert(pending_of(kept).contains(e));
            kept.lemma_filter_contains_rev(pending_pred(), e);
            let m = choose|m: int| 0 <= m < kept.len() && kept[m] == e;
        }
    }
}

} // verus!
