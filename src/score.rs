//! Confidence scoring of a waiting transaction, in exact integer arithmetic.
//!
//! The score is `min(feeRatio * timeScore * 0.5, 1)` with
//! `feeRatio = fee / threshold` and `timeScore = min(blocks, 10) / 10`, that is
//! `min(fee * min(blocks, 10) / (20 * threshold), 1)`. It is reported in
//! millionths, rounded down.
use vstd::prelude::*;
use vstd::arithmetic::div_mod::{
    lemma_div_by_multiple,
    lemma_div_by_multiple_is_strongly_ordered,
    lemma_div_is_ordered,
    lemma_fundamental_div_mod,
    lemma_fundamental_div_mod_converse,
};

verus! {

/// The score that stands for full confidence, in millionths.
pub const FULL_CONFIDENCE: u32 = 1_000_000;

/// The number of blocks after which waiting longer no longer raises the score.
pub const SATURATING_BLOCKS: u64 = 10;

/// `10 * timeScore`: blocks waited, capped at ten.
pub open spec fn time_tenths(blocks: nat) -> nat {
    if blocks >= 10 {
        10
    } else {
        blocks
    }
}

/// The confidence score in millionths:
/// `floor(1_000_000 * min(fee * time_tenths / (20 * threshold), 1))`.
pub open spec fn confidence_ppm(fee: nat, threshold: nat, blocks: nat) -> nat {
    if fee * time_tenths(blocks) >= 20 * threshold {
        1_000_000
    } else {
        fee * time_tenths(blocks) * 50_000 / threshold
    }
}

/// Multiplies the value `q * d + r` by `m`, and returns the product again as
/// quotient and remainder by `d`.
fn scale_by(q: u128, r: u128, m: u64, d: u128) -> (res: (u128, u128))
    requires
        d > 0,
        r < d,
        m <= 10,
        q <= 1_000_000_000_000,
    ensures
        res.1 < d,
        res.0 * d + res.1 == m * (q * d + r),
        res.0 <= 10 * q + 10,
{
    let mut c: u128 = 0;
    let mut s: u128 = 0;
    let mut j: u64 = 0;
    while j < m
        invariant
            j <= m,
            m <= 10,
            d > 0,
            r < d,
            s < d,
            c <= j,
            j * r == c * d + s,
        decreases m - j,
    {
        proof {
            assert((j + 1) * r == j * r + r) by (nonlinear_arith);
            assert((c + 1) * d == c * d + d) by (nonlinear_arith);
        }
        if s >= d - r {
            s = s - (d - r);
            c = c + 1;
        } else {
            s = s + r;
        }
        j = j + 1;
    }
    proof {
        assert(m * (q * d + r) == (m * q + c) * d + s) by (nonlinear_arith)
            requires
                m * r == c * d + s,
        ;
        assert(m * q <= 10 * q) by (nonlinear_arith)
            requires
                m <= 10,
        ;
    }
    ((m as u128) * q + c, s)
}

/// The confidence score, in millionths, of a transaction paying `fee` that has
/// waited `blocks_waited` blocks, against a threshold fee of `threshold`.
pub fn confidence_score(fee: u128, threshold: u128, blocks_waited: u64) -> (r: u32)
    requires
        threshold > 0,
    ensures
        r == confidence_ppm(fee as nat, threshold as nat, blocks_waited as nat),
        r <= FULL_CONFIDENCE,
{
    let tenths: u64 = if blocks_waited >= SATURATING_BLOCKS {
        SATURATING_BLOCKS
    } else {
        blocks_waited
    };
    let t = tenths as u128;
    assert(t == time_tenths(blocks_waited as nat));
    let a = fee / 20;
    let b = fee % 20;
    proof {
        assert(a * t <= a * 10) by (nonlinear_arith)
            requires
                t <= 10,
        ;
        assert(b * t <= 190) by (nonlinear_arith)
            requires
                b < 20,
                t <= 10,
        ;
    }
    let scaled = a * t + b * t / 20;
    proof {
        lemma_fundamental_div_mod(fee as int, 20);
        lemma_fundamental_div_mod((b * t) as int, 20);
        assert(fee * t == 20 * scaled + (b * t) % 20) by (nonlinear_arith)
            requires
                fee == 20 * a + b,
                b * t == 20 * ((b * t) / 20) + (b * t) % 20,
                scaled == a * t + (b * t) / 20,
        ;
    }
    if scaled >= threshold {
        return FULL_CONFIDENCE;
    }
    assert(fee * t < 20 * threshold);
    if tenths == 0 {
        return 0;
    }
    let q0 = fee / threshold;
    let r0 = fee % threshold;
    proof {
        lemma_fundamental_div_mod(fee as int, threshold as int);
        assert(q0 < 20) by (nonlinear_arith)
            requires
                fee == threshold * q0 + r0,
                fee * t < 20 * threshold,
                t >= 1,
                r0 >= 0,
                threshold > 0,
        ;
    }
    let (q1, r1) = scale_by(q0, r0, tenths, threshold);
    let (q2, r2) = scale_by(q1, r1, 5, threshold);
    let (q3, r3) = scale_by(q2, r2, 10, threshold);
    let (q4, r4) = scale_by(q3, r3, 10, threshold);
    let (q5, r5) = scale_by(q4, r4, 10, threshold);
    let (q6, r6) = scale_by(q5, r5, 10, threshold);
    proof {
        let v = fee * t * 50_000;
        assert(q6 * threshold + r6 == v) by (nonlinear_arith)
            requires
                q0 * threshold + r0 == fee,
                q1 * threshold + r1 == t * (q0 * threshold + r0),
                q2 * threshold + r2 == 5 * (q1 * threshold + r1),
                q3 * threshold + r3 == 10 * (q2 * threshold + r2),
                q4 * threshold + r4 == 10 * (q3 * threshold + r3),
                q5 * threshold + r5 == 10 * (q4 * threshold + r4),
                q6 * threshold + r6 == 10 * (q5 * threshold + r5),
                v == fee * t * 50_000,
        ;
        lemma_fundamental_div_mod_converse(v as int, threshold as int, q6 as int, r6 as int);
        assert(q6 < 1_000_000) by (nonlinear_arith)
            requires
                q6 * threshold + r6 == v,
                v == fee * t * 50_000,
                fee * t < 20 * threshold,
                r6 >= 0,
                threshold > 0,
        ;
    }
    q6 as u32
}

/// Below the cap the score is less than full confidence.
proof fn lemma_uncapped_below_full(fee: nat, threshold: nat, blocks: nat)
    requires
        threshold > 0,
        fee * time_tenths(blocks) < 20 * threshold,
    ensures
        fee * time_tenths(blocks) * 50_000 / threshold < 1_000_000,
{
    let v = fee * time_tenths(blocks) * 50_000;
    assert(v < 1_000_000 * threshold) by (nonlinear_arith)
        requires
            v == fee * time_tenths(blocks) * 50_000,
            fee * time_tenths(blocks) < 20 * threshold,
    ;
    lemma_div_by_multiple_is_strongly_ordered(
        v as int,
        (1_000_000 * threshold) as int,
        1_000_000,
        threshold as int,
    );
    lemma_div_by_multiple(1_000_000, threshold as int);
}

/// With the blocks waited and the threshold fixed, a higher fee never lowers
/// the score.
pub proof fn lemma_score_monotone_in_fee(fee1: nat, fee2: nat, threshold: nat, blocks: nat)
    requires
        fee1 <= fee2,
        threshold > 0,
    ensures
        confidence_ppm(fee1, threshold, blocks) <= confidence_ppm(fee2, threshold, blocks),
{
    let t = time_tenths(blocks);
    assert(fee1 * t <= fee2 * t) by (nonlinear_arith)
        requires
            fee1 <= fee2,
    ;
    if fee1 * t < 20 * threshold {
        lemma_uncapped_below_full(fee1, threshold, blocks);
        if fee2 * t < 20 * threshold {
            assert(fee1 * t * 50_000 <= fee2 * t * 50_000) by (nonlinear_arith)
                requires
                    fee1 * t <= fee2 * t,
            ;
            lemma_div_is_ordered(
                (fee1 * t * 50_000) as int,
                (fee2 * t * 50_000) as int,
                threshold as int,
            );
        }
    }
}

/// With the fee and the threshold (so the fee ratio) fixed, waiting more
/// blocks never lowers the score.
pub proof fn lemma_score_monotone_in_blocks(fee: nat, threshold: nat, blocks1: nat, blocks2: nat)
    requires
        blocks1 <= blocks2,
        threshold > 0,
    ensures
        confidence_ppm(fee, threshold, blocks1) <= confidence_ppm(fee, threshold, blocks2),
{
    let t1 = time_tenths(blocks1);
    let t2 = time_tenths(blocks2);
    assert(fee * t1 <= fee * t2) by (nonlinear_arith)
        requires
            t1 <= t2,
    ;
    if fee * t1 < 20 * threshold {
        lemma_uncapped_below_full(fee, threshold, blocks1);
        if fee * t2 < 20 * threshold {
            assert(fee * t1 * 50_000 <= fee * t2 * 50_000) by (nonlinear_arith)
                requires
                    fee * t1 <= fee * t2,
            ;
            lemma_div_is_ordered(
                (fee * t1 * 50_000) as int,
                (fee * t2 * 50_000) as int,
                threshold as int,
            );
        }
    }
}

/// Beyond ten blocks, waiting longer no longer changes the score.
pub proof fn lemma_score_flat_after_ten(fee: nat, threshold: nat, blocks1: nat, blocks2: nat)
    requires
        blocks1 >= 10,
        blocks2 >= 10,
    ensures
        confidence_ppm(fee, threshold, blocks1) == confidence_ppm(fee, threshold, blocks2),
{
}

} // verus!
