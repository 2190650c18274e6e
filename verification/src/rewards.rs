use vstd::prelude::*;
use vstd::arithmetic::div_mod::{
    lemma_fundamental_div_mod, lemma_hoist_over_denominator, lemma_div_is_ordered,
    lemma_div_multiples_vanish, lemma_div_pos_is_pos,
};
use vstd::arithmetic::mul::{
    lemma_mul_inequality, lemma_mul_is_distributive_add, lemma_mul_is_commutative,
    lemma_mul_nonnegative,
};

verus! {

/// The reward owed to one stake of weight `w` when an amount `r` is
/// distributed over a total weight `t`: the rounded-down proportional share.
pub open spec fn share(r: int, w: int, t: int) -> int {
    (r * w) / t
}

/// The sum of a sequence of weights.
pub open spec fn sum_weights(ws: Seq<int>) -> int
    decreases ws.len(),
{
    if ws.len() == 0 {
        0
    } else {
        sum_weights(ws.drop_last()) + ws.last()
    }
}

/// The total paid out when `r` is distributed over stakes of weights `ws`
/// against a total weight `t`.
pub open spec fn sum_shares(r: int, ws: Seq<int>, t: int) -> int
    decreases ws.len(),
{
    if ws.len() == 0 {
        0
    } else {
        sum_shares(r, ws.drop_last(), t) + share(r, ws.last(), t)
    }
}

/// Splitting `r` by the total weight decomposes the share exactly:
/// with `q = r / t` and `rem = r % t`,
/// `share(r, w, t) == q * w + (rem * w) / t`, and the share never exceeds
/// the distributed amount.
proof fn lemma_share_decomposition(r: int, w: int, t: int)
    requires
        r >= 0,
        t > 0,
        0 <= w <= t,
    ensures
        share(r, w, t) == (r / t) * w + ((r % t) * w) / t,
        0 <= (r / t) * w <= share(r, w, t),
        0 <= ((r % t) * w) / t,
        share(r, w, t) <= r,
{
    let q = r / t;
    let rem = r % t;
    lemma_fundamental_div_mod(r, t);
    lemma_div_pos_is_pos(r, t);
    lemma_mul_nonnegative(q, w);
    lemma_mul_nonnegative(rem, w);
    lemma_div_pos_is_pos(rem * w, t);
    assert(r * w == (q * w) * t + rem * w) by (nonlinear_arith)
        requires
            r == t * q + rem,
    ;
    lemma_hoist_over_denominator(rem * w, q * w, t as nat);
    // share(r, w, t) <= r because r * w <= r * t.
    lemma_mul_inequality(w, t, r);
    lemma_mul_is_commutative(w, r);
    lemma_mul_is_commutative(t, r);
    lemma_div_is_ordered(r * w, r * t, t);
    lemma_div_multiples_vanish(r, t);
    lemma_mul_is_commutative(r, t);
    // (rem * w) / t >= 0 makes q * w a lower bound of the share.
    assert((q * w) * t + rem * w == t * (q * w) + rem * w) by (nonlinear_arith);
}

/// Computes the rounded-down proportional share `r * w / t` exactly, without
/// overflow, for any pool amount `r` and any stake weight `w` that is part of
/// the total weight `t`.
pub fn compute_share(r: u128, w: u64, t: u64) -> (s: u128)
    requires
        t > 0,
        w <= t,
    ensures
        s == share(r as int, w as int, t as int),
        s <= r,
{
    proof {
        lemma_share_decomposition(r as int, w as int, t as int);
        assert(((r as int) % (t as int)) * (w as int) < (t as int) * (t as int)) by (nonlinear_arith)
            requires
                0 <= (r as int) % (t as int) < (t as int),
                0 <= w as int <= t as int,
                t as int > 0,
        ;
        assert((t as int) * (t as int) <= u64::MAX as int * u64::MAX as int) by (nonlinear_arith)
            requires
                0 < t as int <= u64::MAX as int,
        ;
    }
    let q: u128 = r / (t as u128);
    let rem: u128 = r % (t as u128);
    q * (w as u128) + (rem * (w as u128)) / (t as u128)
}

/// Summing shares distributes over concatenation of weight sequences.
pub proof fn lemma_sum_shares_concat(r: int, a: Seq<int>, b: Seq<int>, t: int)
    ensures
        sum_shares(r, a + b, t) == sum_shares(r, a, t) + sum_shares(r, b, t),
    decreases b.len(),
{
    if b.len() == 0 {
        assert(a + b =~= a);
    } else {
        assert((a + b).drop_last() =~= a + b.drop_last());
        assert((a + b).last() == b.last());
        lemma_sum_shares_concat(r, a, b.drop_last(), t);
    }
}

/// One step of the loss bound: the rounding loss of a single stake is at
/// most `t - 1`, and vanishes entirely for a zero-weight stake.
proof fn lemma_single_loss_bound(r: int, w: int, t: int)
    requires
        r >= 0,
        w >= 0,
        t > 0,
    ensures
        0 <= r * w - t * share(r, w, t) <= (t - 1) * w,
{
    lemma_mul_nonnegative(r, w);
    lemma_fundamental_div_mod(r * w, t);
    if w == 0 {
        assert(r * w == 0) by (nonlinear_arith)
            requires
                w == 0,
        ;
        assert(share(r, 0, t) == 0) by {
            lemma_div_pos_is_pos(0, t);
            lemma_div_is_ordered(0, 0, t);
        }
    } else {
        // The loss is the remainder of r * w by t, which is below t, and
        // t - 1 <= (t - 1) * w for a positive weight.
        lemma_mul_inequality(1, w, t - 1);
        lemma_mul_is_commutative(w, t - 1);
        assert(r * w - t * ((r * w) / t) == (r * w) % t);
    }
}

/// The accumulated rounding loss over any weight sequence stays between
/// zero and `(t - 1) *` the summed weight.
proof fn lemma_shares_loss_bound(r: int, ws: Seq<int>, t: int)
    requires
        r >= 0,
        t > 0,
        forall|i: int| 0 <= i < ws.len() ==> ws[i] >= 0,
    ensures
        0 <= r * sum_weights(ws) - t * sum_shares(r, ws, t),
        r * sum_weights(ws) - t * sum_shares(r, ws, t) <= (t - 1) * sum_weights(ws),
    decreases ws.len(),
{
    if ws.len() == 0 {
        assert(r * 0 == 0) by (nonlinear_arith);
        assert(t * 0 == 0) by (nonlinear_arith);
        assert((t - 1) * 0 == 0) by (nonlinear_arith);
    } else {
        let prefix = ws.drop_last();
        let w = ws.last();
        assert(forall|i: int| 0 <= i < prefix.len() ==> prefix[i] >= 0);
        lemma_shares_loss_bound(r, prefix, t);
        lemma_single_loss_bound(r, w, t);
        lemma_mul_is_distributive_add(r, sum_weights(prefix), w);
        lemma_mul_is_distributive_add(t, sum_shares(r, prefix, t), share(r, w, t));
        lemma_mul_is_distributive_add(t - 1, sum_weights(prefix), w);
    }
}

/// Every share is non-negative, so the paid-out total is as well.
proof fn lemma_sum_shares_nonneg(r: int, ws: Seq<int>, t: int)
    requires
        r >= 0,
        t > 0,
        forall|i: int| 0 <= i < ws.len() ==> ws[i] >= 0,
    ensures
        sum_shares(r, ws, t) >= 0,
    decreases ws.len(),
{
    if ws.len() > 0 {
        let prefix = ws.drop_last();
        assert(forall|i: int| 0 <= i < prefix.len() ==> prefix[i] >= 0);
        lemma_sum_shares_nonneg(r, prefix, t);
        lemma_mul_nonnegative(r, ws.last());
        lemma_div_pos_is_pos(r * ws.last(), t);
    }
}

/// Conservation of a distribution: paying every stake its rounded-down
/// proportional share of `r` never pays out more than `r` in total, and the
/// amount withheld by rounding stays below the total weight.  The residual
/// therefore remains in the pool as expected rounding loss.
pub proof fn lemma_distribution_conservation(r: int, ws: Seq<int>, t: int)
    requires
        r >= 0,
        t > 0,
        forall|i: int| 0 <= i < ws.len() ==> ws[i] >= 0,
        sum_weights(ws) == t,
    ensures
        0 <= sum_shares(r, ws, t) <= r,
        r - sum_shares(r, ws, t) < t,
{
    lemma_shares_loss_bound(r, ws, t);
    lemma_sum_shares_nonneg(r, ws, t);
    let s = sum_shares(r, ws, t);
    assert(s <= r) by (nonlinear_arith)
        requires
            t > 0,
            0 <= r * t - t * s,
    ;
    assert(r - s < t) by (nonlinear_arith)
        requires
            t > 0,
            r * t - t * s <= (t - 1) * t,
    ;
}

} // verus!
