//! Proportional shares of the pool.
use vstd::prelude::*;
use vstd::arithmetic::div_mod::{
    lemma_fundamental_div_mod, lemma_fundamental_div_mod_converse, lemma_mod_bound,
};

use crate::ledger::{sum_points, Ledger};
use crate::TipError;

verus! {

/// The share of `pool` owed to a holder of `points` out of `total`:
/// `pool * points / total`, the division taken last.
pub open spec fn share(points: nat, total: nat, pool: nat) -> nat
    recommends
        total > 0,
{
    (pool * points) / total
}

/// Computes `share(points, total, pool)` exactly, without an intermediate
/// value that could overflow.
///
/// Fails with `DivisionByZero` when `total` is zero, and with `Overflow` when
/// the share itself does not fit in a `u128` (which cannot happen when
/// `points <= total`).
pub fn allocate_share(points: u64, total: u64, pool: u128) -> (r: Result<u128, TipError>)
    ensures
        total == 0 ==> r == Err::<u128, TipError>(TipError::DivisionByZero),
        total > 0 && share(points as nat, total as nat, pool as nat) <= u128::MAX ==> r == Ok::<
            u128,
            TipError,
        >(share(points as nat, total as nat, pool as nat) as u128),
        total > 0 && share(points as nat, total as nat, pool as nat) > u128::MAX ==> r == Err::<
            u128,
            TipError,
        >(TipError::Overflow),
{
    if total == 0 {
        return Err(TipError::DivisionByZero);
    }
    let t: u128 = total as u128;
    let p: u128 = points as u128;
    let q: u128 = pool / t;
    let rem: u128 = pool % t;
    assert(rem * p < t * 0x1_0000_0000_0000_0000) by (nonlinear_arith)
        requires
            rem < t,
            p < 0x1_0000_0000_0000_0000,
    ;
    assert(t * 0x1_0000_0000_0000_0000 <= u128::MAX) by (nonlinear_arith)
        requires
            t < 0x1_0000_0000_0000_0000,
    ;
    let low: u128 = rem * p / t;
    proof {
        let x = pool as int;
        let d = t as int;
        lemma_fundamental_div_mod(x, d);
        lemma_fundamental_div_mod((rem * p) as int, d);
        let s = (rem * p) as int / d;
        let r2 = (rem * p) as int % d;
        assert(x * p == (q * p + s) * d + r2) by (nonlinear_arith)
            requires
                x == d * q + rem,
                rem * p == d * s + r2,
        ;
        lemma_fundamental_div_mod_converse(x * p, d, q * p + s, r2);
        assert(share(points as nat, total as nat, pool as nat) == q * p + s);
        assert(s >= 0) by (nonlinear_arith)
            requires
                rem * p >= 0,
                d > 0,
                s == (rem * p) as int / d,
        ;
    }
    match q.checked_mul(p) {
        None => Err(TipError::Overflow),
        Some(high) => match high.checked_add(low) {
            None => Err(TipError::Overflow),
            Some(s) => Ok(s),
        },
    }
}

/// The shares of every entry of `l`, added up.
pub open spec fn sum_shares(l: Ledger, total: nat, pool: nat) -> nat
    decreases l.len(),
{
    if l.len() == 0 {
        0
    } else {
        sum_shares(l.drop_last(), total, pool) + share(l.last().1, total, pool)
    }
}

/// A holder of no more than all the points gets no more than the pool.
pub proof fn lemma_share_within_pool(points: nat, total: nat, pool: nat)
    requires
        0 < total,
        points <= total,
    ensures
        share(points, total, pool) <= pool,
{
    let s = share(points, total, pool);
    lemma_share_scaled(points, total, pool);
    assert(s <= pool) by (nonlinear_arith)
        requires
            s * total <= pool * points,
            points <= total,
            0 < total,
    ;
}

proof fn lemma_share_scaled(points: nat, total: nat, pool: nat)
    requires
        0 < total,
    ensures
        share(points, total, pool) * total <= pool * points,
{
    let x = (pool * points) as int;
    let d = total as int;
    lemma_fundamental_div_mod(x, d);
    lemma_mod_bound(x, d);
    assert((x / d) * d == d * (x / d)) by (nonlinear_arith);
}

/// Truncation only ever rounds down: the shares of a ledger, times the total,
/// never exceed the pool times the ledger's points.
pub proof fn lemma_sum_shares_scaled(l: Ledger, total: nat, pool: nat)
    requires
        0 < total,
    ensures
        sum_shares(l, total, pool) * total <= pool * sum_points(l),
    decreases l.len(),
{
    if l.len() > 0 {
        let x = l.last().1;
        let rest = sum_shares(l.drop_last(), total, pool);
        let s = share(x, total, pool);
        lemma_sum_shares_scaled(l.drop_last(), total, pool);
        lemma_share_scaled(x, total, pool);
        assert((rest + s) * total <= pool * (sum_points(l.drop_last()) + x)) by (nonlinear_arith)
            requires
                rest * total <= pool * sum_points(l.drop_last()),
                s * total <= pool * x,
        ;
        assert(sum_shares(l, total, pool) == rest + s);
        assert(sum_points(l) == sum_points(l.drop_last()) + x);
    } else {
        assert(sum_shares(l, total, pool) == 0);
        assert(0 * total == 0) by (nonlinear_arith);
    }
}

/// Whenever the points of `l` are at most `total`, its shares add up to no
/// more than the pool.
pub proof fn lemma_sum_shares_within_pool(l: Ledger, total: nat, pool: nat)
    requires
        0 < total,
        sum_points(l) <= total,
    ensures
        sum_shares(l, total, pool) <= pool,
{
    lemma_sum_shares_scaled(l, total, pool);
    let s = sum_shares(l, total, pool);
    assert(s <= pool) by (nonlinear_arith)
        requires
            s * total <= pool * sum_points(l),
            sum_points(l) <= total,
            0 < total,
    ;
}

} // verus!
