//! The contributor ledger as a mathematical sequence: one `(identity,
//! points)` entry per contributor, strictly ascending by identity.
use vstd::prelude::*;

use crate::account::{account_lt, lemma_account_lt_irreflexive};

verus! {

pub type Ledger = Seq<(Seq<char>, nat)>;

/// Entries are strictly ascending by identity, so no identity occurs twice.
pub open spec fn ledger_sorted(l: Ledger) -> bool {
    forall|i: int, j: int| 0 <= i < j < l.len() ==> account_lt(#[trigger] l[i].0, #[trigger] l[j].0)
}

/// The sum of all points in the ledger.
pub open spec fn sum_points(l: Ledger) -> nat
    decreases l.len(),
{
    if l.len() == 0 {
        0
    } else {
        sum_points(l.drop_last()) + l.last().1
    }
}

pub open spec fn has_account(l: Ledger, a: Seq<char>) -> bool {
    exists|i: int| 0 <= i < l.len() && #[trigger] l[i].0 == a
}

/// Points of `a`; zero for an identity with no record.
pub open spec fn points_of(l: Ledger, a: Seq<char>) -> nat {
    if has_account(l, a) {
        l[choose|i: int| 0 <= i < l.len() && #[trigger] l[i].0 == a].1
    } else {
        0
    }
}

/// The ledger as a map from identity to points.
pub open spec fn ledger_map(l: Ledger) -> Map<Seq<char>, nat> {
    Map::new(|a: Seq<char>| has_account(l, a), |a: Seq<char>| points_of(l, a))
}

/// Reading the ledger as a map gives the same records and points.
pub proof fn lemma_ledger_map(l: Ledger, a: Seq<char>)
    ensures
        ledger_map(l).contains_key(a) == has_account(l, a),
        ledger_map(l).contains_key(a) ==> ledger_map(l)[a] == points_of(l, a),
{
}

/// A sorted ledger that holds exactly one identity has exactly one entry.
pub proof fn lemma_single_entry(l: Ledger, a: Seq<char>)
    requires
        ledger_sorted(l),
        forall|k: Seq<char>| has_account(l, k) <==> k == a,
    ensures
        l.len() == 1,
{
    assert(has_account(l, a));
    let i = choose|i: int| 0 <= i < l.len() && #[trigger] l[i].0 == a;
    lemma_entry(l, i);
    if l.len() > 1 {
        let j = if i == 0 { 1int } else { 0int };
        assert(has_account(l, l[j].0));
    }
}

/// In a sorted ledger an identity names exactly one entry.
pub proof fn lemma_entry(l: Ledger, i: int)
    requires
        ledger_sorted(l),
        0 <= i < l.len(),
    ensures
        has_account(l, l[i].0),
        points_of(l, l[i].0) == l[i].1,
        forall|j: int| 0 <= j < l.len() && l[j].0 == l[i].0 ==> j == i,
{
    assert forall|j: int| 0 <= j < l.len() && l[j].0 == l[i].0 implies j == i by {
        lemma_account_lt_irreflexive(l[i].0);
        if j < i {
            assert(account_lt(l[j].0, l[i].0));
        } else if i < j {
            assert(account_lt(l[i].0, l[j].0));
        }
    }
    assert(has_account(l, l[i].0));
}

pub proof fn lemma_sum_update(l: Ledger, i: int, e: (Seq<char>, nat))
    requires
        0 <= i < l.len(),
    ensures
        sum_points(l.update(i, e)) + l[i].1 == sum_points(l) + e.1,
    decreases l.len(),
{
    let u = l.update(i, e);
    if i < l.len() - 1 {
        lemma_sum_update(l.drop_last(), i, e);
        assert(u.drop_last() =~= l.drop_last().update(i, e));
    } else {
        assert(u.drop_last() =~= l.drop_last());
    }
}

pub proof fn lemma_sum_insert(l: Ledger, i: int, e: (Seq<char>, nat))
    requires
        0 <= i <= l.len(),
    ensures
        sum_points(l.insert(i, e)) == sum_points(l) + e.1,
    decreases l.len(),
{
    let u = l.insert(i, e);
    if i < l.len() {
        lemma_sum_insert(l.drop_last(), i, e);
        assert(u.drop_last() =~= l.drop_last().insert(i, e));
    } else {
        assert(u.drop_last() =~= l);
    }
}

/// The points of a prefix never exceed those of the whole ledger.
pub proof fn lemma_sum_prefix(l: Ledger, i: int)
    requires
        0 <= i <= l.len(),
    ensures
        sum_points(l.take(i)) <= sum_points(l),
    decreases l.len(),
{
    if i < l.len() {
        lemma_sum_prefix(l.drop_last(), i);
        assert(l.drop_last().take(i) =~= l.take(i));
    } else {
        assert(l.take(i) =~= l);
    }
}

/// No single entry holds more points than the whole ledger.
pub proof fn lemma_entry_within_sum(l: Ledger, i: int)
    requires
        0 <= i < l.len(),
    ensures
        l[i].1 <= sum_points(l),
{
    lemma_sum_prefix(l, i + 1);
    assert(l.take(i + 1).drop_last() =~= l.take(i));
}

} // verus!
