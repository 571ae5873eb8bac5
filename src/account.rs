//! Ordering of account identities.
//!
//! Contributors are enumerated in ascending order of their identity so that
//! payout rounds are reproducible. Identities are compared character by
//! character on their Unicode scalar values; a proper prefix comes first.
use vstd::prelude::*;

verus! {

/// Strict lexicographic order on identities.
pub open spec fn account_lt(a: Seq<char>, b: Seq<char>) -> bool
    decreases a.len(),
{
    if a.len() == 0 {
        b.len() > 0
    } else if b.len() == 0 {
        false
    } else if a[0] != b[0] {
        (a[0] as int) < (b[0] as int)
    } else {
        account_lt(a.drop_first(), b.drop_first())
    }
}

pub proof fn lemma_account_lt_irreflexive(a: Seq<char>)
    ensures
        !account_lt(a, a),
    decreases a.len(),
{
    if a.len() > 0 {
        lemma_account_lt_irreflexive(a.drop_first());
    }
}

pub proof fn lemma_account_lt_transitive(a: Seq<char>, b: Seq<char>, c: Seq<char>)
    requires
        account_lt(a, b),
        account_lt(b, c),
    ensures
        account_lt(a, c),
    decreases a.len(),
{
    if a.len() > 0 && b.len() > 0 && c.len() > 0 {
        if a[0] == b[0] && b[0] == c[0] {
            lemma_account_lt_transitive(a.drop_first(), b.drop_first(), c.drop_first());
        }
    }
}

pub proof fn lemma_account_lt_total(a: Seq<char>, b: Seq<char>)
    requires
        a != b,
        !account_lt(a, b),
    ensures
        account_lt(b, a),
    decreases a.len(),
{
    if a.len() == 0 {
        assert(b.len() == 0 ==> a =~= b);
    } else if b.len() > 0 {
        if a[0] == b[0] {
            if a.drop_first() == b.drop_first() {
                assert(a =~= seq![a[0]] + a.drop_first());
                assert(b =~= seq![b[0]] + b.drop_first());
            }
            lemma_account_lt_total(a.drop_first(), b.drop_first());
        } else {
            assert((a[0] as int) != (b[0] as int));
        }
    }
}

/// Comparing after a common prefix is comparing the rest.
proof fn lemma_account_lt_skip(a: Seq<char>, b: Seq<char>, i: int)
    requires
        0 <= i <= a.len(),
        i <= b.len(),
        forall|j: int| 0 <= j < i ==> a[j] == b[j],
    ensures
        account_lt(a, b) == account_lt(a.skip(i), b.skip(i)),
    decreases i,
{
    if i > 0 {
        lemma_account_lt_skip(a.drop_first(), b.drop_first(), i - 1);
        assert(a.drop_first().skip(i - 1) =~= a.skip(i));
        assert(b.drop_first().skip(i - 1) =~= b.skip(i));
    } else {
        assert(a.skip(0) =~= a);
        assert(b.skip(0) =~= b);
    }
}

/// Decides `account_lt` on two identities.
pub fn account_less(a: &str, b: &str) -> (r: bool)
    ensures
        r == account_lt(a@, b@),
{
    let la = a.unicode_len();
    let lb = b.unicode_len();
    let mut i: usize = 0;
    while i < la && i < lb
        invariant
            la == a@.len(),
            lb == b@.len(),
            i <= la,
            i <= lb,
            forall|j: int| 0 <= j < i ==> a@[j] == b@[j],
        decreases la - i,
    {
        let ca = a.get_char(i);
        let cb = b.get_char(i);
        if ca != cb {
            proof {
                lemma_account_lt_skip(a@, b@, i as int);
                assert(a@.skip(i as int)[0] == ca);
                assert(b@.skip(i as int)[0] == cb);
            }
            return (ca as u32) < (cb as u32);
        }
        i = i + 1;
    }
    proof {
        lemma_account_lt_skip(a@, b@, i as int);
    }
    i < lb
}

} // verus!
