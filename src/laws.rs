//! Properties of the project that span several operations.
use vstd::prelude::*;

use crate::allocation::{lemma_share_within_pool, lemma_sum_shares_within_pool, share, sum_shares};
use crate::ledger::{has_account, ledger_map, lemma_entry_within_sum, points_of, sum_points};
use crate::project::{Project, TaskStatus};
use crate::TipError;

verus! {

/// In every well-formed project (and every operation keeps a project
/// well-formed) the maintained point total is the sum of all contributors'
/// points.
pub proof fn lemma_total_is_sum_of_points(p: Project)
    requires
        p.wf(),
    ensures
        p.total() == sum_points(p.ledger()),
{
}

/// Adding a task and then completing it leaves the task complete and gives
/// the completer exactly one more point.
pub proof fn lemma_add_then_complete(
    p0: Project,
    p1: Project,
    p2: Project,
    id: u64,
    a: Seq<char>,
    r: Result<(), TipError>,
)
    requires
        p0.wf(),
        p0.total() < u64::MAX,
        Project::added(p0, p1, id),
        Project::completed(p1, p2, id, a, r),
    ensures
        r == Ok::<(), TipError>(()),
        p2.tasks().contains_key(id),
        p2.tasks()[id] == TaskStatus::COMPLETE,
        has_account(p2.ledger(), a),
        points_of(p2.ledger(), a) == points_of(p0.ledger(), a) + 1,
{
    assert(p1.tasks()[id] == TaskStatus::PENDING);
    let m = ledger_map(p2.ledger());
    assert(m.contains_key(a));
    assert(m[a] == points_of(p0.ledger(), a) + 1);
    assert(has_account(p2.ledger(), a));
}

/// Completing the same task twice awards points once: if the first call
/// succeeds, the second succeeds too and changes nothing.
pub proof fn lemma_complete_twice(
    p0: Project,
    p1: Project,
    p2: Project,
    id: u64,
    a: Seq<char>,
    b: Seq<char>,
    r1: Result<(), TipError>,
    r2: Result<(), TipError>,
)
    requires
        p0.wf(),
        Project::completed(p0, p1, id, a, r1),
        Project::completed(p1, p2, id, b, r2),
        r1 is Ok,
    ensures
        r2 == Ok::<(), TipError>(()),
        p2 == p1,
{
}

/// A payout round pays no contributor more than the pool, and all its
/// payouts together no more than the pool.
pub proof fn lemma_round_within_pool(p: Project)
    requires
        p.wf(),
        p.total() > 0,
    ensures
        forall|i: int|
            0 <= i < p.ledger().len() ==> share(#[trigger] p.ledger()[i].1, p.total(), p.pool())
                <= p.pool(),
        sum_shares(p.ledger(), p.total(), p.pool()) <= p.pool(),
{
    assert forall|i: int| 0 <= i < p.ledger().len() implies share(
        #[trigger] p.ledger()[i].1,
        p.total(),
        p.pool(),
    ) <= p.pool() by {
        lemma_entry_within_sum(p.ledger(), i);
        lemma_share_within_pool(p.ledger()[i].1, p.total(), p.pool());
    }
    lemma_sum_shares_within_pool(p.ledger(), p.total(), p.pool());
}

} // verus!
