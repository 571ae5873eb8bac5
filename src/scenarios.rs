//! Worked examples of each operation, each proved to return `true` from the
//! operations' contracts alone.
use vstd::prelude::*;

use crate::allocation::share;
use crate::ledger::{points_of, has_account, lemma_ledger_map, lemma_single_entry, ledger_map};
use crate::project::{named, Project, TaskStatus};
use crate::TipError;

verus! {

/// One member completes a task; completing an unknown task is refused.
pub fn test_complete_activity() -> (r: bool)
    ensures
        r,
{
    let a = String::from_str("alice");
    let members = vec![a.clone()];
    proof {
        assert(members@[0]@ == a@);
        assert(named(members@, a@));
    }
    let mut p = Project::new(members);
    proof {
        lemma_ledger_map(p.ledger(), a@);
        assert(ledger_map(p.ledger())[a@] == 0);
    }
    p.add_task(1);
    let first = p.complete_activitiy(1, a.clone());
    proof {
        lemma_ledger_map(p.ledger(), a@);
    }
    let unknown = p.complete_activitiy(2, a.clone());
    let again = p.complete_activitiy(1, a.clone());
    let pts = p.activity_point(&a);
    let status = p.task_status(1);
    matches!(first, Ok(())) && matches!(unknown, Err(TipError::TaskNotFound)) && matches!(again, Ok(())) && pts == 1
        && p.total_activity_point() == 1 && matches!(status, Some(TaskStatus::COMPLETE))
}

/// Tips accumulate in the pool; a tip of zero is refused.
pub fn test_tip() -> (r: bool)
    ensures
        r,
{
    let mut p = Project::new(Vec::new());
    let first = p.tip(5);
    let zero = p.tip(0);
    let second = p.tip(7);
    matches!(first, Ok(5)) && matches!(zero, Err(TipError::InvalidAmount)) && matches!(second, Ok(7))
        && p.amount_to_allocate() == 12
}

/// The share of a sole contributor is the whole pool; none is owed before
/// any point is earned.
pub fn test_allocate_tip() -> (r: bool)
    ensures
        r,
{
    let a = String::from_str("alice");
    let members = vec![a.clone()];
    proof {
        assert(members@[0]@ == a@);
        assert(named(members@, a@));
    }
    let mut p = Project::new(members);
    proof {
        lemma_ledger_map(p.ledger(), a@);
        assert(ledger_map(p.ledger())[a@] == 0);
    }
    let early = p.allocate_tip(&a);
    let _ = p.credit_point(a.clone(), 2);
    proof {
        lemma_ledger_map(p.ledger(), a@);
    }
    let _ = p.tip(10);
    let share = p.allocate_tip(&a);
    matches!(early, Err(TipError::DivisionByZero)) && matches!(share, Ok(10))
}

/// A single transfer carries the account's share and leaves the pool alone.
pub fn test_pay_tip() -> (r: bool)
    ensures
        r,
{
    let a = String::from_str("alice");
    let members = vec![a.clone()];
    proof {
        assert(members@[0]@ == a@);
        assert(named(members@, a@));
    }
    let mut p = Project::new(members);
    proof {
        lemma_ledger_map(p.ledger(), a@);
        assert(ledger_map(p.ledger())[a@] == 0);
    }
    let _ = p.credit_point(a.clone(), 3);
    proof {
        lemma_ledger_map(p.ledger(), a@);
    }
    let _ = p.tip(9);
    let paid = p.pay_tip(a.clone());
    proof {
        assert(points_of(p.ledger(), a@) == 3);
        assert(share(3, 3, 9) == 9);
    }
    match paid {
        Ok(t) => t.account == a && t.amount == 9 && p.amount_to_allocate() == 9,
        Err(_) => false,
    }
}

/// A round is refused before any point is earned; afterwards the sole
/// contributor receives the whole pool, which is left empty.
pub fn test_pay_all_contributors() -> (r: bool)
    ensures
        r,
{
    let a = String::from_str("alice");
    let members = vec![a.clone()];
    let ghost m = members@;
    proof {
        assert(members@[0]@ == a@);
        assert(named(members@, a@));
    }
    let mut p = Project::new(members);
    proof {
        lemma_ledger_map(p.ledger(), a@);
        assert(ledger_map(p.ledger())[a@] == 0);
    }
    let _ = p.tip(9);
    let early = p.pay_all_contributors();
    let refused = match early {
        Err(e) => e == TipError::DivisionByZero && p.amount_to_allocate() == 9,
        Ok(_) => false,
    };
    let _ = p.credit_point(a.clone(), 1);
    proof {
        lemma_ledger_map(p.ledger(), a@);
    }
    proof {
        assert forall|k: Seq<char>| has_account(p.ledger(), k) <==> k == a@ by {
            lemma_ledger_map(p.ledger(), k);
            if named(m, k) {
                let i = choose|i: int| 0 <= i < m.len() && #[trigger] m[i]@ == k;
                assert(i == 0);
            }
        }
        lemma_single_entry(p.ledger(), a@);
    }
    let round = p.pay_all_contributors();
    match round {
        Ok(ps) => refused && ps.len() == 1 && ps[0].amount == 9 && p.amount_to_allocate() == 0,
        Err(_) => false,
    }
}

} // verus!
