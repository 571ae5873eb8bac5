//! The project aggregate: task registry, contributor ledger and tip pool.
use vstd::prelude::*;
use std::collections::HashMap;

use crate::account::{
    account_less, account_lt, lemma_account_lt_irreflexive, lemma_account_lt_total,
    lemma_account_lt_transitive,
};
use crate::allocation::{
    allocate_share, lemma_share_within_pool, lemma_sum_shares_within_pool, share, sum_shares,
};
use crate::ledger::{
    has_account, ledger_map, ledger_sorted, lemma_entry, lemma_entry_within_sum, lemma_sum_insert,
    lemma_sum_prefix, lemma_sum_update, points_of, sum_points, Ledger,
};
use crate::TipError;

verus! {

broadcast use vstd::std_specs::hash::group_hash_axioms;

/// Lifecycle of a task.
#[derive(PartialEq, Eq, Structural, Debug, Clone, Copy)]
pub enum TaskStatus {
    PENDING,
    COMPLETE,
}

/// Points earned by one contributor.
#[derive(PartialEq, Eq, Structural, Debug, Clone, Copy)]
pub struct Contribution {
    pub activity_point: u64,
}

/// A transfer of `amount` to `account`, for the host to carry out.
#[derive(PartialEq, Eq, Debug)]
pub struct Payout {
    pub account: String,
    pub amount: u128,
}

/// The amounts of `ps`, added up.
pub open spec fn sum_amounts(ps: Seq<Payout>) -> nat
    decreases ps.len(),
{
    if ps.len() == 0 {
        0
    } else {
        sum_amounts(ps.drop_last()) + ps.last().amount as nat
    }
}

/// Some member of `members` is `a`.
pub open spec fn named(members: Seq<String>, a: Seq<char>) -> bool {
    exists|i: int| 0 <= i < members.len() && #[trigger] members[i]@ == a
}

/// One project: its tasks, its contributors with their points, and the pool
/// of tips not yet paid out.
#[derive(Debug)]
pub struct Project {
    members: Vec<(String, Contribution)>,
    amount_to_allocate: u128,
    total_activity_point: u64,
    tasks: HashMap<u64, TaskStatus>,
}

impl Project {
    /// The contributors, ascending by identity, with their points.
    pub closed spec fn ledger(&self) -> Ledger {
        self.members@.map_values(|m: (String, Contribution)| (m.0@, m.1.activity_point as nat))
    }

    /// The balance of the pool.
    pub closed spec fn pool(&self) -> nat {
        self.amount_to_allocate as nat
    }

    /// The maintained total of activity points.
    pub closed spec fn total(&self) -> nat {
        self.total_activity_point as nat
    }

    /// The task registry.
    pub closed spec fn tasks(&self) -> Map<u64, TaskStatus> {
        self.tasks@
    }

    /// The ledger is sorted by identity and the maintained total is the sum
    /// of all points.
    pub open spec fn wf(&self) -> bool {
        &&& ledger_sorted(self.ledger())
        &&& self.total() == sum_points(self.ledger())
    }

    proof fn lemma_bounds(&self)
        ensures
            self.total() <= u64::MAX,
            self.pool() <= u128::MAX,
            self.ledger().len() == self.members@.len(),
            forall|i: int|
                0 <= i < self.members@.len() ==> (#[trigger] self.ledger()[i]).0
                    == self.members@[i].0@ && self.ledger()[i].1
                    == self.members@[i].1.activity_point,
    {
    }

    /// Finds where `a` stands in the ledger, or where it would be inserted.
    fn find_position(&self, a: &String) -> (r: (usize, bool))
        requires
            self.wf(),
        ensures
            r.0 <= self.ledger().len(),
            forall|m: int| 0 <= m < r.0 ==> account_lt(#[trigger] self.ledger()[m].0, a@),
            r.1 ==> r.0 < self.ledger().len() && self.ledger()[r.0 as int].0 == a@,
            !r.1 ==> r.0 == self.ledger().len() || account_lt(a@, self.ledger()[r.0 as int].0),
    {
        proof {
            self.lemma_bounds();
        }
        let n = self.members.len();
        let mut i: usize = 0;
        while i < n
            invariant
                n == self.ledger().len(),
                i <= n,
                forall|m: int| 0 <= m < i ==> account_lt(#[trigger] self.ledger()[m].0, a@),
                forall|m: int|
                    0 <= m < self.members@.len() ==> (#[trigger] self.ledger()[m]).0
                        == self.members@[m].0@,
            decreases n - i,
        {
            let c: &String = &self.members[i].0;
            if account_less(c.as_str(), a.as_str()) {
                i = i + 1;
            } else if *c == *a {
                return (i, true);
            } else {
                proof {
                    lemma_account_lt_total(c@, a@);
                }
                return (i, false);
            }
        }
        (i, false)
    }

    /// Adds `delta` points to `account_id`, creating its record if absent,
    /// and the same to the total.
    ///
    /// Fails with `Overflow`, changing nothing, when the total would exceed
    /// `u64::MAX`.
    pub fn credit_point(&mut self, account_id: String, delta: u64) -> (r: Result<(), TipError>)
        requires
            old(self).wf(),
        ensures
            final(self).wf(),
            old(self).total() + delta > u64::MAX ==> r == Err::<(), TipError>(TipError::Overflow)
                && *final(self) == *old(self),
            old(self).total() + delta <= u64::MAX ==> {
                &&& r == Ok::<(), TipError>(())
                &&& ledger_map(final(self).ledger()) == ledger_map(old(self).ledger()).insert(
                    account_id@,
                    (points_of(old(self).ledger(), account_id@) + delta) as nat,
                )
                &&& final(self).total() == old(self).total() + delta
                &&& final(self).pool() == old(self).pool()
                &&& final(self).tasks() == old(self).tasks()
            },
    {
        proof {
            self.lemma_bounds();
        }
        if delta > u64::MAX - self.total_activity_point {
            return Err(TipError::Overflow);
        }
        let ghost l = self.ledger();
        let ghost a = account_id@;
        let (pos, found) = self.find_position(&account_id);
        if found {
            let ghost e: (Seq<char>, nat) = (a, (l[pos as int].1 + delta) as nat);
            proof {
                lemma_entry(l, pos as int);
                lemma_entry_within_sum(l, pos as int);
            }
            let pts: u64 = self.members[pos].1.activity_point;
            self.members.set(pos, (account_id, Contribution { activity_point: pts + delta }));
            self.total_activity_point = self.total_activity_point + delta;
            proof {
                let n = self.ledger();
                assert(n =~= l.update(pos as int, e));
                lemma_sum_update(l, pos as int, e);
                assert(ledger_sorted(n)) by {
                    assert forall|i: int, j: int| 0 <= i < j < n.len() implies account_lt(
                        #[trigger] n[i].0,
                        #[trigger] n[j].0,
                    ) by {
                        assert(n[i].0 == l[i].0 && n[j].0 == l[j].0);
                    }
                }
                lemma_update_map(l, pos as int, e);
            }
        } else {
            let ghost e = (a, delta as nat);
            self.members.insert(pos, (account_id, Contribution { activity_point: delta }));
            self.total_activity_point = self.total_activity_point + delta;
            proof {
                let n = self.ledger();
                assert(n =~= l.insert(pos as int, e));
                lemma_sum_insert(l, pos as int, e);
                lemma_insert_sorted(l, pos as int, e);
                lemma_absent(l, pos as int, a);
                lemma_insert_map(l, pos as int, e);
            }
        }
        Ok(())
    }
}

proof fn lemma_update_map(l: Ledger, i: int, e: (Seq<char>, nat))
    requires
        ledger_sorted(l),
        0 <= i < l.len(),
        e.0 == l[i].0,
        ledger_sorted(l.update(i, e)),
    ensures
        ledger_map(l.update(i, e)) == ledger_map(l).insert(e.0, e.1),
{
    let n = l.update(i, e);
    lemma_entry(n, i);
    assert forall|k: Seq<char>| k != e.0 implies has_account(n, k) == has_account(l, k) && points_of(
        n,
        k,
    ) == points_of(l, k) by {
        if has_account(l, k) {
            let j = choose|j: int| 0 <= j < l.len() && #[trigger] l[j].0 == k;
            lemma_entry(l, j);
            lemma_entry(n, j);
        }
        if has_account(n, k) {
            let j = choose|j: int| 0 <= j < n.len() && #[trigger] n[j].0 == k;
            assert(l[j].0 == k);
        }
    }
    assert(ledger_map(n) =~= ledger_map(l).insert(e.0, e.1));
}

proof fn lemma_insert_sorted(l: Ledger, p: int, e: (Seq<char>, nat))
    requires
        ledger_sorted(l),
        0 <= p <= l.len(),
        forall|m: int| 0 <= m < p ==> account_lt(#[trigger] l[m].0, e.0),
        p == l.len() || account_lt(e.0, l[p].0),
    ensures
        ledger_sorted(l.insert(p, e)),
{
    let n = l.insert(p, e);
    assert forall|i: int, j: int| 0 <= i < j < n.len() implies account_lt(
        #[trigger] n[i].0,
        #[trigger] n[j].0,
    ) by {
        if j > p && i != p {
            let ii = if i < p { i } else { i - 1 };
            assert(n[i] == l[ii]);
            assert(n[j] == l[j - 1]);
            assert(account_lt(l[ii].0, l[j - 1].0));
        } else if j > p && i == p {
            assert(n[j] == l[j - 1]);
            if j - 1 > p {
                assert(account_lt(l[p].0, l[j - 1].0));
                lemma_account_lt_transitive(e.0, l[p].0, l[j - 1].0);
            }
        } else if j == p {
            assert(n[i] == l[i]);
        } else {
            assert(n[i] == l[i] && n[j] == l[j]);
        }
    }
}

/// An identity below every entry from `p` on and above every entry before
/// `p` is absent.
proof fn lemma_absent(l: Ledger, p: int, a: Seq<char>)
    requires
        ledger_sorted(l),
        0 <= p <= l.len(),
        forall|m: int| 0 <= m < p ==> account_lt(#[trigger] l[m].0, a),
        p == l.len() || account_lt(a, l[p].0),
    ensures
        !has_account(l, a),
{
    lemma_account_lt_irreflexive(a);
    if has_account(l, a) {
        let j = choose|j: int| 0 <= j < l.len() && #[trigger] l[j].0 == a;
        if j < p {
            assert(account_lt(l[j].0, a));
        } else if j > p {
            assert(account_lt(l[p].0, l[j].0));
            lemma_account_lt_transitive(a, l[p].0, l[j].0);
        }
    }
}

proof fn lemma_insert_map(l: Ledger, p: int, e: (Seq<char>, nat))
    requires
        ledger_sorted(l),
        0 <= p <= l.len(),
        !has_account(l, e.0),
        ledger_sorted(l.insert(p, e)),
    ensures
        ledger_map(l.insert(p, e)) == ledger_map(l).insert(e.0, e.1),
{
    let n = l.insert(p, e);
    lemma_entry(n, p);
    assert forall|k: Seq<char>| k != e.0 implies has_account(n, k) == has_account(l, k) && points_of(
        n,
        k,
    ) == points_of(l, k) by {
        if has_account(l, k) {
            let j = choose|j: int| 0 <= j < l.len() && #[trigger] l[j].0 == k;
            lemma_entry(l, j);
            let jj = if j < p { j } else { j + 1 };
            assert(n[jj] == l[j]);
            lemma_entry(n, jj);
        }
        if has_account(n, k) {
            let j = choose|j: int| 0 <= j < n.len() && #[trigger] n[j].0 == k;
            let jj = if j < p { j } else { j - 1 };
            assert(l[jj] == n[j]);
        }
    }
    assert(ledger_map(n) =~= ledger_map(l).insert(e.0, e.1));
}

impl Project {
    /// What `add_task(id)` makes of `old`: the task is pending, all else is
    /// kept.
    pub open spec fn added(old: Project, new: Project, id: u64) -> bool {
        &&& new.tasks() == old.tasks().insert(id, TaskStatus::PENDING)
        &&& new.ledger() == old.ledger()
        &&& new.total() == old.total()
        &&& new.pool() == old.pool()
    }

    /// What `complete_activitiy(id, a)` makes of `old` with result `r`.
    pub open spec fn completed(
        old: Project,
        new: Project,
        id: u64,
        a: Seq<char>,
        r: Result<(), TipError>,
    ) -> bool {
        if !old.tasks().contains_key(id) {
            r == Err::<(), TipError>(TipError::TaskNotFound) && new == old
        } else if old.tasks()[id] == TaskStatus::COMPLETE {
            r == Ok::<(), TipError>(()) && new == old
        } else if old.total() >= u64::MAX {
            r == Err::<(), TipError>(TipError::Overflow) && new == old
        } else {
            &&& r == Ok::<(), TipError>(())
            &&& new.tasks() == old.tasks().insert(id, TaskStatus::COMPLETE)
            &&& ledger_map(new.ledger()) == ledger_map(old.ledger()).insert(
                a,
                points_of(old.ledger(), a) + 1,
            )
            &&& new.total() == old.total() + 1
            &&& new.pool() == old.pool()
        }
    }

    /// A project with an empty pool, no tasks, and a record of zero points
    /// for each distinct identity of `member_list`.
    pub fn new(member_list: Vec<String>) -> (p: Project)
        ensures
            p.wf(),
            p.pool() == 0,
            p.total() == 0,
            p.tasks() == Map::<u64, TaskStatus>::empty(),
            ledger_map(p.ledger()) == Map::new(
                |a: Seq<char>| named(member_list@, a),
                |a: Seq<char>| 0nat,
            ),
    {
        let mut p = Project {
            members: Vec::new(),
            amount_to_allocate: 0,
            total_activity_point: 0,
            tasks: HashMap::new(),
        };
        proof {
            assert(p.ledger() =~= Seq::empty());
            assert(ledger_map(p.ledger()) =~= Map::new(
                |a: Seq<char>| named(member_list@.take(0), a),
                |a: Seq<char>| 0nat,
            ));
        }
        let n = member_list.len();
        let mut i: usize = 0;
        while i < n
            invariant
                n == member_list@.len(),
                i <= n,
                p.wf(),
                p.pool() == 0,
                p.total() == 0,
                p.tasks() == Map::<u64, TaskStatus>::empty(),
                ledger_map(p.ledger()) == Map::new(
                    |a: Seq<char>| named(member_list@.take(i as int), a),
                    |a: Seq<char>| 0nat,
                ),
            decreases n - i,
        {
            let m: String = member_list[i].clone();
            let ghost before = ledger_map(p.ledger());
            let ghost pts = points_of(p.ledger(), m@);
            proof {
                if has_account(p.ledger(), m@) {
                    assert(before.contains_key(m@));
                    assert(before[m@] == pts);
                }
            }
            let r = p.credit_point(m, 0);
            proof {
                assert(pts == 0);
                assert(ledger_map(p.ledger()) == before.insert(member_list@[i as int]@, 0nat));
                assert forall|a: Seq<char>|
                    named(member_list@.take(i + 1), a) == (named(member_list@.take(i as int), a)
                        || a == member_list@[i as int]@) by {
                    if named(member_list@.take(i + 1), a) {
                        let j = choose|j: int|
                            0 <= j < i + 1 && #[trigger] member_list@.take(i + 1)[j]@ == a;
                        if j < i {
                            assert(member_list@.take(i as int)[j] == member_list@.take(i + 1)[j]);
                        }
                    }
                    if named(member_list@.take(i as int), a) {
                        let j = choose|j: int|
                            0 <= j < i && #[trigger] member_list@.take(i as int)[j]@ == a;
                        assert(member_list@.take(i as int)[j] == member_list@.take(i + 1)[j]);
                    }
                    if a == member_list@[i as int]@ {
                        assert(member_list@.take(i + 1)[i as int] == member_list@[i as int]);
                    }
                }
                let target = Map::new(
                    |a: Seq<char>| named(member_list@.take(i + 1), a),
                    |a: Seq<char>| 0nat,
                );
                let now = before.insert(member_list@[i as int]@, 0nat);
                assert forall|a: Seq<char>| #[trigger] now.contains_key(a) == target.contains_key(a) by {
                    assert(now.contains_key(a) == (before.contains_key(a) || a == member_list@[i as int]@));
                    assert(before.contains_key(a) == named(member_list@.take(i as int), a));
                    assert(target.contains_key(a) == named(member_list@.take(i + 1), a));
                }
                assert(now =~= target);
            }
            i = i + 1;
        }
        proof {
            assert(member_list@.take(n as int) =~= member_list@);
        }
        p
    }

    /// Registers task `id` as pending; an existing task of that id is reset
    /// to pending.
    pub fn add_task(&mut self, id: u64)
        requires
            old(self).wf(),
        ensures
            final(self).wf(),
            Project::added(*old(self), *final(self), id),
    {
        self.tasks.insert(id, TaskStatus::PENDING);
    }

    /// Marks task `task_id` complete and credits `account_id` one point.
    ///
    /// Fails with `TaskNotFound` if the task was never added. Completing a
    /// task that is already complete changes nothing and awards no point.
    /// Fails with `Overflow` when the point total is at its limit. A failure
    /// changes nothing.
    pub fn complete_activitiy(&mut self, task_id: u64, account_id: String) -> (r: Result<
        (),
        TipError,
    >)
        requires
            old(self).wf(),
        ensures
            final(self).wf(),
            Project::completed(*old(self), *final(self), task_id, account_id@, r),
    {
        let done: bool = match self.tasks.get(&task_id) {
            None => {
                return Err(TipError::TaskNotFound);
            },
            Some(status) => *status == TaskStatus::COMPLETE,
        };
        if done {
            return Ok(());
        }
        match self.credit_point(account_id, 1) {
            Err(e) => Err(e),
            Ok(()) => {
                self.tasks.insert(task_id, TaskStatus::COMPLETE);
                Ok(())
            },
        }
    }

    /// Adds a tip of `amount` to the pool and returns it.
    ///
    /// Fails with `InvalidAmount` for a tip of zero and with `Overflow` when
    /// the pool would exceed `u128::MAX`; a failure changes nothing.
    pub fn tip(&mut self, amount: u128) -> (r: Result<u128, TipError>)
        requires
            old(self).wf(),
        ensures
            final(self).wf(),
            amount == 0 ==> r == Err::<u128, TipError>(TipError::InvalidAmount) && *final(self)
                == *old(self),
            amount > 0 && old(self).pool() + amount > u128::MAX ==> r == Err::<u128, TipError>(
                TipError::Overflow,
            ) && *final(self) == *old(self),
            amount > 0 && old(self).pool() + amount <= u128::MAX ==> {
                &&& r == Ok::<u128, TipError>(amount)
                &&& final(self).pool() == old(self).pool() + amount
                &&& final(self).ledger() == old(self).ledger()
                &&& final(self).total() == old(self).total()
                &&& final(self).tasks() == old(self).tasks()
            },
    {
        if amount == 0 {
            return Err(TipError::InvalidAmount);
        }
        match self.amount_to_allocate.checked_add(amount) {
            None => Err(TipError::Overflow),
            Some(b) => {
                self.amount_to_allocate = b;
                Ok(amount)
            },
        }
    }

    /// The share of the pool owed to `account_id`: the pool times its points,
    /// divided by the total.
    ///
    /// Fails with `AccountNotFound` for an identity with no record, and with
    /// `DivisionByZero` while no point has been earned.
    pub fn allocate_tip(&self, account_id: &String) -> (r: Result<u128, TipError>)
        requires
            self.wf(),
        ensures
            !has_account(self.ledger(), account_id@) ==> r == Err::<u128, TipError>(
                TipError::AccountNotFound,
            ),
            has_account(self.ledger(), account_id@) && self.total() == 0 ==> r == Err::<
                u128,
                TipError,
            >(TipError::DivisionByZero),
            has_account(self.ledger(), account_id@) && self.total() > 0 ==> r == Ok::<
                u128,
                TipError,
            >(share(points_of(self.ledger(), account_id@), self.total(), self.pool()) as u128),
            has_account(self.ledger(), account_id@) && self.total() > 0 ==> share(
                points_of(self.ledger(), account_id@),
                self.total(),
                self.pool(),
            ) <= self.pool(),
    {
        let (pos, found) = self.find_position(account_id);
        if !found {
            proof {
                lemma_absent(self.ledger(), pos as int, account_id@);
            }
            return Err(TipError::AccountNotFound);
        }
        proof {
            self.lemma_bounds();
            lemma_entry(self.ledger(), pos as int);
            lemma_entry_within_sum(self.ledger(), pos as int);
            if self.total() > 0 {
                lemma_share_within_pool(self.ledger()[pos as int].1, self.total(), self.pool());
            }
        }
        allocate_share(
            self.members[pos].1.activity_point,
            self.total_activity_point,
            self.amount_to_allocate,
        )
    }

    /// The transfer that pays `account_id` its share, as `allocate_tip`
    /// computes it. The pool is not changed.
    pub fn pay_tip(&self, account_id: String) -> (r: Result<Payout, TipError>)
        requires
            self.wf(),
        ensures
            match r {
                Ok(p) => {
                    &&& has_account(self.ledger(), account_id@)
                    &&& self.total() > 0
                    &&& p.account@ == account_id@
                    &&& p.amount == share(
                        points_of(self.ledger(), account_id@),
                        self.total(),
                        self.pool(),
                    )
                },
                Err(e) => {
                    ||| e == TipError::AccountNotFound && !has_account(self.ledger(), account_id@)
                    ||| e == TipError::DivisionByZero && has_account(self.ledger(), account_id@)
                        && self.total() == 0
                },
            },
    {
        match self.allocate_tip(&account_id) {
            Ok(amount) => Ok(Payout { account: account_id, amount }),
            Err(e) => Err(e),
        }
    }

    /// The payouts of one round: every contributor in ascending order of
    /// identity, each with its share, and their sum.
    fn compute_payouts(&self) -> (r: (Vec<Payout>, u128))
        requires
            self.wf(),
            self.total() > 0,
        ensures
            r.0@.len() == self.ledger().len(),
            forall|i: int|
                0 <= i < r.0@.len() ==> (#[trigger] r.0@[i]).account@ == self.ledger()[i].0
                    && r.0@[i].amount == share(self.ledger()[i].1, self.total(), self.pool()),
            r.1 == sum_amounts(r.0@),
            r.1 == sum_shares(self.ledger(), self.total(), self.pool()),
    {
        proof {
            self.lemma_bounds();
        }
        let ghost l = self.ledger();
        let ghost t = self.total();
        let ghost b = self.pool();
        let n = self.members.len();
        let mut payouts: Vec<Payout> = Vec::new();
        let mut paid: u128 = 0;
        let mut i: usize = 0;
        while i < n
            invariant
                n == l.len(),
                l == self.ledger(),
                t == self.total(),
                b == self.pool(),
                t > 0,
                self.wf(),
                i <= n,
                payouts@.len() == i,
                forall|j: int|
                    0 <= j < i ==> (#[trigger] payouts@[j]).account@ == l[j].0
                        && payouts@[j].amount == share(l[j].1, t, b),
                paid == sum_amounts(payouts@),
                paid == sum_shares(l.take(i as int), t, b),
            decreases n - i,
        {
            proof {
                self.lemma_bounds();
                lemma_entry_within_sum(l, i as int);
                lemma_share_within_pool(l[i as int].1, t, b);
                lemma_sum_prefix(l, i + 1);
                lemma_sum_shares_within_pool(l.take(i + 1), t, b);
                assert(l.take(i + 1).drop_last() =~= l.take(i as int));
            }
            let amount: u128 = match allocate_share(
                self.members[i].1.activity_point,
                self.total_activity_point,
                self.amount_to_allocate,
            ) {
                Ok(a) => a,
                Err(_) => {
                    proof {
                        assert(false);
                    }
                    0
                },
            };
            let ghost before = payouts@;
            payouts.push(Payout { account: self.members[i].0.clone(), amount });
            paid = paid + amount;
            proof {
                assert(payouts@.drop_last() =~= before);
            }
            i = i + 1;
        }
        proof {
            assert(l.take(n as int) =~= l);
        }
        (payouts, paid)
    }

    /// Pays every contributor its share of the pool, in ascending order of
    /// identity, and takes the paid sum out of the pool. What truncation
    /// leaves over stays in the pool for the next round; points are kept.
    ///
    /// Fails with `DivisionByZero`, changing nothing, while no point has been
    /// earned.
    pub fn pay_all_contributors(&mut self) -> (r: Result<Vec<Payout>, TipError>)
        requires
            old(self).wf(),
        ensures
            final(self).wf(),
            old(self).total() == 0 ==> r == Err::<Vec<Payout>, TipError>(TipError::DivisionByZero)
                && *final(self) == *old(self),
            old(self).total() > 0 ==> match r {
                Ok(ps) => {
                    &&& ps@.len() == old(self).ledger().len()
                    &&& forall|i: int|
                        0 <= i < ps@.len() ==> (#[trigger] ps@[i]).account@ == old(
                            self,
                        ).ledger()[i].0 && ps@[i].amount == share(
                            old(self).ledger()[i].1,
                            old(self).total(),
                            old(self).pool(),
                        )
                    &&& sum_amounts(ps@) <= old(self).pool()
                    &&& final(self).pool() == old(self).pool() - sum_amounts(ps@)
                    &&& final(self).ledger() == old(self).ledger()
                    &&& final(self).total() == old(self).total()
                    &&& final(self).tasks() == old(self).tasks()
                },
                Err(_) => false,
            },
    {
        if self.total_activity_point == 0 {
            return Err(TipError::DivisionByZero);
        }
        let (payouts, paid) = self.compute_payouts();
        proof {
            lemma_sum_shares_within_pool(self.ledger(), self.total(), self.pool());
        }
        self.amount_to_allocate = self.amount_to_allocate - paid;
        Ok(payouts)
    }
}

impl Project {
    /// The balance of the pool.
    pub fn amount_to_allocate(&self) -> (r: u128)
        ensures
            r == self.pool(),
    {
        self.amount_to_allocate
    }

    /// The sum of all contributors' points.
    pub fn total_activity_point(&self) -> (r: u64)
        ensures
            r == self.total(),
    {
        self.total_activity_point
    }

    /// Whether `account_id` has a contributor record, with or without points.
    pub fn is_member(&self, account_id: &String) -> (r: bool)
        requires
            self.wf(),
        ensures
            r == has_account(self.ledger(), account_id@),
    {
        let (pos, found) = self.find_position(account_id);
        proof {
            if found {
                lemma_entry(self.ledger(), pos as int);
            } else {
                lemma_absent(self.ledger(), pos as int, account_id@);
            }
        }
        found
    }

    /// The points of `account_id`; zero for an identity with no record.
    pub fn activity_point(&self, account_id: &String) -> (r: u64)
        requires
            self.wf(),
        ensures
            r == points_of(self.ledger(), account_id@),
    {
        let (pos, found) = self.find_position(account_id);
        if found {
            proof {
                self.lemma_bounds();
                lemma_entry(self.ledger(), pos as int);
            }
            self.members[pos].1.activity_point
        } else {
            proof {
                lemma_absent(self.ledger(), pos as int, account_id@);
            }
            0
        }
    }

    /// The number of contributor records.
    pub fn member_count(&self) -> (r: usize)
        ensures
            r == self.ledger().len(),
    {
        self.members.len()
    }

    /// The status of task `id`, if it was added.
    pub fn task_status(&self, id: u64) -> (r: Option<TaskStatus>)
        ensures
            r == (if self.tasks().contains_key(id) {
                Some(self.tasks()[id])
            } else {
                None
            }),
    {
        match self.tasks.get(&id) {
            Some(s) => Some(*s),
            None => None,
        }
    }

    /// The number of registered tasks.
    pub fn task_count(&self) -> (r: usize)
        ensures
            r == self.tasks().len(),
    {
        self.tasks.len()
    }
}

} // verus!
