use smarttip::project::{Payout, Project, TaskStatus};
use smarttip::TipError;

fn s(x: &str) -> String {
    x.to_string()
}

#[test]
fn test_initiate() {
    let project = Project::new(vec![s("alice"), s("bob")]);
    assert_eq!(project.member_count(), 2);
    assert_eq!(project.amount_to_allocate(), 0);
}

#[test]
fn test_add_task() {
    let mut project = Project::new(vec![s("alice")]);
    project.add_task(1);
    project.add_task(2);
    assert_eq!(project.task_count(), 2);
}

#[test]
fn test_complete_task() {
    let mut project = Project::new(vec![s("alice")]);
    project.add_task(1);
    assert_eq!(project.complete_activitiy(1, s("alice")), Ok(()));
    assert_eq!(project.task_status(1), Some(TaskStatus::COMPLETE));
}

#[test]
fn test_non_existed_task() {
    let mut project = Project::new(vec![s("alice")]);
    project.add_task(1);
    assert_eq!(project.complete_activitiy(2, s("alice")), Err(TipError::TaskNotFound));
    assert_eq!(project.task_status(1), Some(TaskStatus::PENDING));
}

#[test]
fn duplicate_members_collapse() {
    let project = Project::new(vec![s("alice"), s("bob"), s("alice")]);
    assert_eq!(project.member_count(), 2);
    assert_eq!(project.total_activity_point(), 0);
    assert!(project.is_member(&s("alice")));
    assert!(!project.is_member(&s("carol")));
}

#[test]
fn total_tracks_credited_points() {
    let mut project = Project::new(vec![s("alice")]);
    assert_eq!(project.credit_point(s("alice"), 3), Ok(()));
    assert_eq!(project.credit_point(s("bob"), 4), Ok(()));
    assert_eq!(project.credit_point(s("alice"), 1), Ok(()));
    assert_eq!(project.credit_point(s("carol"), 0), Ok(()));
    assert_eq!(project.activity_point(&s("alice")), 4);
    assert_eq!(project.activity_point(&s("bob")), 4);
    assert_eq!(project.activity_point(&s("carol")), 0);
    assert_eq!(project.total_activity_point(), 8);
    assert_eq!(project.member_count(), 3);
}

#[test]
fn credit_overflow_changes_nothing() {
    let mut project = Project::new(vec![]);
    assert_eq!(project.credit_point(s("alice"), u64::MAX), Ok(()));
    assert_eq!(project.credit_point(s("bob"), 1), Err(TipError::Overflow));
    assert_eq!(project.total_activity_point(), u64::MAX);
    assert!(!project.is_member(&s("bob")));
}

#[test]
fn complete_unknown_task_leaves_ledger() {
    let mut project = Project::new(vec![s("alice")]);
    assert_eq!(project.complete_activitiy(7, s("alice")), Err(TipError::TaskNotFound));
    assert_eq!(project.activity_point(&s("alice")), 0);
    assert_eq!(project.total_activity_point(), 0);
    assert_eq!(project.task_status(7), None);
}

#[test]
fn add_then_complete_awards_one_point() {
    let mut project = Project::new(vec![s("alice")]);
    project.add_task(1);
    assert_eq!(project.task_status(1), Some(TaskStatus::PENDING));
    assert_eq!(project.complete_activitiy(1, s("alice")), Ok(()));
    assert_eq!(project.task_status(1), Some(TaskStatus::COMPLETE));
    assert_eq!(project.activity_point(&s("alice")), 1);
    assert_eq!(project.total_activity_point(), 1);
}

#[test]
fn completer_without_record_is_enrolled() {
    let mut project = Project::new(vec![s("alice")]);
    project.add_task(5);
    assert_eq!(project.complete_activitiy(5, s("dave")), Ok(()));
    assert!(project.is_member(&s("dave")));
    assert_eq!(project.activity_point(&s("dave")), 1);
    assert_eq!(project.member_count(), 2);
}

#[test]
fn second_completion_awards_nothing() {
    let mut project = Project::new(vec![s("alice"), s("bob")]);
    project.add_task(1);
    assert_eq!(project.complete_activitiy(1, s("alice")), Ok(()));
    assert_eq!(project.complete_activitiy(1, s("alice")), Ok(()));
    assert_eq!(project.complete_activitiy(1, s("bob")), Ok(()));
    assert_eq!(project.activity_point(&s("alice")), 1);
    assert_eq!(project.activity_point(&s("bob")), 0);
    assert_eq!(project.total_activity_point(), 1);
}

#[test]
fn re_adding_a_task_resets_it() {
    let mut project = Project::new(vec![s("alice")]);
    project.add_task(1);
    assert_eq!(project.complete_activitiy(1, s("alice")), Ok(()));
    project.add_task(1);
    assert_eq!(project.task_status(1), Some(TaskStatus::PENDING));
    assert_eq!(project.task_count(), 1);
    assert_eq!(project.complete_activitiy(1, s("alice")), Ok(()));
    assert_eq!(project.activity_point(&s("alice")), 2);
}

#[test]
fn zero_tip_is_refused() {
    let mut project = Project::new(vec![s("alice")]);
    assert_eq!(project.tip(50), Ok(50));
    assert_eq!(project.tip(0), Err(TipError::InvalidAmount));
    assert_eq!(project.amount_to_allocate(), 50);
}

#[test]
fn tips_accumulate_and_overflow_is_refused() {
    let mut project = Project::new(vec![]);
    assert_eq!(project.tip(10), Ok(10));
    assert_eq!(project.tip(15), Ok(15));
    assert_eq!(project.amount_to_allocate(), 25);
    assert_eq!(project.tip(u128::MAX), Err(TipError::Overflow));
    assert_eq!(project.amount_to_allocate(), 25);
}

#[test]
fn pay_all_without_points_is_refused() {
    let mut project = Project::new(vec![s("alice"), s("bob")]);
    assert_eq!(project.tip(300), Ok(300));
    assert_eq!(project.pay_all_contributors(), Err(TipError::DivisionByZero));
    assert_eq!(project.amount_to_allocate(), 300);
}

fn payout(account: &str, amount: u128) -> Payout {
    Payout { account: s(account), amount }
}

#[test]
fn pay_all_splits_in_proportion() {
    let mut project = Project::new(vec![s("alice"), s("bob")]);
    project.add_task(1);
    project.add_task(2);
    project.add_task(3);
    assert_eq!(project.complete_activitiy(1, s("alice")), Ok(()));
    assert_eq!(project.complete_activitiy(2, s("bob")), Ok(()));
    assert_eq!(project.complete_activitiy(3, s("bob")), Ok(()));
    assert_eq!(project.tip(300), Ok(300));
    let paid = project.pay_all_contributors().unwrap();
    assert_eq!(paid, vec![payout("alice", 100), payout("bob", 200)]);
    assert_eq!(project.amount_to_allocate(), 0);
    assert_eq!(project.total_activity_point(), 3);
    assert_eq!(project.activity_point(&s("bob")), 2);
}

#[test]
fn pay_all_keeps_dust_and_orders_by_identity() {
    let mut project = Project::new(vec![s("carol"), s("alice"), s("bob")]);
    assert_eq!(project.credit_point(s("carol"), 1), Ok(()));
    assert_eq!(project.credit_point(s("alice"), 1), Ok(()));
    assert_eq!(project.credit_point(s("bob"), 1), Ok(()));
    assert_eq!(project.tip(100), Ok(100));
    let paid = project.pay_all_contributors().unwrap();
    assert_eq!(paid, vec![payout("alice", 33), payout("bob", 33), payout("carol", 33)]);
    let sum: u128 = paid.iter().map(|p| p.amount).sum();
    assert!(sum <= 100);
    assert_eq!(project.amount_to_allocate(), 1);
}

#[test]
fn pay_all_includes_members_without_points() {
    let mut project = Project::new(vec![s("alice"), s("bob")]);
    assert_eq!(project.credit_point(s("bob"), 2), Ok(()));
    assert_eq!(project.tip(7), Ok(7));
    let paid = project.pay_all_contributors().unwrap();
    assert_eq!(paid, vec![payout("alice", 0), payout("bob", 7)]);
    assert_eq!(project.amount_to_allocate(), 0);
}

#[test]
fn pay_all_with_largest_pool_never_exceeds_it() {
    let mut project = Project::new(vec![]);
    assert_eq!(project.credit_point(s("a"), u64::MAX - 2), Ok(()));
    assert_eq!(project.credit_point(s("b"), 1), Ok(()));
    assert_eq!(project.credit_point(s("c"), 1), Ok(()));
    assert_eq!(project.tip(u128::MAX), Ok(u128::MAX));
    let paid = project.pay_all_contributors().unwrap();
    assert_eq!(paid.len(), 3);
    let mut sum: u128 = 0;
    for p in paid.iter() {
        assert!(p.amount <= u128::MAX);
        sum = sum.checked_add(p.amount).unwrap();
    }
    assert_eq!(project.amount_to_allocate(), u128::MAX - sum);
    let total = u64::MAX as u128;
    assert_eq!(paid[1].amount, u128::MAX / total);
}

#[test]
fn allocate_tip_per_account() {
    let mut project = Project::new(vec![s("alice"), s("bob")]);
    assert_eq!(project.allocate_tip(&s("alice")), Err(TipError::DivisionByZero));
    assert_eq!(project.allocate_tip(&s("zed")), Err(TipError::AccountNotFound));
    assert_eq!(project.credit_point(s("alice"), 1), Ok(()));
    assert_eq!(project.credit_point(s("bob"), 3), Ok(()));
    assert_eq!(project.tip(10), Ok(10));
    assert_eq!(project.allocate_tip(&s("alice")), Ok(2));
    assert_eq!(project.allocate_tip(&s("bob")), Ok(7));
    assert_eq!(project.allocate_tip(&s("zed")), Err(TipError::AccountNotFound));
}

#[test]
fn pay_tip_builds_one_transfer() {
    let mut project = Project::new(vec![s("alice"), s("bob")]);
    assert_eq!(project.pay_tip(s("alice")), Err(TipError::DivisionByZero));
    assert_eq!(project.credit_point(s("bob"), 1), Ok(()));
    assert_eq!(project.tip(40), Ok(40));
    assert_eq!(project.pay_tip(s("bob")), Ok(payout("bob", 40)));
    assert_eq!(project.pay_tip(s("alice")), Ok(payout("alice", 0)));
    assert_eq!(project.pay_tip(s("erin")), Err(TipError::AccountNotFound));
    assert_eq!(project.amount_to_allocate(), 40);
}
