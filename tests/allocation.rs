use smarttip::account::account_less;
use smarttip::allocation::allocate_share;
use smarttip::TipError;

#[test]
fn share_divides_last() {
    assert_eq!(allocate_share(1, 3, 300), Ok(100));
    assert_eq!(allocate_share(2, 3, 300), Ok(200));
    assert_eq!(allocate_share(1, 3, 100), Ok(33));
    assert_eq!(allocate_share(3, 3, 100), Ok(100));
    assert_eq!(allocate_share(0, 3, 100), Ok(0));
}

#[test]
fn share_of_zero_total_is_refused() {
    assert_eq!(allocate_share(0, 0, 100), Err(TipError::DivisionByZero));
}

#[test]
fn share_handles_widest_values() {
    assert_eq!(allocate_share(u64::MAX, u64::MAX, u128::MAX), Ok(u128::MAX));
    assert_eq!(allocate_share(u64::MAX - 1, u64::MAX, u128::MAX), Ok(u128::MAX - (u64::MAX as u128 + 2)));
    assert_eq!(allocate_share(2, 1, u128::MAX), Err(TipError::Overflow));
    assert_eq!(allocate_share(2, 1, u128::MAX / 2), Ok(u128::MAX - 1));
}

#[test]
fn identities_order_lexicographically() {
    assert!(account_less("alice", "bob"));
    assert!(!account_less("bob", "alice"));
    assert!(account_less("al", "alice"));
    assert!(!account_less("alice", "alice"));
    assert!(account_less("", "a"));
    assert!(!account_less("a", ""));
    assert!(account_less("B", "a"));
}
