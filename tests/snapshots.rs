use cwd_governance::genesis::MemberDiff;
use cwd_governance::snapshot::{PowerSnapshots, SnapshotError};

fn diff(key: &str, old: Option<u64>, new: Option<u64>) -> MemberDiff {
    MemberDiff { key: key.to_string(), old, new }
}

#[test]
fn power_is_read_at_a_height() {
    let mut s = PowerSnapshots::new();
    assert_eq!(s.set_weight("a".to_string(), 10, 1), Ok(()));
    assert_eq!(s.set_weight("b".to_string(), 5, 1), Ok(()));
    assert_eq!(s.power_at_height(&"a".to_string(), 0), 0);
    assert_eq!(s.power_at_height(&"a".to_string(), 1), 10);
    assert_eq!(s.total_power_at_height(1), 15);
    assert_eq!(s.set_weight("a".to_string(), 3, 3), Ok(()));
    assert_eq!(s.power_at_height(&"a".to_string(), 2), 10);
    assert_eq!(s.power_at_height(&"a".to_string(), 3), 3);
    assert_eq!(s.power_at_height(&"a".to_string(), 100), 3);
    assert_eq!(s.total_power_at_height(2), 15);
    assert_eq!(s.total_power_at_height(3), 8);
    assert_eq!(s.total_power_at_height(0), 0);
    assert_eq!(s.power_at_height(&"nobody".to_string(), 3), 0);
}

#[test]
fn changes_in_the_past_are_refused() {
    let mut s = PowerSnapshots::new();
    s.set_weight("a".to_string(), 10, 5).unwrap();
    assert_eq!(s.set_weight("a".to_string(), 1, 4), Err(SnapshotError::HeightInPast));
    assert_eq!(s.power_at_height(&"a".to_string(), 5), 10);
    // A second change at the same height replaces the first.
    s.set_weight("a".to_string(), 7, 5).unwrap();
    assert_eq!(s.power_at_height(&"a".to_string(), 5), 7);
    assert_eq!(s.total_power_at_height(5), 7);
}

#[test]
fn total_overflow_is_refused() {
    let mut s = PowerSnapshots::new();
    s.set_weight("a".to_string(), u128::MAX, 1).unwrap();
    assert_eq!(s.set_weight("b".to_string(), 1, 2), Err(SnapshotError::TotalOverflow));
    assert_eq!(s.total_power_at_height(2), u128::MAX);
    s.set_weight("a".to_string(), u128::MAX - 1, 2).unwrap();
    assert_eq!(s.set_weight("b".to_string(), 1, 2), Ok(()));
    assert_eq!(s.total_power_at_height(2), u128::MAX);
}

#[test]
fn member_diffs_apply_in_order() {
    let mut s = PowerSnapshots::new();
    let first = vec![diff("a", None, Some(4)), diff("b", None, Some(6))];
    assert_eq!(s.apply_member_diffs(&first, 1), Ok(()));
    let second = vec![diff("a", Some(4), Some(9)), diff("b", Some(6), None), diff("a", Some(9), Some(2))];
    assert_eq!(s.apply_member_diffs(&second, 2), Ok(()));
    assert_eq!(s.power_at_height(&"a".to_string(), 1), 4);
    assert_eq!(s.power_at_height(&"a".to_string(), 2), 2);
    assert_eq!(s.power_at_height(&"b".to_string(), 1), 6);
    assert_eq!(s.power_at_height(&"b".to_string(), 2), 0);
    assert_eq!(s.total_power_at_height(1), 10);
    assert_eq!(s.total_power_at_height(2), 2);
    assert_eq!(s.apply_member_diffs(&first, 1), Err(SnapshotError::HeightInPast));
}

#[test]
fn overflowing_batch_changes_nothing() {
    let mut s = PowerSnapshots::new();
    s.set_weight("a".to_string(), u128::MAX - 10, 1).unwrap();
    let batch = vec![diff("b", None, Some(5)), diff("c", None, Some(6))];
    assert_eq!(s.apply_member_diffs(&batch, 2), Err(SnapshotError::TotalOverflow));
    assert_eq!(s.power_at_height(&"b".to_string(), 2), 0);
    assert_eq!(s.total_power_at_height(2), u128::MAX - 10);
    assert_eq!(s.last_height, 1);
    let ok = vec![diff("b", None, Some(5)), diff("c", None, Some(5))];
    assert_eq!(s.apply_member_diffs(&ok, 2), Ok(()));
    assert_eq!(s.total_power_at_height(2), u128::MAX);
}
