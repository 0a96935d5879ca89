use balancer_core::address::Ipv4Address;
use balancer_core::discovery::{DiscoveryError, DiscoverySnapshot};
use balancer_core::pool::{MembershipEvent, PoolReconciler};
use balancer_core::target::ConnectionTarget;

fn target(last: u8) -> ConnectionTarget {
    ConnectionTarget::from_ipv4(Ipv4Address::new(10, 0, 0, last), 8080)
}

fn snapshot(members: &[u8], sequence: u64) -> DiscoverySnapshot {
    DiscoverySnapshot::new(members.iter().map(|m| target(*m)).collect(), sequence)
}

fn added(last: u8, sequence: u64) -> MembershipEvent {
    MembershipEvent::Added { target: target(last), sequence }
}

fn removed(last: u8, sequence: u64) -> MembershipEvent {
    MembershipEvent::Removed { target: target(last), sequence }
}

fn members(reconciler: &PoolReconciler) -> Vec<ConnectionTarget> {
    reconciler.state().members().clone()
}

#[test]
fn a_new_reconciler_has_an_empty_pool() {
    let reconciler = PoolReconciler::new();
    assert!(reconciler.state().is_empty());
    assert_eq!(reconciler.state().len(), 0);
    assert_eq!(reconciler.state().sequence(), 0);
}

#[test]
fn the_pool_is_the_last_snapshot() {
    let mut reconciler = PoolReconciler::new();
    let runs: [&[u8]; 7] = [&[1, 2, 3], &[3, 4], &[], &[5], &[5], &[9, 8, 7, 5], &[]];
    for (n, run) in runs.iter().enumerate() {
        let sequence = n as u64 + 1;
        reconciler.reconcile(&snapshot(run, sequence));
        let expected: Vec<ConnectionTarget> = run.iter().map(|m| target(*m)).collect();
        assert_eq!(members(&reconciler), expected);
        assert_eq!(reconciler.state().sequence(), sequence);
        assert_eq!(reconciler.state().len(), run.len());
        for m in 0..12u8 {
            assert_eq!(reconciler.state().contains(&target(m)), run.contains(&m));
        }
    }
}

#[test]
fn the_same_snapshot_once_more_causes_no_event() {
    let mut reconciler = PoolReconciler::new();
    assert_eq!(reconciler.reconcile(&snapshot(&[1, 2], 1)), vec![added(1, 1), added(2, 1)]);
    assert_eq!(reconciler.reconcile(&snapshot(&[1, 2], 1)), vec![]);
    assert_eq!(reconciler.reconcile(&snapshot(&[2, 1], 2)), vec![]);
    assert_eq!(members(&reconciler), vec![target(2), target(1)]);
    assert_eq!(reconciler.reconcile(&snapshot(&[], 3)), vec![removed(2, 3), removed(1, 3)]);
    assert_eq!(reconciler.reconcile(&snapshot(&[], 3)), vec![]);
}

#[test]
fn removals_come_before_additions() {
    let mut reconciler = PoolReconciler::new();
    reconciler.reconcile(&snapshot(&[1, 2, 3, 4], 1));
    let events = reconciler.reconcile(&snapshot(&[9, 2, 8, 4, 7], 2));
    assert_eq!(
        events,
        vec![removed(1, 2), removed(3, 2), added(9, 2), added(8, 2), added(7, 2)]
    );
    let first_added = events.iter().position(|e| matches!(e, MembershipEvent::Added { .. }));
    let last_removed = events.iter().rposition(|e| matches!(e, MembershipEvent::Removed { .. }));
    assert!(last_removed.unwrap() < first_added.unwrap());
}

#[test]
fn events_carry_the_number_of_their_snapshot() {
    let mut reconciler = PoolReconciler::new();
    assert_eq!(reconciler.reconcile(&snapshot(&[1], 41)), vec![added(1, 41)]);
    assert_eq!(reconciler.reconcile(&snapshot(&[2], 17)), vec![removed(1, 17), added(2, 17)]);
    assert_eq!(reconciler.state().sequence(), 17);
}

#[test]
fn a_failed_round_changes_nothing() {
    let mut reconciler = PoolReconciler::new();
    reconciler.reconcile(&snapshot(&[1, 2], 1));
    for error in [DiscoveryError::Unreachable, DiscoveryError::Timeout, DiscoveryError::Malformed] {
        assert_eq!(reconciler.reconcile_round(&Err(error)), vec![]);
        assert_eq!(members(&reconciler), vec![target(1), target(2)]);
        assert_eq!(reconciler.state().sequence(), 1);
    }
    assert_eq!(reconciler.reconcile_round(&Ok(snapshot(&[2], 2))), vec![removed(1, 2)]);
    assert_eq!(members(&reconciler), vec![target(2)]);
}

#[test]
fn empty_snapshots_are_held_back_until_there_are_enough() {
    let mut reconciler = PoolReconciler::with_debounce(3);
    reconciler.reconcile(&snapshot(&[1], 1));
    assert_eq!(reconciler.reconcile(&snapshot(&[], 2)), vec![]);
    assert_eq!(members(&reconciler), vec![target(1)]);
    assert_eq!(reconciler.state().sequence(), 1);
    assert_eq!(reconciler.reconcile(&snapshot(&[], 3)), vec![]);
    assert_eq!(members(&reconciler), vec![target(1)]);
    assert_eq!(reconciler.reconcile(&snapshot(&[], 4)), vec![removed(1, 4)]);
    assert!(reconciler.state().is_empty());
    assert_eq!(reconciler.state().sequence(), 4);
    assert_eq!(reconciler.reconcile(&snapshot(&[], 5)), vec![]);
    assert_eq!(reconciler.state().sequence(), 5);
}

#[test]
fn a_snapshot_with_members_starts_the_count_again() {
    let mut reconciler = PoolReconciler::with_debounce(2);
    reconciler.reconcile(&snapshot(&[1, 2], 1));
    assert_eq!(reconciler.reconcile(&snapshot(&[], 2)), vec![]);
    assert_eq!(reconciler.reconcile(&snapshot(&[2], 3)), vec![removed(1, 3)]);
    assert_eq!(reconciler.reconcile(&snapshot(&[], 4)), vec![]);
    assert_eq!(members(&reconciler), vec![target(2)]);
    assert_eq!(reconciler.reconcile(&snapshot(&[], 5)), vec![removed(2, 5)]);
}

#[test]
fn a_failed_round_does_not_count_as_an_empty_snapshot() {
    let mut reconciler = PoolReconciler::with_debounce(2);
    reconciler.reconcile(&snapshot(&[1], 1));
    assert_eq!(reconciler.reconcile(&snapshot(&[], 2)), vec![]);
    assert_eq!(reconciler.reconcile_round(&Err(DiscoveryError::Timeout)), vec![]);
    assert_eq!(members(&reconciler), vec![target(1)]);
    assert_eq!(reconciler.reconcile(&snapshot(&[], 3)), vec![removed(1, 3)]);
}

#[test]
fn a_threshold_of_one_holds_nothing_back() {
    for threshold in [0, 1] {
        let mut reconciler = PoolReconciler::with_debounce(threshold);
        reconciler.reconcile(&snapshot(&[1, 2], 1));
        assert_eq!(reconciler.reconcile(&snapshot(&[], 2)), vec![removed(1, 2), removed(2, 2)]);
        assert!(reconciler.state().is_empty());
    }
}

#[test]
fn an_empty_snapshot_on_an_empty_pool_is_applied() {
    let mut reconciler = PoolReconciler::with_debounce(5);
    assert_eq!(reconciler.reconcile(&snapshot(&[], 9)), vec![]);
    assert_eq!(reconciler.state().sequence(), 9);
}
