//! The ledger's stated behaviours on concrete values: the quantity
//! arithmetic formulas, the resolution and closure scenarios, the
//! uniqueness rules, the error taxonomy, and the estimator's range.

use restaurant_ledger::arith::{decrement, increment};
use restaurant_ledger::ledger::Ledger;
use restaurant_ledger::models::{LedgerError, RemoveOutcome, ResolveOutcome};

fn setup_ledger() -> Ledger {
    let mut ledger = Ledger::new();
    for code in ["T-01", "T-02"] {
        ledger.register_table(code.to_string());
    }
    for name in ["M-01", "M-02", "M-03"] {
        ledger.register_menu_item(name.to_string());
    }
    ledger
}

#[test]
fn increment_replicates_per_unit_time() {
    // cooking_time 7 over quantity 2: per unit 3, replicated at the
    // new quantity — 9, not 7 plus a fresh estimate. The drift is the
    // intended behaviour.
    assert_eq!(increment(7, 2), Some((9, 3)));
    assert_eq!(increment(0, 1), Some((0, 2)));
    assert_eq!(increment(15, 1), Some((30, 2)));
    assert_eq!(increment(10, 3), Some((12, 4)));
}

#[test]
fn increment_refuses_overflow() {
    assert_eq!(increment(i64::MAX, 1), None);
    assert_eq!(increment(i64::MAX, i64::MAX), None);
    assert_eq!(increment(i64::MAX, 2), None);
}

#[test]
fn decrement_removes_one_per_unit_share() {
    assert_eq!(decrement(7, 2), (4, 1));
    assert_eq!(decrement(9, 3), (6, 2));
    assert_eq!(decrement(0, 2), (0, 1));
}

#[test]
fn scenario_fresh_order_gets_one_line_per_item() {
    let mut ledger = setup_ledger();
    let r = ledger.resolve_with_estimates(1, &vec![1, 2], &vec![7, 9]);
    assert_eq!(r, Ok(ResolveOutcome::Created(1)));
    let lines = ledger.list_lines(1);
    assert_eq!(lines.len(), 2);
    assert_eq!(lines[0].menu_id, 1);
    assert_eq!(lines[0].quantity, 1);
    assert_eq!(lines[0].cooking_time, 7);
    assert_eq!(lines[1].menu_id, 2);
    assert_eq!(lines[1].quantity, 1);
    assert_eq!(lines[1].cooking_time, 9);
}

#[test]
fn scenario_repeat_resolve_merges_into_the_line() {
    let mut ledger = setup_ledger();
    ledger.resolve_with_estimates(1, &vec![1], &vec![7]).unwrap();
    let order = ledger.find_active_order(1).unwrap();
    let r = ledger.resolve_with_estimates(1, &vec![1], &vec![11]);
    assert_eq!(r, Ok(ResolveOutcome::Merged));
    // The order keeps its identity; the fresh estimate is discarded in
    // favour of replicating the per-unit time at the new quantity.
    let again = ledger.find_active_order(1).unwrap();
    assert_eq!(again.id, order.id);
    let item = ledger.get_item(1, 1).unwrap();
    assert_eq!(item.quantity, 2);
    assert_eq!(item.cooking_time, 14);
    assert_eq!(ledger.list_lines(order.id).len(), 1);
}

#[test]
fn scenario_removing_one_of_two_lines_keeps_the_order() {
    let mut ledger = setup_ledger();
    ledger.resolve_with_estimates(1, &vec![1, 2], &vec![7, 9]).unwrap();
    let r = ledger.remove_item(1, 2);
    assert_eq!(r, Ok(RemoveOutcome::ItemRemoved));
    let order = ledger.find_active_order(1).unwrap();
    assert!(ledger.get_item(1, 2).is_none());
    assert_eq!(ledger.list_lines(order.id).len(), 1);
}

#[test]
fn scenario_removing_the_last_line_closes_the_order() {
    let mut ledger = setup_ledger();
    ledger.resolve_with_estimates(1, &vec![1, 2], &vec![7, 9]).unwrap();
    assert_eq!(ledger.remove_item(1, 2), Ok(RemoveOutcome::ItemRemoved));
    let r = ledger.remove_item(1, 1);
    assert_eq!(r, Ok(RemoveOutcome::OrderClosed));
    assert!(ledger.find_active_order(1).is_none());
    assert_eq!(ledger.list_lines_for_table(1).len(), 0);
}

#[test]
fn scenario_removing_from_a_full_line_reduces_quantity() {
    let mut ledger = setup_ledger();
    ledger.resolve_with_estimates(1, &vec![1], &vec![7]).unwrap();
    ledger.resolve_with_estimates(1, &vec![1], &vec![8]).unwrap();
    ledger.resolve_with_estimates(1, &vec![1], &vec![9]).unwrap();
    // Quantity 3 with aggregate 21: one per-unit share of 7 comes off.
    let item = ledger.get_item(1, 1).unwrap();
    assert_eq!(item.quantity, 3);
    assert_eq!(item.cooking_time, 21);
    let r = ledger.remove_item(1, 1);
    assert_eq!(r, Ok(RemoveOutcome::QuantityReduced));
    let item = ledger.get_item(1, 1).unwrap();
    assert_eq!(item.quantity, 2);
    assert_eq!(item.cooking_time, 14);
    assert!(ledger.find_active_order(1).is_some());
}

#[test]
fn a_table_never_carries_two_orders() {
    let mut ledger = setup_ledger();
    ledger.resolve_with_estimates(1, &vec![1], &vec![7]).unwrap();
    ledger.resolve_with_estimates(1, &vec![2], &vec![9]).unwrap();
    let orders = ledger.list_orders().unwrap();
    assert_eq!(orders.len(), 1);
    assert_eq!(ledger.create_order(1), Err(LedgerError::ConstraintViolation));
}

#[test]
fn an_order_never_carries_two_lines_for_one_item() {
    let mut ledger = setup_ledger();
    // The same item twice in one request merges, even on a fresh order.
    ledger.resolve_with_estimates(1, &vec![1, 1], &vec![7, 9]).unwrap();
    let lines = ledger.list_lines_for_table(1);
    assert_eq!(lines.len(), 1);
    assert_eq!(lines[0].quantity, 2);
    let order = ledger.find_active_order(1).unwrap();
    assert_eq!(
        ledger.create_line(order.id, 1, 5),
        Err(LedgerError::ConstraintViolation)
    );
}

#[test]
fn registration_is_idempotent_by_value() {
    let mut ledger = Ledger::new();
    let a = ledger.register_table("T-01".to_string());
    let b = ledger.register_table("T-01".to_string());
    assert_eq!(a, b);
    assert_eq!(ledger.list_tables().len(), 1);
    let m1 = ledger.register_menu_item("M-01".to_string());
    let m2 = ledger.register_menu_item("M-01".to_string());
    assert_eq!(m1, m2);
    assert_eq!(ledger.list_menus().len(), 1);
    let other = ledger.register_table("T-02".to_string());
    assert_ne!(a, other);
}

#[test]
fn totals_are_recomputed_from_the_lines() {
    let mut ledger = setup_ledger();
    ledger.resolve_with_estimates(1, &vec![1, 2], &vec![7, 9]).unwrap();
    let order = ledger.find_active_order(1).unwrap();
    assert_eq!(ledger.calculate_total_cooking_time(order.id), Some(16));
    assert!(ledger.has_items(order.id));
    let orders = ledger.list_orders().unwrap();
    assert_eq!(orders[0].total_cooking_time, 16);
    assert_eq!(orders[0].table_name, "T-01");
    assert_eq!(orders[0].menus.len(), 2);
    ledger.remove_item(1, 1).unwrap();
    ledger.remove_item(1, 2).unwrap();
    assert!(!ledger.has_items(order.id));
    assert_eq!(ledger.calculate_total_cooking_time(order.id), Some(0));
}

#[test]
fn a_total_beyond_its_field_is_refused() {
    let mut ledger = setup_ledger();
    let order_id = ledger.create_order(1).unwrap();
    ledger.create_line(order_id, 1, i64::from(i32::MAX)).unwrap();
    ledger.create_line(order_id, 2, 1).unwrap();
    assert_eq!(ledger.calculate_total_cooking_time(order_id), None);
    assert!(matches!(ledger.list_orders(), Err(LedgerError::InternalFailure)));
}

#[test]
fn every_error_has_an_input_that_yields_it() {
    let mut ledger = setup_ledger();
    // Empty request: invalid before any mutation.
    assert_eq!(ledger.resolve(1, &vec![]), Err(LedgerError::InvalidRequest));
    // Unregistered table: the write is refused.
    assert_eq!(
        ledger.resolve(9, &vec![1]),
        Err(LedgerError::ConstraintViolation)
    );
    // Unregistered menu item: refused mid-request, earlier items kept.
    assert_eq!(
        ledger.resolve_with_estimates(1, &vec![1, 9], &vec![7, 7]),
        Err(LedgerError::ConstraintViolation)
    );
    assert_eq!(ledger.list_lines_for_table(1).len(), 1);
    // No matching line on the open order: nothing found to remove.
    assert_eq!(ledger.remove_item(1, 3), Err(LedgerError::NotFound));
    // No open order at all: likewise.
    assert_eq!(ledger.remove_item(2, 1), Err(LedgerError::NotFound));
    // A merge whose aggregate no longer fits is surfaced, not wrapped.
    let order = ledger.find_active_order(1).unwrap();
    ledger.create_line(order.id, 2, i64::MAX - 1).unwrap();
    assert_eq!(
        ledger.resolve_with_estimates(1, &vec![2], &vec![7]),
        Err(LedgerError::InternalFailure)
    );
}

#[test]
fn drawn_estimates_stay_in_the_documented_range() {
    let mut ledger = setup_ledger();
    ledger.resolve(1, &vec![1, 2, 3]).unwrap();
    for item in ledger.list_lines_for_table(1) {
        assert!(item.quantity == 1);
        assert!(5 <= item.cooking_time && item.cooking_time <= 15);
    }
}

#[test]
fn deletions_are_idempotent() {
    let mut ledger = setup_ledger();
    let order_id = ledger.create_order(1).unwrap();
    let line_id = ledger.create_line(order_id, 1, 7).unwrap();
    ledger.delete_line(line_id);
    ledger.delete_line(line_id);
    assert_eq!(ledger.list_lines(order_id).len(), 0);
    assert_eq!(ledger.delete_order(order_id), Ok(()));
    assert_eq!(ledger.delete_order(order_id), Ok(()));
    assert!(ledger.find_active_order(1).is_none());
}

#[test]
fn an_order_with_lines_cannot_be_deleted() {
    let mut ledger = setup_ledger();
    let order_id = ledger.create_order(1).unwrap();
    ledger.create_line(order_id, 1, 7).unwrap();
    assert_eq!(
        ledger.delete_order(order_id),
        Err(LedgerError::ConstraintViolation)
    );
    assert!(ledger.find_active_order(1).is_some());
}
