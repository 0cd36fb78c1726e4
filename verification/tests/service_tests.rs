//! The service-level behaviours: registration, resolution and removal
//! as a caller drives them, on a ledger seeded with a small fixture of
//! tables and menu items.

use restaurant_ledger::ledger::Ledger;
use restaurant_ledger::models::{LedgerError, RemoveOutcome, ResolveOutcome};

/// Registers three tables and five menu items.
fn setup_ledger() -> Ledger {
    let mut ledger = Ledger::new();
    for code in ["T-01", "T-02", "T-03"] {
        ledger.register_table(code.to_string());
    }
    for name in ["M-01", "M-02", "M-03", "M-04", "M-05"] {
        ledger.register_menu_item(name.to_string());
    }
    ledger
}

#[test]
fn test_create_menu_handler() {
    let mut ledger = Ledger::new();
    let id = ledger.register_menu_item("Menu-01".to_string());
    assert_eq!(id, 1);
}

#[test]
fn test_create_table_handler() {
    let mut ledger = Ledger::new();
    let id = ledger.register_table("Table-01".to_string());
    assert_eq!(id, 1);
}

#[test]
fn test_create_order_handler_wrong_data() {
    // No table or menu registered: referential integrity refuses the order.
    let mut ledger = Ledger::new();
    let r = ledger.resolve(1, &vec![1, 2]);
    assert_eq!(r, Err(LedgerError::ConstraintViolation));
}

#[test]
fn test_create_order_handler_wrong_data2() {
    // An empty item list is rejected before any mutation.
    let mut ledger = setup_ledger();
    let r = ledger.resolve(1, &vec![]);
    assert_eq!(r, Err(LedgerError::InvalidRequest));
    assert!(ledger.find_active_order(1).is_none());
}

#[test]
fn test_create_order_handler_correct_data() {
    let mut ledger = setup_ledger();
    let r = ledger.resolve(1, &vec![1, 2]);
    assert_eq!(r, Ok(ResolveOutcome::Created(1)));
}

#[test]
fn test_remove_item_from_table_handler() {
    let mut ledger = setup_ledger();
    let order_id = ledger.create_order(1).unwrap();
    ledger.create_line(order_id, 1, 6).unwrap();
    ledger.create_line(order_id, 2, 7).unwrap();
    // Menu 2 goes, menu 1 remains: the order stays open.
    let r = ledger.remove_item(1, 2);
    assert_eq!(r, Ok(RemoveOutcome::ItemRemoved));
    assert!(ledger.find_active_order(1).is_some());
}

#[test]
fn test_all_order_item_remove_handler() {
    let mut ledger = setup_ledger();
    let order_id = ledger.create_order(1).unwrap();
    ledger.create_line(order_id, 1, 6).unwrap();
    // The only line goes, so the order is closed with it.
    let r = ledger.remove_item(1, 1);
    assert_eq!(r, Ok(RemoveOutcome::OrderClosed));
    assert!(ledger.find_active_order(1).is_none());
}

#[test]
fn test_order_item_quantity_reduce_handler() {
    let mut ledger = setup_ledger();
    let order_id = ledger.create_order(1).unwrap();
    ledger.create_line(order_id, 1, 6).unwrap();
    // A second request for the same item merges into the line.
    let r = ledger.resolve(1, &vec![1]);
    assert_eq!(r, Ok(ResolveOutcome::Merged));
    // Removing one unit of a two-unit line only reduces the quantity.
    let r = ledger.remove_item(1, 1);
    assert_eq!(r, Ok(RemoveOutcome::QuantityReduced));
    let item = ledger.get_item(1, 1).unwrap();
    assert_eq!(item.quantity, 1);
}

#[test]
fn test_get_item_from_table_handler() {
    let mut ledger = setup_ledger();
    let order_id = ledger.create_order(1).unwrap();
    ledger.create_line(order_id, 1, 6).unwrap();
    ledger.create_line(order_id, 2, 7).unwrap();
    let item = ledger.get_item(1, 2).unwrap();
    assert_eq!(item.menu_name, "M-02");
    assert_eq!(item.cooking_time, 7);
    assert_eq!(item.quantity, 1);
    // A menu item with no line on the table is a valid empty outcome.
    assert!(ledger.get_item(1, 3).is_none());
}
