//! Data model of the ordering core: catalog rows (tables, menu items),
//! ledger rows (orders, order lines), request and response shapes, the
//! error taxonomy, and the tagged outcomes of the two mutating services.

use vstd::prelude::*;

verus! {

/// A dining table as registered: its identifier and its unique code.
#[derive(Debug, Clone)]
pub struct Table {
    pub id: i64,
    pub code: String,
}

/// A table row as handed back to callers of the listing queries.
#[derive(Debug, Clone)]
pub struct TableResponse {
    pub id: i64,
    pub code: String,
}

/// A menu item as registered: its identifier and its unique name.
#[derive(Debug, Clone)]
pub struct Menu {
    pub id: i64,
    pub name: String,
}

/// A menu row as handed back to callers of the listing queries.
#[derive(Debug, Clone)]
pub struct MenuResponse {
    pub id: i64,
    pub name: String,
}

/// The request shape of the resolution service: a table and the menu
/// items to add to its order.
#[derive(Debug, Clone)]
pub struct OrderRequestBody {
    pub table_id: i64,
    pub menu_ids: Vec<i64>,
}

/// An open order row: at most one exists per table at any time.
#[derive(Debug, Clone, Copy, PartialEq, Eq, Structural)]
pub struct Order {
    pub id: i64,
    pub table_id: i64,
}

/// One menu item's entry within an order. `cooking_time` is an aggregate
/// for the whole line, not a per-unit value; `quantity` is always at
/// least one.
#[derive(Debug, Clone, Copy, PartialEq, Eq, Structural)]
pub struct OrderLine {
    pub id: i64,
    pub order_id: i64,
    pub menu_id: i64,
    pub cooking_time: i64,
    pub quantity: i64,
}

/// The record from which a fresh order line is made: the owning order,
/// the menu item, and the initial aggregate cooking time of its single
/// unit.
#[derive(Debug, Clone, Copy, PartialEq, Eq, Structural)]
pub struct OrderItem {
    pub id: i64,
    pub order_id: i64,
    pub menu_id: i64,
    pub cooking_time: i64,
}

/// One order line as handed back to callers, joined with the name of
/// the menu item it references.
#[derive(Debug, Clone)]
pub struct OrderItemResponse {
    pub id: i64,
    pub order_id: i64,
    pub menu_id: i64,
    pub menu_name: String,
    pub cooking_time: i64,
    pub quantity: i64,
}

/// An order as handed back to callers: joined with its table's code,
/// its lines, and the derived total cooking time, which is recomputed
/// on read and never stored.
#[derive(Debug, Clone)]
pub struct OrderResponse {
    pub id: i64,
    pub table_id: i64,
    pub table_name: String,
    pub total_cooking_time: i32,
    pub menus: Vec<OrderItemResponse>,
}

/// The error taxonomy of the ledger and its services.
#[derive(Debug, Clone, Copy, PartialEq, Eq, Structural)]
pub enum LedgerError {
    /// The caller's input is rejected before any mutation.
    InvalidRequest,
    /// No open order, or no matching line, exists for the request.
    NotFound,
    /// A uniqueness or referential-integrity rule refused the write.
    ConstraintViolation,
    /// A value no longer fits its machine representation.
    InternalFailure,
}

/// The tagged outcome of a successful resolution.
#[derive(Debug, Clone, Copy, PartialEq, Eq, Structural)]
pub enum ResolveOutcome {
    /// No order was open for the table; a new one was created with this
    /// identifier.
    Created(i64),
    /// An order was already open; the requested items were merged into it.
    Merged,
}

/// The tagged outcome of a successful removal.
#[derive(Debug, Clone, Copy, PartialEq, Eq, Structural)]
pub enum RemoveOutcome {
    /// The line held more than one unit; its quantity was reduced.
    QuantityReduced,
    /// The line's last unit was removed; other lines remain on the order.
    ItemRemoved,
    /// The line's last unit was removed and no lines remain; the order
    /// was closed.
    OrderClosed,
}

} // verus!
