//! The ledger's standing guarantees, stated on their own. Each holds
//! of every well-formed ledger, and every public operation both
//! requires and re-establishes well-formedness, so these follow every
//! call.

use crate::closure::remove_matches;
use crate::ledger::{spec_active_order, Ledger};
use crate::models::{LedgerError, RemoveOutcome};
use vstd::prelude::*;

verus! {

/// Uniqueness: at most one order is open for any table — two order
/// rows open for the same table are the same row.
pub proof fn lemma_one_order_per_table(l: Ledger, i: int, j: int)
    requires
        l.wf(),
        0 <= i < l.orders@.len(),
        0 <= j < l.orders@.len(),
        l.orders@[i].table_id == l.orders@[j].table_id,
    ensures
        i == j,
{
    if i < j {
        assert(l.orders@[i].table_id != l.orders@[j].table_id);
    } else if j < i {
        assert(l.orders@[j].table_id != l.orders@[i].table_id);
    }
}

/// Merge, not duplicate: at most one line exists per order and menu
/// item — two line rows of the same order for the same menu item are
/// the same row.
pub proof fn lemma_one_line_per_item(l: Ledger, i: int, j: int)
    requires
        l.wf(),
        0 <= i < l.lines@.len(),
        0 <= j < l.lines@.len(),
        l.lines@[i].order_id == l.lines@[j].order_id,
        l.lines@[i].menu_id == l.lines@[j].menu_id,
    ensures
        i == j,
{
    if i < j {
        assert(!(l.lines@[i].order_id == l.lines@[j].order_id && l.lines@[i].menu_id
            == l.lines@[j].menu_id));
    } else if j < i {
        assert(!(l.lines@[j].order_id == l.lines@[i].order_id && l.lines@[j].menu_id
            == l.lines@[i].menu_id));
    }
}

/// Quantity floor: no line ever carries a quantity below one. A
/// decrement that would reach zero deletes the line instead, so a
/// stored zero never exists.
pub proof fn lemma_quantity_floor(l: Ledger, i: int)
    requires
        l.wf(),
        0 <= i < l.lines@.len(),
    ensures
        l.lines@[i].quantity >= 1,
{
}

/// Closure: a removal that reports the order closed leaves the table
/// without an active order — looking one up afterwards finds none.
pub proof fn lemma_closed_order_leaves_none(
    pre: Ledger,
    post: Ledger,
    r: Result<RemoveOutcome, LedgerError>,
    table_id: i64,
    menu_id: i64,
)
    requires
        remove_matches(pre, post, r, table_id, menu_id),
        r == Ok::<RemoveOutcome, LedgerError>(RemoveOutcome::OrderClosed),
    ensures
        spec_active_order(post.orders@, table_id) is None,
{
}

} // verus!
