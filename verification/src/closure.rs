//! The order closure service: remove one unit of one menu item from a
//! table's open order. A line with several units is decremented by the
//! quantity arithmetic; a line's last unit deletes the line; and when
//! the deleted line was the order's last, the order itself is closed.
//! Every successful path ends in a sound state: no line with zero
//! units, and no order left without lines.

use crate::arith::{dec_cooking_time, decrement};
use crate::ledger::{
    has_line_for, has_line_of_order, has_menu, has_order, has_order_for, lemma_line_idx_is,
    lemma_order_for_has_id, lemma_order_idx_is, line_idx_for, order_for, order_idx, Ledger,
};
use crate::models::{LedgerError, OrderLine, RemoveOutcome};
use vstd::prelude::*;

verus! {

/// The parts of the ledger a removal never touches: both catalogs and
/// every row counter.
pub open spec fn remove_frame(pre: Ledger, post: Ledger) -> bool {
    &&& post.tables@ == pre.tables@
    &&& post.menus@ == pre.menus@
    &&& post.next_table_id == pre.next_table_id
    &&& post.next_menu_id == pre.next_menu_id
    &&& post.next_order_id == pre.next_order_id
    &&& post.next_line_id == pre.next_line_id
}

/// The whole effect of one removal call on the ledger. Without an open
/// order, or without a line for the menu item on it, nothing changes
/// and the call reports that nothing was found. A line of several
/// units is decremented; a line of one unit is deleted, and the order
/// follows it when no line of it remains.
pub open spec fn remove_matches(
    pre: Ledger,
    post: Ledger,
    r: Result<RemoveOutcome, LedgerError>,
    table_id: i64,
    menu_id: i64,
) -> bool {
    if !has_order_for(pre.orders@, table_id) {
        post == pre && r == Err::<RemoveOutcome, LedgerError>(LedgerError::NotFound)
    } else {
        let oid: i64 = order_for(pre.orders@, table_id).id;
        if !has_line_for(pre.lines@, oid, menu_id) {
            post == pre && r == Err::<RemoveOutcome, LedgerError>(LedgerError::NotFound)
        } else {
            let k: int = line_idx_for(pre.lines@, oid, menu_id);
            let l = pre.lines@[k];
            {
                &&& remove_frame(pre, post)
                &&& if l.quantity > 1 {
                    &&& post.lines@ == pre.lines@.update(
                        k,
                        (OrderLine {
                            id: l.id,
                            order_id: l.order_id,
                            menu_id: l.menu_id,
                            cooking_time: dec_cooking_time(
                                l.cooking_time as int,
                                l.quantity as int,
                            ) as i64,
                            quantity: (l.quantity - 1) as i64,
                        }),
                    )
                    &&& post.orders@ == pre.orders@
                    &&& r == Ok::<RemoveOutcome, LedgerError>(RemoveOutcome::QuantityReduced)
                } else {
                    &&& post.lines@ == pre.lines@.remove(k)
                    &&& if has_line_of_order(pre.lines@.remove(k), oid) {
                        post.orders@ == pre.orders@ && r == Ok::<RemoveOutcome, LedgerError>(
                            RemoveOutcome::ItemRemoved,
                        )
                    } else {
                        &&& post.orders@ == pre.orders@.remove(order_idx(pre.orders@, oid))
                        &&& !has_order_for(post.orders@, table_id)
                        &&& r == Ok::<RemoveOutcome, LedgerError>(RemoveOutcome::OrderClosed)
                    }
                }
            }
        }
    }
}

impl Ledger {
    /// Removes one unit of one menu item from the table's open order,
    /// closing the order when its last line goes. All three successful
    /// outcomes are terminal: a line never survives with zero units,
    /// and an order never survives without lines.
    pub fn remove_item(&mut self, table_id: i64, menu_id: i64) -> (r: Result<
        RemoveOutcome,
        LedgerError,
    >)
        requires
            old(self).wf(),
        ensures
            final(self).wf(),
            remove_matches(*old(self), *final(self), r, table_id, menu_id),
    {
        let ghost pre: Ledger = *old(self);
        let order = match self.find_active_order(table_id) {
            Some(order) => order,
            None => {
                return Err(LedgerError::NotFound);
            },
        };
        let k: usize = match self.find_line_idx(order.id, menu_id) {
            Some(k) => k,
            None => {
                return Err(LedgerError::NotFound);
            },
        };
        let l: OrderLine = self.lines[k];
        if l.quantity > 1 {
            let d: (i64, i64) = decrement(l.cooking_time, l.quantity);
            let reduced = OrderLine {
                id: l.id,
                order_id: l.order_id,
                menu_id: l.menu_id,
                cooking_time: d.0,
                quantity: d.1,
            };
            self.lines[k] = reduced;
            proof {
                let ls = self.lines@;
                assert forall|a: int, b: int|
                    0 <= a < b < ls.len() implies (#[trigger] ls[a]).id != (#[trigger] ls[b]).id
                    && !(ls[a].order_id == ls[b].order_id && ls[a].menu_id == ls[b].menu_id) by {
                    assert(ls[a].id == pre.lines@[a].id && ls[a].order_id == pre.lines@[a].order_id
                        && ls[a].menu_id == pre.lines@[a].menu_id);
                    assert(ls[b].id == pre.lines@[b].id && ls[b].order_id == pre.lines@[b].order_id
                        && ls[b].menu_id == pre.lines@[b].menu_id);
                }
                assert forall|a: int|
                    0 <= a < ls.len() implies 1 <= (#[trigger] ls[a]).id < self.next_line_id && 1
                    <= ls[a].quantity && 0 <= ls[a].cooking_time && has_order(
                    self.orders@,
                    ls[a].order_id,
                ) && has_menu(self.menus@, ls[a].menu_id) by {
                    if a != k as int {
                        assert(ls[a] == pre.lines@[a]);
                    }
                }
            }
            Ok(RemoveOutcome::QuantityReduced)
        } else {
            proof {
                lemma_line_idx_is(pre.lines@, l.id, k as int);
            }
            self.delete_line(l.id);
            if self.has_items(order.id) {
                Ok(RemoveOutcome::ItemRemoved)
            } else {
                proof {
                    lemma_order_for_has_id(pre.orders@, table_id);
                }
                match self.delete_order(order.id) {
                    Ok(_) => {
                        proof {
                            let w0: int = choose|i: int|
                                0 <= i < pre.orders@.len() && #[trigger] pre.orders@[i].table_id
                                    == table_id;
                            lemma_order_idx_is(pre.orders@, order.id, w0);
                            let w: int = order_idx(pre.orders@, order.id);
                            let os = self.orders@;
                            assert forall|j: int|
                                0 <= j < os.len() implies (#[trigger] os[j]).table_id
                                != table_id by {
                                let j0: int = if j < w {
                                    j
                                } else {
                                    j + 1
                                };
                                assert(os[j] == pre.orders@[j0]);
                                if j0 < w {
                                    assert(pre.orders@[j0].table_id != pre.orders@[w].table_id);
                                } else {
                                    assert(pre.orders@[w].table_id != pre.orders@[j0].table_id);
                                }
                            }
                        }
                        Ok(RemoveOutcome::OrderClosed)
                    },
                    Err(_) => {
                        proof {
                            assert(false);
                        }
                        Err(LedgerError::InternalFailure)
                    },
                }
            }
        }
    }
}

} // verus!
