//! Read-side queries over the ledger: the lines of an order joined
//! with their menu names, the same scoped to a table, a single line
//! lookup, and the derived order totals. The total cooking time of an
//! order is recomputed on read from its lines and never stored.

use crate::ledger::{
    has_line_for, has_menu, has_order_for, has_table, lemma_menu_for_is, lemma_table_for_is,
    line_for, menu_for, order_for, table_for, Ledger,
};
use crate::models::{
    LedgerError, Menu, Order, OrderItemResponse, OrderLine, OrderResponse, Table,
};
use vstd::prelude::*;

verus! {

/// The lines that belong to an order, in ledger order.
pub open spec fn lines_of(lines: Seq<OrderLine>, order_id: i64) -> Seq<OrderLine> {
    lines.filter(|l: OrderLine| l.order_id == order_id)
}

/// The derived total cooking time of an order: the sum of the
/// aggregate cooking times of its lines.
pub open spec fn order_total(lines: Seq<OrderLine>, order_id: i64) -> int
    decreases lines.len(),
{
    if lines.len() == 0 {
        0
    } else {
        order_total(lines.drop_last(), order_id) + if lines.last().order_id == order_id {
            lines.last().cooking_time as int
        } else {
            0
        }
    }
}

/// Appending a line grows an order's total by that line's cooking
/// time exactly when the line belongs to the order.
pub proof fn lemma_order_total_push(lines: Seq<OrderLine>, l: OrderLine, order_id: i64)
    ensures
        order_total(lines.push(l), order_id) == order_total(lines, order_id) + if l.order_id
            == order_id {
            l.cooking_time as int
        } else {
            0
        },
{
    assert(lines.push(l).drop_last() =~= lines);
}

/// A prefix of the lines never exceeds the whole total while every
/// cooking time is non-negative.
pub proof fn lemma_order_total_take_le(lines: Seq<OrderLine>, order_id: i64, i: int)
    requires
        0 <= i <= lines.len(),
        forall|k: int| 0 <= k < lines.len() ==> 0 <= (#[trigger] lines[k]).cooking_time,
    ensures
        order_total(lines.take(i), order_id) <= order_total(lines, order_id),
    decreases lines.len() - i,
{
    if i == lines.len() {
        assert(lines.take(i) =~= lines);
    } else {
        lines.lemma_take_succ_push(i);
        lemma_order_total_push(lines.take(i), lines[i], order_id);
        lemma_order_total_take_le(lines, order_id, i + 1);
    }
}

/// An order's total is non-negative while every cooking time is.
pub proof fn lemma_order_total_nonneg(lines: Seq<OrderLine>, order_id: i64)
    requires
        forall|k: int| 0 <= k < lines.len() ==> 0 <= (#[trigger] lines[k]).cooking_time,
    ensures
        0 <= order_total(lines, order_id),
    decreases lines.len(),
{
    if lines.len() > 0 {
        lemma_order_total_nonneg(lines.drop_last(), order_id);
    }
}

/// A response row carries exactly the fields of a line, joined with
/// the name of the menu item the line references.
pub open spec fn response_matches_line(
    r: OrderItemResponse,
    l: OrderLine,
    menus: Seq<Menu>,
) -> bool {
    &&& r.id == l.id
    &&& r.order_id == l.order_id
    &&& r.menu_id == l.menu_id
    &&& r.cooking_time == l.cooking_time
    &&& r.quantity == l.quantity
    &&& r.menu_name@ == menu_for(menus, l.menu_id).name@
}

/// A response sequence mirrors a line sequence row for row.
pub open spec fn responses_match(
    rs: Seq<OrderItemResponse>,
    ls: Seq<OrderLine>,
    menus: Seq<Menu>,
) -> bool {
    &&& rs.len() == ls.len()
    &&& forall|i: int| 0 <= i < rs.len() ==> response_matches_line(#[trigger] rs[i], ls[i], menus)
}

impl Ledger {
    /// The menu row carrying this identifier, which must exist.
    fn menu_ref(&self, id: i64) -> (r: &Menu)
        requires
            self.wf(),
            has_menu(self.menus@, id),
        ensures
            *r == menu_for(self.menus@, id),
    {
        let mut i: usize = 0;
        while i < self.menus.len()
            invariant
                i <= self.menus@.len(),
                self.wf(),
                has_menu(self.menus@, id),
                forall|k: int| 0 <= k < i ==> (#[trigger] self.menus@[k]).id != id,
            decreases self.menus@.len() - i,
        {
            if self.menus[i].id == id {
                proof {
                    lemma_menu_for_is(self.menus@, id, i as int);
                }
                return &self.menus[i];
            }
            i += 1;
        }
        proof {
            assert(false);
        }
        vstd::pervasive::unreached()
    }

    /// The table row carrying this identifier, which must exist.
    fn table_ref(&self, id: i64) -> (r: &Table)
        requires
            self.wf(),
            has_table(self.tables@, id),
        ensures
            *r == table_for(self.tables@, id),
    {
        let mut i: usize = 0;
        while i < self.tables.len()
            invariant
                i <= self.tables@.len(),
                self.wf(),
                has_table(self.tables@, id),
                forall|k: int| 0 <= k < i ==> (#[trigger] self.tables@[k]).id != id,
            decreases self.tables@.len() - i,
        {
            if self.tables[i].id == id {
                proof {
                    lemma_table_for_is(self.tables@, id, i as int);
                }
                return &self.tables[i];
            }
            i += 1;
        }
        proof {
            assert(false);
        }
        vstd::pervasive::unreached()
    }

    /// Lists the lines of an order, each joined with its menu item's
    /// name. An order that does not exist has no lines, so the list
    /// comes back empty.
    pub fn list_lines(&self, order_id: i64) -> (r: Vec<OrderItemResponse>)
        requires
            self.wf(),
        ensures
            responses_match(r@, lines_of(self.lines@, order_id), self.menus@),
    {
        let mut out: Vec<OrderItemResponse> = Vec::new();
        let mut i: usize = 0;
        while i < self.lines.len()
            invariant
                i <= self.lines@.len(),
                self.wf(),
                responses_match(out@, lines_of(self.lines@.take(i as int), order_id), self.menus@),
            decreases self.lines@.len() - i,
        {
            proof {
                broadcast use vstd::seq_lib::group_filter_ensures;

                self.lines@.lemma_take_succ_push(i as int);
                assert(self.lines@.take(i as int).push(self.lines@[i as int]).filter(
                    |l: OrderLine| l.order_id == order_id,
                ) == if (|l: OrderLine| l.order_id == order_id)(self.lines@[i as int]) {
                    self.lines@.take(i as int).filter(
                        |l: OrderLine| l.order_id == order_id,
                    ).push(self.lines@[i as int])
                } else {
                    self.lines@.take(i as int).filter(|l: OrderLine| l.order_id == order_id)
                }) by {
                    self.lines@.take(i as int).lemma_filter_push(
                        self.lines@[i as int],
                        |l: OrderLine| l.order_id == order_id,
                    );
                }
            }
            let l: OrderLine = self.lines[i];
            if l.order_id == order_id {
                let m: &Menu = self.menu_ref(l.menu_id);
                out.push(
                    OrderItemResponse {
                        id: l.id,
                        order_id: l.order_id,
                        menu_id: l.menu_id,
                        menu_name: m.name.clone(),
                        cooking_time: l.cooking_time,
                        quantity: l.quantity,
                    },
                );
            }
            i += 1;
        }
        proof {
            self.lines@.lemma_take_len();
        }
        out
    }

    /// Lists the lines of the table's open order, each joined with its
    /// menu item's name; a table with no open order has no lines.
    pub fn list_lines_for_table(&self, table_id: i64) -> (r: Vec<OrderItemResponse>)
        requires
            self.wf(),
        ensures
            !has_order_for(self.orders@, table_id) ==> r@.len() == 0,
            has_order_for(self.orders@, table_id) ==> responses_match(
                r@,
                lines_of(self.lines@, order_for(self.orders@, table_id).id),
                self.menus@,
            ),
    {
        match self.find_active_order(table_id) {
            Some(order) => self.list_lines(order.id),
            None => Vec::new(),
        }
    }

    /// Retrieves the table's open order's line for one menu item,
    /// joined with the menu item's name. An absent order or line is a
    /// valid query outcome, not an error.
    pub fn get_item(&self, table_id: i64, menu_id: i64) -> (r: Option<OrderItemResponse>)
        requires
            self.wf(),
        ensures
            r is Some <==> has_order_for(self.orders@, table_id) && has_line_for(
                self.lines@,
                order_for(self.orders@, table_id).id,
                menu_id,
            ),
            r matches Some(resp) ==> response_matches_line(
                resp,
                line_for(self.lines@, order_for(self.orders@, table_id).id, menu_id),
                self.menus@,
            ),
    {
        let order = match self.find_active_order(table_id) {
            Some(order) => order,
            None => {
                return None;
            },
        };
        let l = match self.find_line(order.id, menu_id) {
            Some(l) => l,
            None => {
                return None;
            },
        };
        let m: &Menu = self.menu_ref(l.menu_id);
        Some(
            OrderItemResponse {
                id: l.id,
                order_id: l.order_id,
                menu_id: l.menu_id,
                menu_name: m.name.clone(),
                cooking_time: l.cooking_time,
                quantity: l.quantity,
            },
        )
    }

    /// The derived total cooking time of an order, recomputed from its
    /// lines on every call. `None` exactly when the sum no longer fits
    /// the 32-bit field callers read it through.
    pub fn calculate_total_cooking_time(&self, order_id: i64) -> (r: Option<i32>)
        requires
            self.wf(),
        ensures
            r matches Some(t) ==> t as int == order_total(self.lines@, order_id),
            r is Some <==> order_total(self.lines@, order_id) <= i32::MAX as int,
    {
        let mut total: i64 = 0;
        let mut i: usize = 0;
        while i < self.lines.len()
            invariant
                i <= self.lines@.len(),
                self.wf(),
                0 <= total <= i32::MAX,
                total as int == order_total(self.lines@.take(i as int), order_id),
            decreases self.lines@.len() - i,
        {
            proof {
                self.lines@.lemma_take_succ_push(i as int);
                lemma_order_total_push(
                    self.lines@.take(i as int),
                    self.lines@[i as int],
                    order_id,
                );
            }
            let l: OrderLine = self.lines[i];
            if l.order_id == order_id {
                if l.cooking_time > i32::MAX as i64 - total {
                    proof {
                        lemma_order_total_take_le(self.lines@, order_id, i as int + 1);
                    }
                    return None;
                }
                total = total + l.cooking_time;
            }
            i += 1;
        }
        proof {
            self.lines@.lemma_take_len();
        }
        Some(total as i32)
    }

    /// Lists every open order: its table's code, its lines joined with
    /// their menu names, and its derived total cooking time. Fails
    /// only where a total no longer fits its 32-bit field.
    pub fn list_orders(&self) -> (r: Result<Vec<OrderResponse>, LedgerError>)
        requires
            self.wf(),
        ensures
            r is Ok <==> (forall|i: int|
                0 <= i < self.orders@.len() ==> order_total(
                    self.lines@,
                    (#[trigger] self.orders@[i]).id,
                ) <= i32::MAX as int),
            r matches Ok(v) ==> {
                &&& v@.len() == self.orders@.len()
                &&& forall|i: int|
                    0 <= i < v@.len() ==> {
                        let o = self.orders@[i];
                        &&& (#[trigger] v@[i]).id == o.id
                        &&& v@[i].table_id == o.table_id
                        &&& v@[i].table_name@ == table_for(self.tables@, o.table_id).code@
                        &&& v@[i].total_cooking_time as int == order_total(self.lines@, o.id)
                        &&& responses_match(v@[i].menus@, lines_of(self.lines@, o.id), self.menus@)
                    }
            },
            r matches Err(e) ==> e == LedgerError::InternalFailure,
    {
        let mut out: Vec<OrderResponse> = Vec::new();
        let mut i: usize = 0;
        while i < self.orders.len()
            invariant
                i <= self.orders@.len(),
                self.wf(),
                out@.len() == i,
                forall|k: int|
                    0 <= k < i ==> order_total(self.lines@, (#[trigger] self.orders@[k]).id)
                        <= i32::MAX as int,
                forall|k: int|
                    0 <= k < i ==> {
                        let o = self.orders@[k];
                        &&& (#[trigger] out@[k]).id == o.id
                        &&& out@[k].table_id == o.table_id
                        &&& out@[k].table_name@ == table_for(self.tables@, o.table_id).code@
                        &&& out@[k].total_cooking_time as int == order_total(self.lines@, o.id)
                        &&& responses_match(
                            out@[k].menus@,
                            lines_of(self.lines@, o.id),
                            self.menus@,
                        )
                    },
            decreases self.orders@.len() - i,
        {
            let o: Order = self.orders[i];
            let total: i32 = match self.calculate_total_cooking_time(o.id) {
                Some(t) => t,
                None => {
                    return Err(LedgerError::InternalFailure);
                },
            };
            let t: &Table = self.table_ref(o.table_id);
            let menus: Vec<OrderItemResponse> = self.list_lines(o.id);
            out.push(
                OrderResponse {
                    id: o.id,
                    table_id: o.table_id,
                    table_name: t.code.clone(),
                    total_cooking_time: total,
                    menus,
                },
            );
            i += 1;
        }
        Ok(out)
    }
}

} // verus!
