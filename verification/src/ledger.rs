//! The order ledger: the catalog of tables and menu items, the open
//! orders and their lines, and the read/write primitives that uphold
//! the ledger's two uniqueness rules — at most one open order per
//! table, and at most one line per menu item within an order —
//! together with referential integrity between the rows.

use crate::models::{LedgerError, Menu, Order, OrderLine, Table};
use vstd::prelude::*;

verus! {

// ---------------------------------------------------------------------------
// Row lookup predicates and selectors over the ledger's sequences.
// ---------------------------------------------------------------------------

/// Some table row carries this identifier.
pub open spec fn has_table(tables: Seq<Table>, id: i64) -> bool {
    exists|i: int| 0 <= i < tables.len() && #[trigger] tables[i].id == id
}

/// Some table row carries this code.
pub open spec fn has_table_code(tables: Seq<Table>, code: Seq<char>) -> bool {
    exists|i: int| 0 <= i < tables.len() && #[trigger] tables[i].code@ == code
}

/// The table row carrying this code, where one exists.
pub open spec fn table_for_code(tables: Seq<Table>, code: Seq<char>) -> Table {
    tables[choose|i: int| 0 <= i < tables.len() && #[trigger] tables[i].code@ == code]
}

/// The table row carrying this identifier, where one exists.
pub open spec fn table_for(tables: Seq<Table>, id: i64) -> Table {
    tables[choose|i: int| 0 <= i < tables.len() && #[trigger] tables[i].id == id]
}

/// Some menu row carries this identifier.
pub open spec fn has_menu(menus: Seq<Menu>, id: i64) -> bool {
    exists|i: int| 0 <= i < menus.len() && #[trigger] menus[i].id == id
}

/// The menu row carrying this identifier, where one exists.
pub open spec fn menu_for(menus: Seq<Menu>, id: i64) -> Menu {
    menus[choose|i: int| 0 <= i < menus.len() && #[trigger] menus[i].id == id]
}

/// Some menu row carries this name.
pub open spec fn has_menu_name(menus: Seq<Menu>, name: Seq<char>) -> bool {
    exists|i: int| 0 <= i < menus.len() && #[trigger] menus[i].name@ == name
}

/// The menu row carrying this name, where one exists.
pub open spec fn menu_for_name(menus: Seq<Menu>, name: Seq<char>) -> Menu {
    menus[choose|i: int| 0 <= i < menus.len() && #[trigger] menus[i].name@ == name]
}

/// Some order row is open for this table.
pub open spec fn has_order_for(orders: Seq<Order>, table_id: i64) -> bool {
    exists|i: int| 0 <= i < orders.len() && #[trigger] orders[i].table_id == table_id
}

/// The order row open for this table, where one exists.
pub open spec fn order_for(orders: Seq<Order>, table_id: i64) -> Order {
    orders[choose|i: int| 0 <= i < orders.len() && #[trigger] orders[i].table_id == table_id]
}

/// Some order row carries this identifier.
pub open spec fn has_order(orders: Seq<Order>, order_id: i64) -> bool {
    exists|i: int| 0 <= i < orders.len() && #[trigger] orders[i].id == order_id
}

/// Some line row belongs to this order and references this menu item.
pub open spec fn has_line_for(lines: Seq<OrderLine>, order_id: i64, menu_id: i64) -> bool {
    exists|i: int|
        0 <= i < lines.len() && (#[trigger] lines[i]).order_id == order_id && lines[i].menu_id
            == menu_id
}

/// The index of the line of this order for this menu item, where one
/// exists.
pub open spec fn line_idx_for(lines: Seq<OrderLine>, order_id: i64, menu_id: i64) -> int {
    choose|i: int|
        0 <= i < lines.len() && (#[trigger] lines[i]).order_id == order_id && lines[i].menu_id
            == menu_id
}

/// The line of this order for this menu item, where one exists.
pub open spec fn line_for(lines: Seq<OrderLine>, order_id: i64, menu_id: i64) -> OrderLine {
    lines[line_idx_for(lines, order_id, menu_id)]
}

/// Some line row belongs to this order.
pub open spec fn has_line_of_order(lines: Seq<OrderLine>, order_id: i64) -> bool {
    exists|i: int| 0 <= i < lines.len() && #[trigger] lines[i].order_id == order_id
}

/// Some line row carries this identifier.
pub open spec fn has_line(lines: Seq<OrderLine>, line_id: i64) -> bool {
    exists|i: int| 0 <= i < lines.len() && #[trigger] lines[i].id == line_id
}

// ---------------------------------------------------------------------------
// Distinctness and soundness of the row sequences.
// ---------------------------------------------------------------------------

/// No two table rows share an identifier or a code.
pub open spec fn tables_distinct(tables: Seq<Table>) -> bool {
    forall|i: int, j: int|
        0 <= i < j < tables.len() ==> (#[trigger] tables[i]).id != (#[trigger] tables[j]).id
            && tables[i].code@ != tables[j].code@
}

/// No two menu rows share an identifier or a name.
pub open spec fn menus_distinct(menus: Seq<Menu>) -> bool {
    forall|i: int, j: int|
        0 <= i < j < menus.len() ==> (#[trigger] menus[i]).id != (#[trigger] menus[j]).id
            && menus[i].name@ != menus[j].name@
}

/// No two order rows share an identifier, and no two are open for the
/// same table.
pub open spec fn orders_distinct(orders: Seq<Order>) -> bool {
    forall|i: int, j: int|
        0 <= i < j < orders.len() ==> (#[trigger] orders[i]).id != (#[trigger] orders[j]).id
            && orders[i].table_id != orders[j].table_id
}

/// No two line rows share an identifier, and no two belong to the same
/// order for the same menu item.
pub open spec fn lines_distinct(lines: Seq<OrderLine>) -> bool {
    forall|i: int, j: int|
        0 <= i < j < lines.len() ==> (#[trigger] lines[i]).id != (#[trigger] lines[j]).id && !(
        lines[i].order_id == lines[j].order_id && lines[i].menu_id == lines[j].menu_id)
}

/// Every line row carries at least one unit and a non-negative
/// aggregate cooking time.
pub open spec fn lines_sound(lines: Seq<OrderLine>) -> bool {
    forall|i: int|
        0 <= i < lines.len() ==> 1 <= (#[trigger] lines[i]).quantity && 0 <= lines[i].cooking_time
}

// ---------------------------------------------------------------------------
// The ledger itself.
// ---------------------------------------------------------------------------

/// The whole state of the ordering core: the two catalogs, the open
/// orders with their lines, and the counters from which fresh row
/// identifiers are drawn.
pub struct Ledger {
    pub tables: Vec<Table>,
    pub menus: Vec<Menu>,
    pub orders: Vec<Order>,
    pub lines: Vec<OrderLine>,
    pub next_table_id: i64,
    pub next_menu_id: i64,
    pub next_order_id: i64,
    pub next_line_id: i64,
}

impl Ledger {
    /// Well-formedness: identifiers are positive, below their counter
    /// and distinct; codes, names, open tables and `(order, menu)`
    /// pairs are unique; every reference lands on an existing row; and
    /// every line carries a positive quantity and a non-negative
    /// cooking time.
    pub open spec fn wf(self) -> bool {
        &&& 1 <= self.next_table_id
        &&& 1 <= self.next_menu_id
        &&& 1 <= self.next_order_id
        &&& 1 <= self.next_line_id
        &&& forall|i: int|
            0 <= i < self.tables@.len() ==> 1 <= (#[trigger] self.tables@[i]).id
                < self.next_table_id
        &&& forall|i: int|
            0 <= i < self.menus@.len() ==> 1 <= (#[trigger] self.menus@[i]).id < self.next_menu_id
        &&& forall|i: int|
            0 <= i < self.orders@.len() ==> 1 <= (#[trigger] self.orders@[i]).id
                < self.next_order_id
        &&& forall|i: int|
            0 <= i < self.lines@.len() ==> 1 <= (#[trigger] self.lines@[i]).id < self.next_line_id
        &&& tables_distinct(self.tables@)
        &&& menus_distinct(self.menus@)
        &&& orders_distinct(self.orders@)
        &&& lines_distinct(self.lines@)
        &&& lines_sound(self.lines@)
        &&& forall|i: int|
            0 <= i < self.orders@.len() ==> has_table(
                self.tables@,
                (#[trigger] self.orders@[i]).table_id,
            )
        &&& forall|i: int|
            0 <= i < self.lines@.len() ==> has_order(
                self.orders@,
                (#[trigger] self.lines@[i]).order_id,
            ) && has_menu(self.menus@, self.lines@[i].menu_id)
    }

    /// An empty ledger: no rows, counters at one.
    pub fn new() -> (r: Ledger)
        ensures
            r.wf(),
            r.tables@ == Seq::<Table>::empty(),
            r.menus@ == Seq::<Menu>::empty(),
            r.orders@ == Seq::<Order>::empty(),
            r.lines@ == Seq::<OrderLine>::empty(),
            r.next_table_id == 1,
            r.next_menu_id == 1,
            r.next_order_id == 1,
            r.next_line_id == 1,
    {
        Ledger {
            tables: Vec::new(),
            menus: Vec::new(),
            orders: Vec::new(),
            lines: Vec::new(),
            next_table_id: 1,
            next_menu_id: 1,
            next_order_id: 1,
            next_line_id: 1,
        }
    }

    /// The table's open order, where one exists. An absent order is a
    /// valid query outcome, not an error.
    pub fn find_active_order(&self, table_id: i64) -> (r: Option<Order>)
        requires
            self.wf(),
        ensures
            r == spec_active_order(self.orders@, table_id),
    {
        let mut i: usize = 0;
        while i < self.orders.len()
            invariant
                i <= self.orders@.len(),
                orders_distinct(self.orders@),
                forall|k: int| 0 <= k < i ==> (#[trigger] self.orders@[k]).table_id != table_id,
            decreases self.orders@.len() - i,
        {
            if self.orders[i].table_id == table_id {
                proof {
                    lemma_order_for_is(self.orders@, table_id, i as int);
                }
                return Some(self.orders[i]);
            }
            i += 1;
        }
        None
    }

    /// The order's line for a menu item, where one exists. An absent
    /// line is a valid query outcome, not an error.
    pub fn find_line(&self, order_id: i64, menu_id: i64) -> (r: Option<OrderLine>)
        requires
            self.wf(),
        ensures
            r == spec_found_line(self.lines@, order_id, menu_id),
    {
        let mut i: usize = 0;
        while i < self.lines.len()
            invariant
                i <= self.lines@.len(),
                lines_distinct(self.lines@),
                forall|k: int|
                    0 <= k < i ==> !((#[trigger] self.lines@[k]).order_id == order_id
                        && self.lines@[k].menu_id == menu_id),
            decreases self.lines@.len() - i,
        {
            if self.lines[i].order_id == order_id && self.lines[i].menu_id == menu_id {
                proof {
                    lemma_line_for_is(self.lines@, order_id, menu_id, i as int);
                }
                return Some(self.lines[i]);
            }
            i += 1;
        }
        None
    }

    /// The position of the order's line for a menu item, where one
    /// exists.
    pub fn find_line_idx(&self, order_id: i64, menu_id: i64) -> (r: Option<usize>)
        requires
            self.wf(),
        ensures
            r matches Some(k) ==> has_line_for(self.lines@, order_id, menu_id) && k
                < self.lines@.len() && k as int == line_idx_for(self.lines@, order_id, menu_id),
            r is None <==> !has_line_for(self.lines@, order_id, menu_id),
    {
        let mut i: usize = 0;
        while i < self.lines.len()
            invariant
                i <= self.lines@.len(),
                lines_distinct(self.lines@),
                forall|k: int|
                    0 <= k < i ==> !((#[trigger] self.lines@[k]).order_id == order_id
                        && self.lines@[k].menu_id == menu_id),
            decreases self.lines@.len() - i,
        {
            if self.lines[i].order_id == order_id && self.lines[i].menu_id == menu_id {
                proof {
                    lemma_line_for_is(self.lines@, order_id, menu_id, i as int);
                }
                return Some(i);
            }
            i += 1;
        }
        None
    }

    /// Whether any line still belongs to the order.
    pub fn has_items(&self, order_id: i64) -> (r: bool)
        requires
            self.wf(),
        ensures
            r == has_line_of_order(self.lines@, order_id),
    {
        let mut i: usize = 0;
        while i < self.lines.len()
            invariant
                i <= self.lines@.len(),
                forall|k: int| 0 <= k < i ==> (#[trigger] self.lines@[k]).order_id != order_id,
            decreases self.lines@.len() - i,
        {
            if self.lines[i].order_id == order_id {
                return true;
            }
            i += 1;
        }
        false
    }

    /// Whether a table row carries this identifier.
    pub fn table_exists(&self, id: i64) -> (r: bool)
        ensures
            r == has_table(self.tables@, id),
    {
        let mut i: usize = 0;
        while i < self.tables.len()
            invariant
                i <= self.tables@.len(),
                forall|k: int| 0 <= k < i ==> (#[trigger] self.tables@[k]).id != id,
            decreases self.tables@.len() - i,
        {
            if self.tables[i].id == id {
                return true;
            }
            i += 1;
        }
        false
    }

    /// Whether a menu row carries this identifier.
    pub fn menu_exists(&self, id: i64) -> (r: bool)
        ensures
            r == has_menu(self.menus@, id),
    {
        let mut i: usize = 0;
        while i < self.menus.len()
            invariant
                i <= self.menus@.len(),
                forall|k: int| 0 <= k < i ==> (#[trigger] self.menus@[k]).id != id,
            decreases self.menus@.len() - i,
        {
            if self.menus[i].id == id {
                return true;
            }
            i += 1;
        }
        false
    }

    /// Whether an order row carries this identifier.
    pub fn order_exists(&self, order_id: i64) -> (r: bool)
        ensures
            r == has_order(self.orders@, order_id),
    {
        let mut i: usize = 0;
        while i < self.orders.len()
            invariant
                i <= self.orders@.len(),
                forall|k: int| 0 <= k < i ==> (#[trigger] self.orders@[k]).id != order_id,
            decreases self.orders@.len() - i,
        {
            if self.orders[i].id == order_id {
                return true;
            }
            i += 1;
        }
        false
    }

    /// Opens a new order for a table. Refused where the table is not
    /// registered, or where an order is already open for it — a table
    /// cannot carry two open tabs.
    pub fn create_order(&mut self, table_id: i64) -> (r: Result<i64, LedgerError>)
        requires
            old(self).wf(),
            old(self).next_order_id < i64::MAX,
        ensures
            final(self).wf(),
            r is Ok <==> has_table(old(self).tables@, table_id) && !has_order_for(
                old(self).orders@,
                table_id,
            ),
            r matches Ok(id) ==> {
                &&& id == old(self).next_order_id
                &&& final(self).orders@ == old(self).orders@.push((Order { id: id, table_id }))
                &&& final(self).next_order_id == old(self).next_order_id + 1
                &&& final(self).tables@ == old(self).tables@
                &&& final(self).menus@ == old(self).menus@
                &&& final(self).lines@ == old(self).lines@
                &&& final(self).next_table_id == old(self).next_table_id
                &&& final(self).next_menu_id == old(self).next_menu_id
                &&& final(self).next_line_id == old(self).next_line_id
            },
            r matches Err(e) ==> e == LedgerError::ConstraintViolation && *final(self) == *old(
                self,
            ),
    {
        if !self.table_exists(table_id) {
            return Err(LedgerError::ConstraintViolation);
        }
        if self.find_active_order(table_id).is_some() {
            return Err(LedgerError::ConstraintViolation);
        }
        let id: i64 = self.next_order_id;
        self.orders.push(Order { id, table_id });
        self.next_order_id = id + 1;
        proof {
            let os = self.orders@;
            let n: int = os.len() - 1;
            assert forall|a: int, b: int| 0 <= a < b < os.len() implies (#[trigger] os[a]).id != (
            #[trigger] os[b]).id && os[a].table_id != os[b].table_id by {
                if b == n {
                    assert(os[a] == old(self).orders@[a]);
                }
            }
            assert forall|a: int|
                0 <= a < self.lines@.len() implies has_order(
                os,
                (#[trigger] self.lines@[a]).order_id,
            ) by {
                let w: int = choose|w: int|
                    0 <= w < old(self).orders@.len() && #[trigger] old(self).orders@[w].id == self
                        .lines@[a].order_id;
                assert(os[w].id == self.lines@[a].order_id);
            }
        }
        Ok(id)
    }

    /// Appends a fresh line of one unit to an order. Refused where the
    /// order or the menu item is not registered, or where the order
    /// already carries a line for this menu item — callers merge into
    /// the existing line instead.
    pub fn create_line(&mut self, order_id: i64, menu_id: i64, cooking_time: i64) -> (r: Result<
        i64,
        LedgerError,
    >)
        requires
            old(self).wf(),
            0 <= cooking_time,
            old(self).next_line_id < i64::MAX,
        ensures
            final(self).wf(),
            r is Ok <==> has_order(old(self).orders@, order_id) && has_menu(
                old(self).menus@,
                menu_id,
            ) && !has_line_for(old(self).lines@, order_id, menu_id),
            r matches Ok(id) ==> {
                &&& id == old(self).next_line_id
                &&& final(self).lines@ == old(self).lines@.push(
                    (OrderLine { id: id, order_id, menu_id, cooking_time, quantity: 1 }),
                )
                &&& final(self).next_line_id == old(self).next_line_id + 1
                &&& final(self).tables@ == old(self).tables@
                &&& final(self).menus@ == old(self).menus@
                &&& final(self).orders@ == old(self).orders@
                &&& final(self).next_table_id == old(self).next_table_id
                &&& final(self).next_menu_id == old(self).next_menu_id
                &&& final(self).next_order_id == old(self).next_order_id
            },
            r matches Err(e) ==> e == LedgerError::ConstraintViolation && *final(self) == *old(
                self,
            ),
    {
        if !self.order_exists(order_id) {
            return Err(LedgerError::ConstraintViolation);
        }
        if !self.menu_exists(menu_id) {
            return Err(LedgerError::ConstraintViolation);
        }
        if self.find_line(order_id, menu_id).is_some() {
            return Err(LedgerError::ConstraintViolation);
        }
        let id: i64 = self.next_line_id;
        self.lines.push(OrderLine { id, order_id, menu_id, cooking_time, quantity: 1 });
        self.next_line_id = id + 1;
        proof {
            let ls = self.lines@;
            let n: int = ls.len() - 1;
            assert forall|a: int, b: int| 0 <= a < b < ls.len() implies (#[trigger] ls[a]).id != (
            #[trigger] ls[b]).id && !(ls[a].order_id == ls[b].order_id && ls[a].menu_id
                == ls[b].menu_id) by {
                if b == n {
                    assert(ls[a] == old(self).lines@[a]);
                }
            }
        }
        Ok(id)
    }

    /// Removes the line carrying this identifier; removing an absent
    /// line changes nothing.
    pub fn delete_line(&mut self, line_id: i64)
        requires
            old(self).wf(),
        ensures
            final(self).wf(),
            has_line(old(self).lines@, line_id) ==> {
                &&& final(self).lines@ == old(self).lines@.remove(
                    line_idx(old(self).lines@, line_id),
                )
                &&& final(self).tables@ == old(self).tables@
                &&& final(self).menus@ == old(self).menus@
                &&& final(self).orders@ == old(self).orders@
                &&& final(self).next_table_id == old(self).next_table_id
                &&& final(self).next_menu_id == old(self).next_menu_id
                &&& final(self).next_order_id == old(self).next_order_id
                &&& final(self).next_line_id == old(self).next_line_id
            },
            !has_line(old(self).lines@, line_id) ==> *final(self) == *old(self),
    {
        let mut i: usize = 0;
        while i < self.lines.len()
            invariant
                i <= self.lines@.len(),
                self.wf(),
                *self == *old(self),
                forall|k: int| 0 <= k < i ==> (#[trigger] self.lines@[k]).id != line_id,
            decreases self.lines@.len() - i,
        {
            if self.lines[i].id == line_id {
                proof {
                    lemma_line_idx_is(self.lines@, line_id, i as int);
                }
                self.lines.remove(i);
                proof {
                    let ls = self.lines@;
                    let k: int = i as int;
                    assert forall|a: int, b: int|
                        0 <= a < b < ls.len() implies (#[trigger] ls[a]).id != (
                    #[trigger] ls[b]).id && !(ls[a].order_id == ls[b].order_id && ls[a].menu_id
                        == ls[b].menu_id) by {
                        let a0: int = if a < k {
                            a
                        } else {
                            a + 1
                        };
                        let b0: int = if b < k {
                            b
                        } else {
                            b + 1
                        };
                        assert(ls[a] == old(self).lines@[a0]);
                        assert(ls[b] == old(self).lines@[b0]);
                    }
                    assert forall|a: int|
                        0 <= a < ls.len() implies 1 <= (#[trigger] ls[a]).id < self.next_line_id
                            && 1 <= ls[a].quantity && 0 <= ls[a].cooking_time && has_order(
                        self.orders@,
                        ls[a].order_id,
                    ) && has_menu(self.menus@, ls[a].menu_id) by {
                        let a0: int = if a < k {
                            a
                        } else {
                            a + 1
                        };
                        assert(ls[a] == old(self).lines@[a0]);
                    }
                }
                return;
            }
            i += 1;
        }
    }

    /// Closes the order carrying this identifier; removing an absent
    /// order changes nothing. Refused while any line still belongs to
    /// the order — referential integrity keeps lines from orphaning.
    pub fn delete_order(&mut self, order_id: i64) -> (r: Result<(), LedgerError>)
        requires
            old(self).wf(),
        ensures
            final(self).wf(),
            r is Ok <==> !has_line_of_order(old(self).lines@, order_id),
            r matches Err(e) ==> e == LedgerError::ConstraintViolation && *final(self) == *old(
                self,
            ),
            r is Ok && has_order(old(self).orders@, order_id) ==> {
                &&& final(self).orders@ == old(self).orders@.remove(
                    order_idx(old(self).orders@, order_id),
                )
                &&& final(self).tables@ == old(self).tables@
                &&& final(self).menus@ == old(self).menus@
                &&& final(self).lines@ == old(self).lines@
                &&& final(self).next_table_id == old(self).next_table_id
                &&& final(self).next_menu_id == old(self).next_menu_id
                &&& final(self).next_order_id == old(self).next_order_id
                &&& final(self).next_line_id == old(self).next_line_id
            },
            r is Ok && !has_order(old(self).orders@, order_id) ==> *final(self) == *old(self),
    {
        if self.has_items(order_id) {
            return Err(LedgerError::ConstraintViolation);
        }
        let mut i: usize = 0;
        while i < self.orders.len()
            invariant
                i <= self.orders@.len(),
                self.wf(),
                *self == *old(self),
                !has_line_of_order(self.lines@, order_id),
                forall|k: int| 0 <= k < i ==> (#[trigger] self.orders@[k]).id != order_id,
            decreases self.orders@.len() - i,
        {
            if self.orders[i].id == order_id {
                proof {
                    lemma_order_idx_is(self.orders@, order_id, i as int);
                }
                self.orders.remove(i);
                proof {
                    let os = self.orders@;
                    let k: int = i as int;
                    assert forall|a: int, b: int|
                        0 <= a < b < os.len() implies (#[trigger] os[a]).id != (
                    #[trigger] os[b]).id && os[a].table_id != os[b].table_id by {
                        let a0: int = if a < k {
                            a
                        } else {
                            a + 1
                        };
                        let b0: int = if b < k {
                            b
                        } else {
                            b + 1
                        };
                        assert(os[a] == old(self).orders@[a0]);
                        assert(os[b] == old(self).orders@[b0]);
                    }
                    assert forall|a: int|
                        0 <= a < os.len() implies 1 <= (#[trigger] os[a]).id < self.next_order_id
                            && has_table(self.tables@, os[a].table_id) by {
                        let a0: int = if a < k {
                            a
                        } else {
                            a + 1
                        };
                        assert(os[a] == old(self).orders@[a0]);
                    }
                    assert forall|a: int|
                        0 <= a < self.lines@.len() implies has_order(
                        os,
                        (#[trigger] self.lines@[a]).order_id,
                    ) by {
                        let w: int = choose|w: int|
                            0 <= w < old(self).orders@.len() && #[trigger] old(self).orders@[w].id
                                == self.lines@[a].order_id;
                        assert(self.lines@[a].order_id != order_id);
                        assert(w != k);
                        let w2: int = if w < k {
                            w
                        } else {
                            w - 1
                        };
                        assert(os[w2] == old(self).orders@[w]);
                    }
                }
                return Ok(());
            }
            i += 1;
        }
        Ok(())
    }
}

/// The table's open order as an optional value.
pub open spec fn spec_active_order(orders: Seq<Order>, table_id: i64) -> Option<Order> {
    if has_order_for(orders, table_id) {
        Some(order_for(orders, table_id))
    } else {
        None
    }
}

/// The order's line for a menu item as an optional value.
pub open spec fn spec_found_line(lines: Seq<OrderLine>, order_id: i64, menu_id: i64) -> Option<
    OrderLine,
> {
    if has_line_for(lines, order_id, menu_id) {
        Some(line_for(lines, order_id, menu_id))
    } else {
        None
    }
}

// ---------------------------------------------------------------------------
// Uniqueness lemmas: a row found by a unique key is the row the
// selectors above pick.
// ---------------------------------------------------------------------------

/// Among distinct orders, a row open for a table is the one
/// `order_for` picks.
pub proof fn lemma_order_for_is(orders: Seq<Order>, table_id: i64, i: int)
    requires
        orders_distinct(orders),
        0 <= i < orders.len(),
        orders[i].table_id == table_id,
    ensures
        has_order_for(orders, table_id),
        order_for(orders, table_id) == orders[i],
{
    assert(has_order_for(orders, table_id));
    let j: int = choose|j: int|
        0 <= j < orders.len() && #[trigger] orders[j].table_id == table_id;
    if i < j {
        assert(orders[i].table_id != orders[j].table_id);
    } else if j < i {
        assert(orders[j].table_id != orders[i].table_id);
    }
}

/// Among distinct lines, a row of an order for a menu item is the one
/// `line_for` picks.
pub proof fn lemma_line_for_is(lines: Seq<OrderLine>, order_id: i64, menu_id: i64, i: int)
    requires
        lines_distinct(lines),
        0 <= i < lines.len(),
        lines[i].order_id == order_id,
        lines[i].menu_id == menu_id,
    ensures
        has_line_for(lines, order_id, menu_id),
        line_idx_for(lines, order_id, menu_id) == i,
        line_for(lines, order_id, menu_id) == lines[i],
{
    assert(has_line_for(lines, order_id, menu_id));
    let j: int = line_idx_for(lines, order_id, menu_id);
    if i < j {
        assert(!(lines[i].order_id == lines[j].order_id && lines[i].menu_id == lines[j].menu_id));
    } else if j < i {
        assert(!(lines[j].order_id == lines[i].order_id && lines[j].menu_id == lines[i].menu_id));
    }
}

/// The order a table is open for carries an identifier some order row
/// carries — its own.
pub proof fn lemma_order_for_has_id(orders: Seq<Order>, table_id: i64)
    requires
        has_order_for(orders, table_id),
    ensures
        has_order(orders, order_for(orders, table_id).id),
{
    let w: int = choose|i: int|
        0 <= i < orders.len() && #[trigger] orders[i].table_id == table_id;
    assert(orders[w] == order_for(orders, table_id));
}

/// Among distinct tables, a row carrying an identifier is the one
/// `table_for` picks.
pub proof fn lemma_table_for_is(tables: Seq<Table>, id: i64, i: int)
    requires
        tables_distinct(tables),
        0 <= i < tables.len(),
        tables[i].id == id,
    ensures
        has_table(tables, id),
        table_for(tables, id) == tables[i],
{
    assert(has_table(tables, id));
    let j: int = choose|j: int| 0 <= j < tables.len() && #[trigger] tables[j].id == id;
    if i < j {
        assert(tables[i].id != tables[j].id);
    } else if j < i {
        assert(tables[j].id != tables[i].id);
    }
}

/// Among distinct menus, a row carrying an identifier is the one
/// `menu_for` picks.
pub proof fn lemma_menu_for_is(menus: Seq<Menu>, id: i64, i: int)
    requires
        menus_distinct(menus),
        0 <= i < menus.len(),
        menus[i].id == id,
    ensures
        has_menu(menus, id),
        menu_for(menus, id) == menus[i],
{
    assert(has_menu(menus, id));
    let j: int = choose|j: int| 0 <= j < menus.len() && #[trigger] menus[j].id == id;
    if i < j {
        assert(menus[i].id != menus[j].id);
    } else if j < i {
        assert(menus[j].id != menus[i].id);
    }
}

/// Among distinct tables, a row carrying a code is the one
/// `table_for_code` picks.
pub proof fn lemma_table_for_code_is(tables: Seq<Table>, code: Seq<char>, i: int)
    requires
        tables_distinct(tables),
        0 <= i < tables.len(),
        tables[i].code@ == code,
    ensures
        has_table_code(tables, code),
        table_for_code(tables, code) == tables[i],
{
    assert(has_table_code(tables, code));
    let j: int = choose|j: int| 0 <= j < tables.len() && #[trigger] tables[j].code@ == code;
    if i < j {
        assert(tables[i].code@ != tables[j].code@);
    } else if j < i {
        assert(tables[j].code@ != tables[i].code@);
    }
}

/// The index of the order row carrying this identifier, where one
/// exists.
pub open spec fn order_idx(orders: Seq<Order>, order_id: i64) -> int {
    choose|i: int| 0 <= i < orders.len() && #[trigger] orders[i].id == order_id
}

/// The index of the line row carrying this identifier, where one
/// exists.
pub open spec fn line_idx(lines: Seq<OrderLine>, line_id: i64) -> int {
    choose|i: int| 0 <= i < lines.len() && #[trigger] lines[i].id == line_id
}

/// Among distinct orders, a row carrying an identifier sits at the
/// index `order_idx` picks.
pub proof fn lemma_order_idx_is(orders: Seq<Order>, order_id: i64, i: int)
    requires
        orders_distinct(orders),
        0 <= i < orders.len(),
        orders[i].id == order_id,
    ensures
        has_order(orders, order_id),
        order_idx(orders, order_id) == i,
{
    assert(has_order(orders, order_id));
    let j: int = order_idx(orders, order_id);
    if i < j {
        assert(orders[i].id != orders[j].id);
    } else if j < i {
        assert(orders[j].id != orders[i].id);
    }
}

/// Among distinct lines, a row carrying an identifier sits at the
/// index `line_idx` picks.
pub proof fn lemma_line_idx_is(lines: Seq<OrderLine>, line_id: i64, i: int)
    requires
        lines_distinct(lines),
        0 <= i < lines.len(),
        lines[i].id == line_id,
    ensures
        has_line(lines, line_id),
        line_idx(lines, line_id) == i,
{
    assert(has_line(lines, line_id));
    let j: int = line_idx(lines, line_id);
    if i < j {
        assert(lines[i].id != lines[j].id);
    } else if j < i {
        assert(lines[j].id != lines[i].id);
    }
}

/// Among distinct menus, a row carrying a name is the one
/// `menu_for_name` picks.
pub proof fn lemma_menu_for_name_is(menus: Seq<Menu>, name: Seq<char>, i: int)
    requires
        menus_distinct(menus),
        0 <= i < menus.len(),
        menus[i].name@ == name,
    ensures
        has_menu_name(menus, name),
        menu_for_name(menus, name) == menus[i],
{
    assert(has_menu_name(menus, name));
    let j: int = choose|j: int| 0 <= j < menus.len() && #[trigger] menus[j].name@ == name;
    if i < j {
        assert(menus[i].name@ != menus[j].name@);
    } else if j < i {
        assert(menus[j].name@ != menus[i].name@);
    }
}

} // verus!
