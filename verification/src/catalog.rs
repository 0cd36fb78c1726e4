//! The catalog registry: tables and menu items are identity rows,
//! created idempotently by value — registering an already-known code
//! or name hands back the existing identifier and leaves the ledger
//! unchanged.

use crate::ledger::{
    has_menu_name, has_table_code, lemma_menu_for_name_is, lemma_table_for_code_is, menu_for_name,
    table_for_code, Ledger,
};
use crate::models::{Menu, MenuResponse, Table, TableResponse};
use vstd::prelude::*;

verus! {

impl Ledger {
    /// Registers a table by its code: hands back the existing row's
    /// identifier where the code is already present, and otherwise
    /// appends a fresh row under the next identifier.
    pub fn register_table(&mut self, code: String) -> (r: i64)
        requires
            old(self).wf(),
            old(self).next_table_id < i64::MAX,
        ensures
            final(self).wf(),
            has_table_code(old(self).tables@, code@) ==> r == table_for_code(
                old(self).tables@,
                code@,
            ).id && *final(self) == *old(self),
            !has_table_code(old(self).tables@, code@) ==> {
                &&& r == old(self).next_table_id
                &&& final(self).tables@ == old(self).tables@.push(
                    (Table { id: old(self).next_table_id, code: code }),
                )
                &&& final(self).next_table_id == old(self).next_table_id + 1
                &&& final(self).menus@ == old(self).menus@
                &&& final(self).orders@ == old(self).orders@
                &&& final(self).lines@ == old(self).lines@
                &&& final(self).next_menu_id == old(self).next_menu_id
                &&& final(self).next_order_id == old(self).next_order_id
                &&& final(self).next_line_id == old(self).next_line_id
            },
    {
        let mut i: usize = 0;
        while i < self.tables.len()
            invariant
                i <= self.tables@.len(),
                self.wf(),
                forall|k: int| 0 <= k < i ==> (#[trigger] self.tables@[k]).code@ != code@,
            decreases self.tables@.len() - i,
        {
            if self.tables[i].code == code {
                proof {
                    lemma_table_for_code_is(self.tables@, code@, i as int);
                }
                return self.tables[i].id;
            }
            i += 1;
        }
        let id: i64 = self.next_table_id;
        self.tables.push(Table { id, code });
        self.next_table_id = id + 1;
        proof {
            let ts = self.tables@;
            let n: int = ts.len() - 1;
            assert forall|a: int, b: int| 0 <= a < b < ts.len() implies (#[trigger] ts[a]).id != (
            #[trigger] ts[b]).id && ts[a].code@ != ts[b].code@ by {
                if b == n {
                    assert(ts[a] == old(self).tables@[a]);
                }
            }
            assert forall|a: int|
                0 <= a < self.orders@.len() implies crate::ledger::has_table(
                ts,
                (#[trigger] self.orders@[a]).table_id,
            ) by {
                let w: int = choose|w: int|
                    0 <= w < old(self).tables@.len() && #[trigger] old(self).tables@[w].id == self
                        .orders@[a].table_id;
                assert(ts[w].id == self.orders@[a].table_id);
            }
        }
        id
    }

    /// Registers a menu item by its name: hands back the existing
    /// row's identifier where the name is already present, and
    /// otherwise appends a fresh row under the next identifier.
    pub fn register_menu_item(&mut self, name: String) -> (r: i64)
        requires
            old(self).wf(),
            old(self).next_menu_id < i64::MAX,
        ensures
            final(self).wf(),
            has_menu_name(old(self).menus@, name@) ==> r == menu_for_name(
                old(self).menus@,
                name@,
            ).id && *final(self) == *old(self),
            !has_menu_name(old(self).menus@, name@) ==> {
                &&& r == old(self).next_menu_id
                &&& final(self).menus@ == old(self).menus@.push(
                    (Menu { id: old(self).next_menu_id, name: name }),
                )
                &&& final(self).next_menu_id == old(self).next_menu_id + 1
                &&& final(self).tables@ == old(self).tables@
                &&& final(self).orders@ == old(self).orders@
                &&& final(self).lines@ == old(self).lines@
                &&& final(self).next_table_id == old(self).next_table_id
                &&& final(self).next_order_id == old(self).next_order_id
                &&& final(self).next_line_id == old(self).next_line_id
            },
    {
        let mut i: usize = 0;
        while i < self.menus.len()
            invariant
                i <= self.menus@.len(),
                self.wf(),
                forall|k: int| 0 <= k < i ==> (#[trigger] self.menus@[k]).name@ != name@,
            decreases self.menus@.len() - i,
        {
            if self.menus[i].name == name {
                proof {
                    lemma_menu_for_name_is(self.menus@, name@, i as int);
                }
                return self.menus[i].id;
            }
            i += 1;
        }
        let id: i64 = self.next_menu_id;
        self.menus.push(Menu { id, name });
        self.next_menu_id = id + 1;
        proof {
            let ms = self.menus@;
            let n: int = ms.len() - 1;
            assert forall|a: int, b: int| 0 <= a < b < ms.len() implies (#[trigger] ms[a]).id != (
            #[trigger] ms[b]).id && ms[a].name@ != ms[b].name@ by {
                if b == n {
                    assert(ms[a] == old(self).menus@[a]);
                }
            }
            assert forall|a: int|
                0 <= a < self.lines@.len() implies crate::ledger::has_menu(
                ms,
                (#[trigger] self.lines@[a]).menu_id,
            ) by {
                let w: int = choose|w: int|
                    0 <= w < old(self).menus@.len() && #[trigger] old(self).menus@[w].id == self
                        .lines@[a].menu_id;
                assert(ms[w].id == self.lines@[a].menu_id);
            }
        }
        id
    }

    /// Lists every registered table.
    pub fn list_tables(&self) -> (r: Vec<TableResponse>)
        requires
            self.wf(),
        ensures
            r@.len() == self.tables@.len(),
            forall|i: int|
                0 <= i < r@.len() ==> (#[trigger] r@[i]).id == self.tables@[i].id && r@[i].code@
                    == self.tables@[i].code@,
    {
        let mut out: Vec<TableResponse> = Vec::new();
        let mut i: usize = 0;
        while i < self.tables.len()
            invariant
                i <= self.tables@.len(),
                out@.len() == i,
                forall|k: int|
                    0 <= k < i ==> (#[trigger] out@[k]).id == self.tables@[k].id && out@[k].code@
                        == self.tables@[k].code@,
            decreases self.tables@.len() - i,
        {
            out.push(TableResponse { id: self.tables[i].id, code: self.tables[i].code.clone() });
            i += 1;
        }
        out
    }

    /// Lists every registered menu item.
    pub fn list_menus(&self) -> (r: Vec<MenuResponse>)
        requires
            self.wf(),
        ensures
            r@.len() == self.menus@.len(),
            forall|i: int|
                0 <= i < r@.len() ==> (#[trigger] r@[i]).id == self.menus@[i].id && r@[i].name@
                    == self.menus@[i].name@,
    {
        let mut out: Vec<MenuResponse> = Vec::new();
        let mut i: usize = 0;
        while i < self.menus.len()
            invariant
                i <= self.menus@.len(),
                out@.len() == i,
                forall|k: int|
                    0 <= k < i ==> (#[trigger] out@[k]).id == self.menus@[k].id && out@[k].name@
                        == self.menus@[k].name@,
            decreases self.menus@.len() - i,
        {
            out.push(MenuResponse { id: self.menus[i].id, name: self.menus[i].name.clone() });
            i += 1;
        }
        out
    }
}

} // verus!
