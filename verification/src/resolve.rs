//! The order resolution service: given a table and the requested menu
//! items, converge the ledger to "these items are now part of the
//! table's order". A table with no open order gets a fresh one;
//! within the order each requested item merges into its existing line
//! by the increment rule, or starts a fresh line of one unit under a
//! freshly drawn cooking-time estimate. Items are applied one by one,
//! and a failure part-way leaves the earlier writes in place — the
//! caller must re-read before retrying.

use crate::arith::{inc_cooking_time, increment, increment_fits};
use crate::estimator::{draw_cooking_time_estimate, ESTIMATE_MAX, ESTIMATE_MIN};
use crate::ledger::{
    has_line_for, has_menu, has_order, has_order_for, has_table, line_idx_for, order_for, Ledger,
};
use crate::models::{LedgerError, Menu, Order, OrderLine, ResolveOutcome};
use vstd::prelude::*;

verus! {

/// One step of resolution: how the lines and the line counter change
/// when one menu item is applied to an order, and the error that stops
/// the call instead. A present line is merged by the increment rule; an
/// unregistered menu item is refused; otherwise a fresh line of one
/// unit is appended under the given estimate.
pub open spec fn apply_item(
    menus: Seq<Menu>,
    lines: Seq<OrderLine>,
    next_line_id: i64,
    order_id: i64,
    menu_id: i64,
    est: i64,
) -> (Seq<OrderLine>, i64, Option<LedgerError>) {
    if has_line_for(lines, order_id, menu_id) {
        let k: int = line_idx_for(lines, order_id, menu_id);
        let l = lines[k];
        if increment_fits(l.cooking_time, l.quantity) {
            (
                lines.update(
                    k,
                    (OrderLine {
                        id: l.id,
                        order_id: l.order_id,
                        menu_id: l.menu_id,
                        cooking_time: inc_cooking_time(
                            l.cooking_time as int,
                            l.quantity as int,
                        ) as i64,
                        quantity: (l.quantity + 1) as i64,
                    }),
                ),
                next_line_id,
                None,
            )
        } else {
            (lines, next_line_id, Some(LedgerError::InternalFailure))
        }
    } else if !has_menu(menus, menu_id) {
        (lines, next_line_id, Some(LedgerError::ConstraintViolation))
    } else {
        (
            lines.push(
                (OrderLine {
                    id: next_line_id,
                    order_id,
                    menu_id,
                    cooking_time: est,
                    quantity: 1,
                }),
            ),
            (next_line_id + 1) as i64,
            None,
        )
    }
}

/// Resolution applied to a whole request: the items are folded over
/// the lines one by one, and the first error stops the fold with the
/// state reached so far — earlier items stay applied.
pub open spec fn apply_items(
    menus: Seq<Menu>,
    lines: Seq<OrderLine>,
    next_line_id: i64,
    order_id: i64,
    menu_ids: Seq<i64>,
    ests: Seq<i64>,
) -> (Seq<OrderLine>, i64, Option<LedgerError>)
    decreases menu_ids.len(),
{
    if menu_ids.len() == 0 {
        (lines, next_line_id, None)
    } else {
        let step = apply_item(menus, lines, next_line_id, order_id, menu_ids[0], ests[0]);
        if step.2 is Some {
            step
        } else {
            apply_items(menus, step.0, step.1, order_id, menu_ids.skip(1), ests.skip(1))
        }
    }
}

/// The whole effect of one resolution call on the ledger: the orders,
/// the lines, the two row counters, and the returned outcome. An empty
/// request is refused before any mutation; a table with an open order
/// merges into it; a table without one must be registered, and gets a
/// fresh order before its items are applied.
pub open spec fn spec_resolve(
    pre: Ledger,
    table_id: i64,
    menu_ids: Seq<i64>,
    ests: Seq<i64>,
) -> (Seq<Order>, Seq<OrderLine>, i64, i64, Result<ResolveOutcome, LedgerError>) {
    if menu_ids.len() == 0 {
        (
            pre.orders@,
            pre.lines@,
            pre.next_order_id,
            pre.next_line_id,
            Err(LedgerError::InvalidRequest),
        )
    } else if has_order_for(pre.orders@, table_id) {
        let oid: i64 = order_for(pre.orders@, table_id).id;
        let folded = apply_items(pre.menus@, pre.lines@, pre.next_line_id, oid, menu_ids, ests);
        (
            pre.orders@,
            folded.0,
            pre.next_order_id,
            folded.1,
            match folded.2 {
                None => Ok(ResolveOutcome::Merged),
                Some(err) => Err(err),
            },
        )
    } else if !has_table(pre.tables@, table_id) {
        (
            pre.orders@,
            pre.lines@,
            pre.next_order_id,
            pre.next_line_id,
            Err(LedgerError::ConstraintViolation),
        )
    } else {
        let oid: i64 = pre.next_order_id;
        let folded = apply_items(pre.menus@, pre.lines@, pre.next_line_id, oid, menu_ids, ests);
        (
            pre.orders@.push((Order { id: oid, table_id })),
            folded.0,
            (pre.next_order_id + 1) as i64,
            folded.1,
            match folded.2 {
                None => Ok(ResolveOutcome::Created(oid)),
                Some(err) => Err(err),
            },
        )
    }
}

/// The post-state and result of a resolution call are exactly what
/// `spec_resolve` gives for the pre-state, and the catalogs and their
/// counters are untouched.
pub open spec fn resolve_matches(
    pre: Ledger,
    post: Ledger,
    r: Result<ResolveOutcome, LedgerError>,
    table_id: i64,
    menu_ids: Seq<i64>,
    ests: Seq<i64>,
) -> bool {
    let outcome = spec_resolve(pre, table_id, menu_ids, ests);
    &&& post.orders@ == outcome.0
    &&& post.lines@ == outcome.1
    &&& post.next_order_id == outcome.2
    &&& post.next_line_id == outcome.3
    &&& r == outcome.4
    &&& post.tables@ == pre.tables@
    &&& post.menus@ == pre.menus@
    &&& post.next_table_id == pre.next_table_id
    &&& post.next_menu_id == pre.next_menu_id
}

impl Ledger {
    /// Resolution under caller-supplied cooking-time estimates, one
    /// per requested item, each consumed only where the item starts a
    /// fresh line. The estimator is a pluggable dependency:
    /// `resolve` draws the estimates at random, and this function is
    /// verified for every estimate value.
    pub fn resolve_with_estimates(
        &mut self,
        table_id: i64,
        menu_ids: &Vec<i64>,
        estimates: &Vec<i64>,
    ) -> (r: Result<ResolveOutcome, LedgerError>)
        requires
            old(self).wf(),
            estimates@.len() == menu_ids@.len(),
            forall|k: int| 0 <= k < estimates@.len() ==> 0 <= #[trigger] estimates@[k],
            old(self).next_order_id < i64::MAX,
            old(self).next_line_id as int + menu_ids@.len() <= i64::MAX as int,
        ensures
            final(self).wf(),
            resolve_matches(*old(self), *final(self), r, table_id, menu_ids@, estimates@),
    {
        let ghost pre: Ledger = *old(self);
        if menu_ids.len() == 0 {
            return Err(LedgerError::InvalidRequest);
        }
        let (order_id, created): (i64, bool) = match self.find_active_order(table_id) {
            Some(order) => (order.id, false),
            None => {
                match self.create_order(table_id) {
                    Ok(id) => (id, true),
                    Err(e) => {
                        return Err(e);
                    },
                }
            },
        };
        proof {
            assert(menu_ids@.skip(0) =~= menu_ids@);
            assert(estimates@.skip(0) =~= estimates@);
            if !created {
                crate::ledger::lemma_order_for_has_id(pre.orders@, table_id);
            } else {
                assert(self.orders@[self.orders@.len() - 1].id == order_id);
            }
        }
        let mut i: usize = 0;
        while i < menu_ids.len()
            invariant
                pre == *old(self),
                i <= menu_ids@.len(),
                menu_ids@.len() > 0,
                estimates@.len() == menu_ids@.len(),
                forall|k: int| 0 <= k < estimates@.len() ==> 0 <= #[trigger] estimates@[k],
                self.wf(),
                self.tables@ == pre.tables@,
                self.menus@ == pre.menus@,
                self.next_table_id == pre.next_table_id,
                self.next_menu_id == pre.next_menu_id,
                has_order(self.orders@, order_id),
                created ==> {
                    &&& !has_order_for(pre.orders@, table_id)
                    &&& has_table(pre.tables@, table_id)
                    &&& order_id == pre.next_order_id
                    &&& self.orders@ == pre.orders@.push((Order { id: order_id, table_id }))
                    &&& self.next_order_id == pre.next_order_id + 1
                },
                !created ==> {
                    &&& has_order_for(pre.orders@, table_id)
                    &&& order_id == order_for(pre.orders@, table_id).id
                    &&& self.orders@ == pre.orders@
                    &&& self.next_order_id == pre.next_order_id
                },
                self.next_line_id as int + (menu_ids@.len() - i) <= i64::MAX as int,
                apply_items(
                    pre.menus@,
                    pre.lines@,
                    pre.next_line_id,
                    order_id,
                    menu_ids@,
                    estimates@,
                ) == apply_items(
                    pre.menus@,
                    self.lines@,
                    self.next_line_id,
                    order_id,
                    menu_ids@.skip(i as int),
                    estimates@.skip(i as int),
                ),
            decreases menu_ids@.len() - i,
        {
            let ghost lines_head: Seq<OrderLine> = self.lines@;
            let ghost next_head: i64 = self.next_line_id;
            let menu_id: i64 = menu_ids[i];
            let est: i64 = estimates[i];
            proof {
                assert(menu_ids@.skip(i as int)[0] == menu_ids@[i as int]);
                assert(estimates@.skip(i as int)[0] == estimates@[i as int]);
                assert(menu_ids@.skip(i as int).skip(1) =~= menu_ids@.skip(i as int + 1));
                assert(estimates@.skip(i as int).skip(1) =~= estimates@.skip(i as int + 1));
            }
            match self.find_line_idx(order_id, menu_id) {
                Some(k) => {
                    let l: OrderLine = self.lines[k];
                    match increment(l.cooking_time, l.quantity) {
                        Some(p) => {
                            let merged = OrderLine {
                                id: l.id,
                                order_id: l.order_id,
                                menu_id: l.menu_id,
                                cooking_time: p.0,
                                quantity: p.1,
                            };
                            self.lines[k] = merged;
                            proof {
                                let ls = self.lines@;
                                assert forall|a: int, b: int|
                                    0 <= a < b < ls.len() implies (#[trigger] ls[a]).id != (
                                #[trigger] ls[b]).id && !(ls[a].order_id == ls[b].order_id
                                    && ls[a].menu_id == ls[b].menu_id) by {
                                    assert(ls[a].id == lines_head[a].id && ls[a].order_id
                                        == lines_head[a].order_id && ls[a].menu_id
                                        == lines_head[a].menu_id);
                                    assert(ls[b].id == lines_head[b].id && ls[b].order_id
                                        == lines_head[b].order_id && ls[b].menu_id
                                        == lines_head[b].menu_id);
                                }
                                assert forall|a: int|
                                    0 <= a < ls.len() implies 1 <= (#[trigger] ls[a]).id
                                        < self.next_line_id && 1 <= ls[a].quantity && 0
                                        <= ls[a].cooking_time && has_order(
                                    self.orders@,
                                    ls[a].order_id,
                                ) && has_menu(self.menus@, ls[a].menu_id) by {
                                    if a != k as int {
                                        assert(ls[a] == lines_head[a]);
                                    }
                                }
                                assert(apply_item(
                                    pre.menus@,
                                    lines_head,
                                    next_head,
                                    order_id,
                                    menu_id,
                                    est,
                                ) == (ls, next_head, None::<LedgerError>));
                            }
                        },
                        None => {
                            proof {
                                assert(apply_item(
                                    pre.menus@,
                                    lines_head,
                                    next_head,
                                    order_id,
                                    menu_id,
                                    est,
                                ) == (
                                    lines_head,
                                    next_head,
                                    Some(LedgerError::InternalFailure),
                                ));
                                assert(apply_items(
                                    pre.menus@,
                                    lines_head,
                                    next_head,
                                    order_id,
                                    menu_ids@.skip(i as int),
                                    estimates@.skip(i as int),
                                ) == (lines_head, next_head, Some(LedgerError::InternalFailure)));
                                assert(resolve_matches(
                                    pre,
                                    *self,
                                    Err(LedgerError::InternalFailure),
                                    table_id,
                                    menu_ids@,
                                    estimates@,
                                ));
                            }
                            return Err(LedgerError::InternalFailure);
                        },
                    }
                },
                None => {
                    match self.create_line(order_id, menu_id, est) {
                        Ok(_) => {
                            proof {
                                assert(apply_item(
                                    pre.menus@,
                                    lines_head,
                                    next_head,
                                    order_id,
                                    menu_id,
                                    est,
                                ) == (
                                    lines_head.push(
                                        (OrderLine {
                                            id: next_head,
                                            order_id,
                                            menu_id,
                                            cooking_time: est,
                                            quantity: 1,
                                        }),
                                    ),
                                    (next_head + 1) as i64,
                                    None::<LedgerError>,
                                ));
                            }
                        },
                        Err(e) => {
                            proof {
                                assert(!has_menu(self.menus@, menu_id));
                                assert(apply_item(
                                    pre.menus@,
                                    lines_head,
                                    next_head,
                                    order_id,
                                    menu_id,
                                    est,
                                ) == (
                                    lines_head,
                                    next_head,
                                    Some(LedgerError::ConstraintViolation),
                                ));
                                assert(apply_items(
                                    pre.menus@,
                                    lines_head,
                                    next_head,
                                    order_id,
                                    menu_ids@.skip(i as int),
                                    estimates@.skip(i as int),
                                ) == (
                                    lines_head,
                                    next_head,
                                    Some(LedgerError::ConstraintViolation),
                                ));
                                assert(resolve_matches(
                                    pre,
                                    *self,
                                    Err(LedgerError::ConstraintViolation),
                                    table_id,
                                    menu_ids@,
                                    estimates@,
                                ));
                            }
                            return Err(e);
                        },
                    }
                },
            }
            i += 1;
        }
        proof {
            assert(menu_ids@.skip(i as int).len() == 0);
        }
        if created {
            Ok(ResolveOutcome::Created(order_id))
        } else {
            Ok(ResolveOutcome::Merged)
        }
    }

    /// Resolution as callers reach it: one cooking-time estimate is
    /// drawn at random per requested item, and the request is applied
    /// under those estimates. Everything but the drawn values is pinned
    /// by `spec_resolve`; of the draws themselves only the documented
    /// range is known.
    pub fn resolve(&mut self, table_id: i64, menu_ids: &Vec<i64>) -> (r: Result<
        ResolveOutcome,
        LedgerError,
    >)
        requires
            old(self).wf(),
            old(self).next_order_id < i64::MAX,
            old(self).next_line_id as int + menu_ids@.len() <= i64::MAX as int,
        ensures
            final(self).wf(),
            exists|ests: Seq<i64>|
                {
                    &&& ests.len() == menu_ids@.len()
                    &&& (forall|k: int|
                        0 <= k < ests.len() ==> ESTIMATE_MIN <= #[trigger] ests[k] <= ESTIMATE_MAX)
                    &&& resolve_matches(*old(self), *final(self), r, table_id, menu_ids@, ests)
                },
    {
        let mut estimates: Vec<i64> = Vec::new();
        let mut i: usize = 0;
        while i < menu_ids.len()
            invariant
                estimates@.len() == i,
                i <= menu_ids@.len(),
                forall|k: int|
                    0 <= k < i ==> ESTIMATE_MIN <= #[trigger] estimates@[k] <= ESTIMATE_MAX,
            decreases menu_ids@.len() - i,
        {
            estimates.push(draw_cooking_time_estimate());
            i += 1;
        }
        let r = self.resolve_with_estimates(table_id, menu_ids, &estimates);
        proof {
            let ests: Seq<i64> = estimates@;
            assert(resolve_matches(*old(self), *self, r, table_id, menu_ids@, ests));
        }
        r
    }
}

} // verus!
