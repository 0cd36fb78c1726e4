//! Quantity arithmetic: the pure adjustments of a line's quantity and
//! its aggregate cooking time.
//!
//! A line stores its cooking time as an aggregate over the whole
//! quantity. The per-unit time is never stored: it is reconstructed on
//! every adjustment by floor division, which discards a remainder and
//! so may drift the effective per-unit value downward over repeated
//! adjustments. That drift is deliberate ledger behaviour, kept exactly.

use vstd::arithmetic::div_mod::lemma_fundamental_div_mod;
use vstd::prelude::*;

verus! {

/// The per-unit cooking time reconstructed from an aggregate:
/// `cooking_time DIV quantity`, by floor division.
pub open spec fn per_unit_time(cooking_time: int, quantity: int) -> int {
    cooking_time / quantity
}

/// The aggregate cooking time after one unit is added: the
/// reconstructed per-unit time replicated at the new quantity.
pub open spec fn inc_cooking_time(cooking_time: int, quantity: int) -> int {
    (cooking_time / quantity) * (quantity + 1)
}

/// The aggregate cooking time after one unit is removed: the aggregate
/// less one reconstructed per-unit share.
pub open spec fn dec_cooking_time(cooking_time: int, quantity: int) -> int {
    cooking_time - cooking_time / quantity
}

/// Whether the increment of a line with this aggregate and quantity
/// stays within the machine representation.
pub open spec fn increment_fits(cooking_time: i64, quantity: i64) -> bool {
    &&& quantity < i64::MAX
    &&& inc_cooking_time(cooking_time as int, quantity as int) <= i64::MAX as int
}

/// Adds one unit to a line: the new aggregate is
/// `(cooking_time DIV quantity) * (quantity + 1)` and the new quantity
/// is `quantity + 1`. Returns `None` exactly when either value would
/// exceed the machine representation.
pub fn increment(cooking_time: i64, quantity: i64) -> (r: Option<(i64, i64)>)
    requires
        0 <= cooking_time,
        1 <= quantity,
    ensures
        r is Some <==> increment_fits(cooking_time, quantity),
        r matches Some(p) ==> {
            &&& p.0 == inc_cooking_time(cooking_time as int, quantity as int)
            &&& p.1 == quantity + 1
            &&& 0 <= p.0
            &&& 2 <= p.1
        },
{
    if quantity == i64::MAX {
        return None;
    }
    let per_unit: i64 = cooking_time / quantity;
    let new_quantity: i64 = quantity + 1;
    proof {
        lemma_fundamental_div_mod(cooking_time as int, quantity as int);
        assert(0 <= per_unit) by (nonlinear_arith)
            requires
                cooking_time as int == (quantity as int) * (per_unit as int) + cooking_time as int
                    % quantity as int,
                0 <= cooking_time as int % quantity as int,
                0 <= cooking_time,
                1 <= quantity,
        ;
    }
    if per_unit == 0 {
        proof {
            let pu: int = cooking_time as int / quantity as int;
            assert(pu * (quantity as int + 1) == 0) by (nonlinear_arith)
                requires
                    pu == 0,
            ;
        }
        return Some((0, new_quantity));
    }
    let cap: i64 = i64::MAX / new_quantity;
    proof {
        lemma_fundamental_div_mod(i64::MAX as int, new_quantity as int);
        assert(0 <= cap) by (nonlinear_arith)
            requires
                i64::MAX as int == (new_quantity as int) * (cap as int) + i64::MAX as int
                    % new_quantity as int,
                0 <= i64::MAX as int % new_quantity as int,
                2 <= new_quantity,
        ;
    }
    if per_unit > cap {
        proof {
            let rem: int = i64::MAX as int % new_quantity as int;
            // per_unit >= cap + 1, so per_unit * new_quantity exceeds
            // cap * new_quantity + new_quantity > i64::MAX.
            assert((per_unit as int) * (new_quantity as int) > i64::MAX as int)
                by (nonlinear_arith)
                requires
                    i64::MAX as int == (new_quantity as int) * (cap as int) + rem,
                    0 <= rem < new_quantity as int,
                    (per_unit as int) > cap as int,
                    0 < new_quantity as int,
            ;
        }
        return None;
    }
    proof {
        let rem: int = i64::MAX as int % new_quantity as int;
        assert(0 <= (per_unit as int) * (new_quantity as int) <= i64::MAX as int)
            by (nonlinear_arith)
            requires
                i64::MAX as int == (new_quantity as int) * (cap as int) + rem,
                0 <= rem,
                0 <= per_unit as int <= cap as int,
                0 < new_quantity as int,
        ;
    }
    Some((per_unit * new_quantity, new_quantity))
}

/// Removes one unit from a line that keeps at least one unit after:
/// the new aggregate is `cooking_time - (cooking_time DIV quantity)`
/// and the new quantity is `quantity - 1`. A line whose quantity is one
/// is deleted by the closure service instead, never decremented to zero.
pub fn decrement(cooking_time: i64, quantity: i64) -> (r: (i64, i64))
    requires
        0 <= cooking_time,
        2 <= quantity,
    ensures
        r.0 == dec_cooking_time(cooking_time as int, quantity as int),
        r.1 == quantity - 1,
        0 <= r.0 <= cooking_time,
        1 <= r.1,
{
    let per_unit: i64 = cooking_time / quantity;
    proof {
        lemma_fundamental_div_mod(cooking_time as int, quantity as int);
        assert(0 <= per_unit <= cooking_time) by (nonlinear_arith)
            requires
                cooking_time as int == (quantity as int) * (per_unit as int) + cooking_time as int
                    % quantity as int,
                0 <= (cooking_time as int % quantity as int) < quantity as int,
                0 <= cooking_time,
                2 <= quantity,
        ;
    }
    (cooking_time - per_unit, quantity - 1)
}

} // verus!
