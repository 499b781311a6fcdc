//! Collectors that tidy the pending orders of a step once its positions are
//! known.

use vstd::prelude::*;

use crate::trade::structs::{Order, Position};

verus! {

/// A rule that may drop pending orders, given the positions of the step.
pub trait OrderCollector {
    /// The rule: `r` is what the collector may leave of the pending orders
    /// `orders` given the positions `positions`.
    spec fn collected(&self, orders: Seq<Order>, positions: Seq<Position>, r: Seq<Order>) -> bool;

    fn collect_orders(&self, orders: &mut Vec<Order>, positions: &Vec<Position>)
        ensures
            self.collected(old(orders)@, positions@, final(orders)@),
    ;
}

/// Drops every pending order while no position is held.
#[allow(non_camel_case_types)]
pub struct CLEAR {}

impl OrderCollector for CLEAR {
    /// No position held: nothing is left; otherwise every order stays.
    open spec fn collected(&self, orders: Seq<Order>, positions: Seq<Position>, r: Seq<Order>) -> bool {
        if positions.len() == 0 {
            r.len() == 0
        } else {
            r == orders
        }
    }

    fn collect_orders(&self, orders: &mut Vec<Order>, positions: &Vec<Position>)
        ensures
            positions@.len() == 0 ==> final(orders)@.len() == 0,
            positions@.len() > 0 ==> final(orders)@ == old(orders)@,
    {
        if positions.len() == 0 {
            orders.clear();
        }
    }
}

/// The rule of [`CLEAR`]: with no position held nothing is left, whatever
/// was pending; with a position held every pending order stays; and
/// nothing is left of nothing.
pub proof fn lemma_clear_rule(orders: Seq<Order>, positions: Seq<Position>, r: Seq<Order>)
    ensures
        positions.len() == 0 && (CLEAR {}).collected(orders, positions, r) ==> r.len() == 0,
        positions.len() > 0 && (CLEAR {}).collected(orders, positions, r) ==> r == orders,
        (CLEAR {}).collected(Seq::empty(), positions, r) ==> r.len() == 0,
{
}

} // verus!
