//! The order book side of a trading step: filing the step's new orders,
//! and checking the pending trigger and limit orders against the step's
//! candle. What the fired orders do to positions and capital is arithmetic
//! on amounts, left to the caller.

use vstd::prelude::*;

use crate::settings::TradeSettings;
use crate::trade::orders_collector::OrderCollector;
use crate::trade::structs::{
    active_orders, active_positions, copy_of, copy_order, lemma_active_orders_idempotent,
    lemma_active_positions_active, Order, Position, TradeCell,
};
use crate::trade::utils_cell::{
    candle_readable, has_key, insert_order, keys_unique, modify_positions, modify_positions_or_not,
    spec_insert_order, spec_order_fired,
    spec_trigger_action, trigger_readable, TriggerAction,
};

verus! {

/// `a` holds copies of the orders of `b`, one for one.
pub open spec fn copies(a: Seq<Order>, b: Seq<Order>) -> bool {
    &&& a.len() == b.len()
    &&& forall|k: int| 0 <= k < b.len() ==> copy_of(#[trigger] a[k], b[k])
}

/// Every order is a copy of itself.
pub proof fn lemma_copy_of_self(o: Order)
    ensures
        copy_of(o, o),
    decreases o,
{
    assert forall|k: int| 0 <= k < o.tp@.len() implies copy_of(#[trigger] o.tp@[k], o.tp@[k]) by {
        assert(decreases_to!(o => o.tp@[k]));
        lemma_copy_of_self(o.tp@[k]);
    }
    assert forall|k: int| 0 <= k < o.sl@.len() implies copy_of(#[trigger] o.sl@[k], o.sl@[k]) by {
        assert(decreases_to!(o => o.sl@[k]));
        lemma_copy_of_self(o.sl@[k]);
    }
}

/// `os` put under their link ids into `s`, one after the other.
pub open spec fn insert_all(s: Seq<Order>, os: Seq<Order>) -> Seq<Order>
    decreases os.len(),
{
    if os.len() == 0 {
        s
    } else {
        spec_insert_order(insert_all(s, os.drop_last()), os.last())
    }
}

proof fn lemma_insert_copies(a: Seq<Order>, b: Seq<Order>, c: Order, o: Order)
    requires
        copies(a, b),
        copy_of(c, o),
        keys_unique(b),
    ensures
        copies(spec_insert_order(a, c), spec_insert_order(b, o)),
        keys_unique(a),
{
    assert forall|i: int, j: int|
        0 <= i < a.len() && 0 <= j < a.len() && i != j implies (#[trigger] a[i]).order_link_id@
        != (#[trigger] a[j]).order_link_id@ by {
        assert(copy_of(a[i], b[i]) && copy_of(a[j], b[j]));
        assert(b[i].order_link_id@ != b[j].order_link_id@);
    }
    if crate::trade::utils_cell::has_key(b, o.order_link_id@) {
        let kb = choose|k: int| 0 <= k < b.len() && (#[trigger] b[k]).order_link_id@ == o.order_link_id@;
        assert(copy_of(a[kb], b[kb]));
        assert(crate::trade::utils_cell::has_key(a, c.order_link_id@));
        let ka = choose|k: int| 0 <= k < a.len() && (#[trigger] a[k]).order_link_id@ == c.order_link_id@;
        assert(copy_of(a[ka], b[ka]));
        assert(ka == kb);
        assert forall|k: int| 0 <= k < b.len() implies copy_of(
            #[trigger] spec_insert_order(a, c)[k],
            spec_insert_order(b, o)[k],
        ) by {
            assert(copy_of(a[k], b[k]));
        }
    } else {
        assert(!crate::trade::utils_cell::has_key(a, c.order_link_id@)) by {
            if crate::trade::utils_cell::has_key(a, c.order_link_id@) {
                let ka = choose|k: int| 0 <= k < a.len() && (#[trigger] a[k]).order_link_id@ == c.order_link_id@;
                assert(copy_of(a[ka], b[ka]));
            }
        }
        assert forall|k: int| 0 <= k < b.len() + 1 implies copy_of(
            #[trigger] spec_insert_order(a, c)[k],
            spec_insert_order(b, o)[k],
        ) by {
            if k < b.len() {
                assert(copy_of(a[k], b[k]));
            }
        }
    }
}

proof fn lemma_copies_keys(a: Seq<Order>, b: Seq<Order>)
    requires
        copies(a, b),
    ensures
        keys_unique(a) <==> keys_unique(b),
{
    assert forall|i: int| 0 <= i < a.len() implies (#[trigger] a[i]).order_link_id@ == b[i].order_link_id@ by {
        assert(copy_of(a[i], b[i]));
    }
    if keys_unique(a) {
        assert forall|i: int, j: int|
            0 <= i < b.len() && 0 <= j < b.len() && i != j implies (#[trigger] b[i]).order_link_id@
            != (#[trigger] b[j]).order_link_id@ by {
            assert(a[i].order_link_id@ != a[j].order_link_id@);
        }
    }
    if keys_unique(b) {
        assert forall|i: int, j: int|
            0 <= i < a.len() && 0 <= j < a.len() && i != j implies (#[trigger] a[i]).order_link_id@
            != (#[trigger] a[j]).order_link_id@ by {
            assert(b[i].order_link_id@ != b[j].order_link_id@);
        }
    }
}

/// A sequence holds copies of its own orders.
proof fn lemma_copies_self(s: Seq<Order>)
    ensures
        copies(s, s),
{
    assert forall|k: int| 0 <= k < s.len() implies copy_of(#[trigger] s[k], s[k]) by {
        lemma_copy_of_self(s[k]);
    }
}

/// Puts copies of `os` under their link ids into `s`, one after the other.
fn insert_copies(s: &mut Vec<Order>, os: &Vec<Order>, Ghost(b): Ghost<Seq<Order>>)
    requires
        keys_unique(old(s)@),
        copies(old(s)@, b),
    ensures
        keys_unique(final(s)@),
        copies(final(s)@, insert_all(b, os@)),
{
    let mut j: usize = 0;
    assert(os@.subrange(0, 0) =~= Seq::<Order>::empty());
    while j < os.len()
        invariant
            j <= os@.len(),
            keys_unique(s@),
            copies(s@, insert_all(b, os@.subrange(0, j as int))),
        decreases os@.len() - j,
    {
        let c = copy_order(&os[j]);
        proof {
            let pre = os@.subrange(0, j + 1);
            assert(pre.drop_last() =~= os@.subrange(0, j as int));
            assert(pre.last() == os@[j as int]);
            lemma_copies_keys(s@, insert_all(b, os@.subrange(0, j as int)));
            lemma_insert_copies(s@, insert_all(b, os@.subrange(0, j as int)), c, os@[j as int]);
        }
        insert_order(s, c);
        j = j + 1;
    }
    assert(os@.subrange(0, j as int) =~= os@);
}

/// The trigger, limit and market orders after filing `o`: its stop-loss
/// orders, then its take-profit orders, go among the trigger orders; the
/// order itself among the trigger orders when it has a trigger price, among
/// the limit orders when it is a limit order, and among the market orders
/// otherwise. Each goes under its link id.
pub open spec fn spec_file_order(m: (Seq<Order>, Seq<Order>, Seq<Order>), o: Order) -> (
    Seq<Order>,
    Seq<Order>,
    Seq<Order>,
) {
    let t = insert_all(insert_all(m.0, o.sl@), o.tp@);
    if o.spec_is_trigger() {
        (spec_insert_order(t, o), m.1, m.2)
    } else if o.spec_is_limit() {
        (t, spec_insert_order(m.1, o), m.2)
    } else {
        (t, m.1, spec_insert_order(m.2, o))
    }
}

/// The trigger, limit and market orders after filing `os` in order.
pub open spec fn spec_file_orders(m: (Seq<Order>, Seq<Order>, Seq<Order>), os: Seq<Order>) -> (
    Seq<Order>,
    Seq<Order>,
    Seq<Order>,
)
    decreases os.len(),
{
    if os.len() == 0 {
        m
    } else {
        spec_file_order(spec_file_orders(m, os.drop_last()), os.last())
    }
}

impl TradeCell {
    /// Takes in the candles of a step and files its new orders, as
    /// [`spec_file_orders`] states: the orders kept are copies of the filed
    /// ones. Capital and positions are untouched.
    pub fn file_orders(&mut self, src: Vec<u64>, src_l: Vec<u64>, orders: Vec<Order>)
        requires
            keys_unique(old(self).trigger_orders@),
            keys_unique(old(self).limit_orders@),
            keys_unique(old(self).market_orders@),
        ensures
            final(self).src == src,
            final(self).src_l == src_l,
            final(self).capital == old(self).capital,
            final(self).positions == old(self).positions,
            keys_unique(final(self).trigger_orders@),
            keys_unique(final(self).limit_orders@),
            keys_unique(final(self).market_orders@),
            ({
                let m = spec_file_orders(
                    (old(self).trigger_orders@, old(self).limit_orders@, old(self).market_orders@),
                    orders@,
                );
                &&& copies(final(self).trigger_orders@, m.0)
                &&& copies(final(self).limit_orders@, m.1)
                &&& copies(final(self).market_orders@, m.2)
            }),
    {
        let ghost m0 = (self.trigger_orders@, self.limit_orders@, self.market_orders@);
        let ghost capital = self.capital;
        let ghost positions = self.positions;
        self.src = src;
        self.src_l = src_l;
        proof {
            lemma_copies_self(m0.0);
            lemma_copies_self(m0.1);
            lemma_copies_self(m0.2);
            assert(orders@.subrange(0, 0) =~= Seq::<Order>::empty());
        }
        let mut i: usize = 0;
        while i < orders.len()
            invariant
                i <= orders@.len(),
                self.src == src,
                self.src_l == src_l,
                self.capital == capital,
                self.positions == positions,
                keys_unique(self.trigger_orders@),
                keys_unique(self.limit_orders@),
                keys_unique(self.market_orders@),
                ({
                    let m = spec_file_orders(m0, orders@.subrange(0, i as int));
                    &&& copies(self.trigger_orders@, m.0)
                    &&& copies(self.limit_orders@, m.1)
                    &&& copies(self.market_orders@, m.2)
                }),
            decreases orders@.len() - i,
        {
            let ghost m = spec_file_orders(m0, orders@.subrange(0, i as int));
            let o = &orders[i];
            insert_copies(&mut self.trigger_orders, &o.sl, Ghost(m.0));
            insert_copies(&mut self.trigger_orders, &o.tp, Ghost(insert_all(m.0, o.sl@)));
            let ghost t = insert_all(insert_all(m.0, o.sl@), o.tp@);
            let c = copy_order(o);
            if o.is_trigger() {
                proof {
                    lemma_copies_keys(self.trigger_orders@, t);
                    lemma_insert_copies(self.trigger_orders@, t, c, *o);
                }
                insert_order(&mut self.trigger_orders, c);
            } else if o.is_limit() {
                proof {
                    lemma_copies_keys(self.limit_orders@, m.1);
                    lemma_insert_copies(self.limit_orders@, m.1, c, *o);
                }
                insert_order(&mut self.limit_orders, c);
            } else {
                proof {
                    lemma_copies_keys(self.market_orders@, m.2);
                    lemma_insert_copies(self.market_orders@, m.2, c, *o);
                }
                insert_order(&mut self.market_orders, c);
            }
            proof {
                let pre = orders@.subrange(0, i + 1);
                assert(pre.drop_last() =~= orders@.subrange(0, i as int));
                assert(pre.last() == orders@[i as int]);
            }
            i = i + 1;
        }
        assert(orders@.subrange(0, i as int) =~= orders@);
    }
}

/// Copies of copies are copies.
pub proof fn lemma_copy_of_trans(a: Order, b: Order, c: Order)
    requires
        copy_of(a, b),
        copy_of(b, c),
    ensures
        copy_of(a, c),
    decreases c,
{
    assert forall|k: int| 0 <= k < c.tp@.len() implies copy_of(#[trigger] a.tp@[k], c.tp@[k]) by {
        assert(decreases_to!(c => c.tp@[k]));
        assert(copy_of(a.tp@[k], b.tp@[k]) && copy_of(b.tp@[k], c.tp@[k]));
        lemma_copy_of_trans(a.tp@[k], b.tp@[k], c.tp@[k]);
    }
    assert forall|k: int| 0 <= k < c.sl@.len() implies copy_of(#[trigger] a.sl@[k], c.sl@[k]) by {
        assert(decreases_to!(c => c.sl@[k]));
        assert(copy_of(a.sl@[k], b.sl@[k]) && copy_of(b.sl@[k], c.sl@[k]));
        lemma_copy_of_trans(a.sl@[k], b.sl@[k], c.sl@[k]);
    }
}

/// `s` with the orders of link id `key` made inactive.
pub open spec fn spec_deactivate(s: Seq<Order>, key: Seq<char>) -> Seq<Order> {
    Seq::new(
        s.len(),
        |k: int|
            if s[k].order_link_id@ == key {
                Order { is_active: false, ..s[k] }
            } else {
                s[k]
            },
    )
}

proof fn lemma_deactivate_copies(a: Seq<Order>, b: Seq<Order>, key: Seq<char>)
    requires
        copies(a, b),
    ensures
        copies(spec_deactivate(a, key), spec_deactivate(b, key)),
{
    assert forall|k: int| 0 <= k < b.len() implies copy_of(
        #[trigger] spec_deactivate(a, key)[k],
        spec_deactivate(b, key)[k],
    ) by {
        assert(copy_of(a[k], b[k]));
    }
}

/// The trigger orders, the limit orders and the orders to execute after
/// checking the pending order `o` (see [`spec_trigger_action`]): a fired
/// order makes the trigger order of its link id inactive; a limit order to
/// place goes among the limit orders; an order to execute joins the orders
/// to execute.
pub open spec fn spec_check_order(
    s: TradeSettings,
    src: Seq<u64>,
    src_l: Seq<u64>,
    st: (Seq<Order>, Seq<Order>, Seq<Order>),
    o: Order,
) -> (Seq<Order>, Seq<Order>, Seq<Order>) {
    let a = spec_trigger_action(s, src, src_l, o);
    (
        if a == TriggerAction::NotFired {
            st.0
        } else {
            spec_deactivate(st.0, o.order_link_id@)
        },
        if a == TriggerAction::PlaceLimit {
            spec_insert_order(st.1, o)
        } else {
            st.1
        },
        if a == TriggerAction::Execute {
            st.2.push(o)
        } else {
            st.2
        },
    )
}

/// The state after checking the pending orders `pending` in order.
pub open spec fn spec_check_orders(
    s: TradeSettings,
    src: Seq<u64>,
    src_l: Seq<u64>,
    st: (Seq<Order>, Seq<Order>, Seq<Order>),
    pending: Seq<Order>,
) -> (Seq<Order>, Seq<Order>, Seq<Order>)
    decreases pending.len(),
{
    if pending.len() == 0 {
        st
    } else {
        spec_check_order(s, src, src_l, spec_check_orders(s, src, src_l, st, pending.drop_last()), pending.last())
    }
}

/// Every order of `pending` can be checked at the step's candles.
pub open spec fn pending_readable(s: TradeSettings, src: Seq<u64>, src_l: Seq<u64>, pending: Seq<Order>) -> bool {
    forall|k: int| 0 <= k < pending.len() ==> trigger_readable(s, src, src_l, #[trigger] pending[k])
}

fn copy_orders(v: &Vec<Order>) -> (r: Vec<Order>)
    ensures
        copies(r@, v@),
{
    let mut r: Vec<Order> = Vec::new();
    let mut k: usize = 0;
    while k < v.len()
        invariant
            k <= v@.len(),
            r@.len() == k,
            forall|j: int| 0 <= j < k ==> copy_of(#[trigger] r@[j], v@[j]),
        decreases v@.len() - k,
    {
        r.push(copy_order(&v[k]));
        k = k + 1;
    }
    r
}

fn check_orders(
    cell: &mut TradeCell,
    s: &TradeSettings,
    pending: &Vec<Order>,
    Ghost(spec_pending): Ghost<Seq<Order>>,
) -> (r: Vec<Order>)
    requires
        copies(pending@, spec_pending),
        keys_unique(old(cell).limit_orders@),
        pending_readable(*s, old(cell).src@, old(cell).src_l@, spec_pending),
    ensures
        final(cell).capital == old(cell).capital,
        final(cell).src == old(cell).src,
        final(cell).src_l == old(cell).src_l,
        final(cell).market_orders == old(cell).market_orders,
        final(cell).positions == old(cell).positions,
        keys_unique(final(cell).limit_orders@),
        ({
            let st = spec_check_orders(
                *s,
                old(cell).src@,
                old(cell).src_l@,
                (old(cell).trigger_orders@, old(cell).limit_orders@, Seq::empty()),
                spec_pending,
            );
            &&& copies(final(cell).trigger_orders@, st.0)
            &&& copies(final(cell).limit_orders@, st.1)
            &&& copies(r@, st.2)
        }),
{
    let ghost start = (cell.trigger_orders@, cell.limit_orders@, Seq::<Order>::empty());
    let ghost capital = cell.capital;
    let ghost src = cell.src;
    let ghost src_l = cell.src_l;
    let ghost market = cell.market_orders;
    let ghost positions = cell.positions;
    let mut r: Vec<Order> = Vec::new();
    proof {
        lemma_copies_self(start.0);
        lemma_copies_self(start.1);
        assert(copies(r@, start.2));
        assert(spec_pending.subrange(0, 0) =~= Seq::<Order>::empty());
    }
    let mut i: usize = 0;
    while i < pending.len()
        invariant
            i <= pending@.len(),
            copies(pending@, spec_pending),
            pending_readable(*s, src@, src_l@, spec_pending),
            cell.capital == capital,
            cell.src == src,
            cell.src_l == src_l,
            cell.market_orders == market,
            cell.positions == positions,
            keys_unique(cell.limit_orders@),
            ({
                let st = spec_check_orders(*s, src@, src_l@, start, spec_pending.subrange(0, i as int));
                &&& copies(cell.trigger_orders@, st.0)
                &&& copies(cell.limit_orders@, st.1)
                &&& copies(r@, st.2)
            }),
        decreases pending@.len() - i,
    {
        let ghost st = spec_check_orders(*s, src@, src_l@, start, spec_pending.subrange(0, i as int));
        let ghost o = spec_pending[i as int];
        let c = copy_order(&pending[i]);
        proof {
            assert(copy_of(pending@[i as int], o));
            lemma_copy_of_trans(c, pending@[i as int], o);
            assert(trigger_readable(*s, src@, src_l@, o));
            assert(spec_trigger_action(*s, src@, src_l@, c) == spec_trigger_action(*s, src@, src_l@, o));
            lemma_copies_keys(cell.limit_orders@, st.1);
            lemma_insert_copies(cell.limit_orders@, st.1, c, o);
        }
        let ghost trig_before = cell.trigger_orders@;
        let ghost r_before = r@;
        let executed = modify_positions_or_not(s, cell, c);
        proof {
            if spec_trigger_action(*s, src@, src_l@, o) != TriggerAction::NotFired {
                assert(cell.trigger_orders@ =~= spec_deactivate(trig_before, o.order_link_id@));
                lemma_deactivate_copies(trig_before, st.0, o.order_link_id@);
            }
        }
        match executed {
            Some(e) => {
                r.push(e);
                proof {
                    assert forall|k: int| 0 <= k < st.2.len() + 1 implies copy_of(
                        #[trigger] r@[k],
                        st.2.push(o)[k],
                    ) by {
                        if k < st.2.len() {
                            assert(r@[k] == r_before[k]);
                        }
                    }
                }
            },
            None => {},
        }
        proof {
            let pre = spec_pending.subrange(0, i + 1);
            assert(pre.drop_last() =~= spec_pending.subrange(0, i as int));
            assert(pre.last() == o);
        }
        i = i + 1;
    }
    assert(spec_pending.subrange(0, i as int) =~= spec_pending);
    r
}

impl TradeCell {
    /// Checks every pending trigger order of the step, in order, as
    /// [`spec_check_orders`] states, and hands back (copies of) the orders
    /// to execute, in order. Capital, positions and market orders are
    /// untouched.
    pub fn check_trigger_orders(&mut self, s: &TradeSettings) -> (r: Vec<Order>)
        requires
            keys_unique(old(self).limit_orders@),
            pending_readable(*s, old(self).src@, old(self).src_l@, old(self).trigger_orders@),
        ensures
            final(self).capital == old(self).capital,
            final(self).src == old(self).src,
            final(self).src_l == old(self).src_l,
            final(self).market_orders == old(self).market_orders,
            final(self).positions == old(self).positions,
            keys_unique(final(self).limit_orders@),
            ({
                let st = spec_check_orders(
                    *s,
                    old(self).src@,
                    old(self).src_l@,
                    (old(self).trigger_orders@, old(self).limit_orders@, Seq::empty()),
                    old(self).trigger_orders@,
                );
                &&& copies(final(self).trigger_orders@, st.0)
                &&& copies(final(self).limit_orders@, st.1)
                &&& copies(r@, st.2)
            }),
    {
        let pending = copy_orders(&self.trigger_orders);
        check_orders(self, s, &pending, Ghost(self.trigger_orders@))
    }

    /// Checks every pending limit order of the step, in order, as
    /// [`spec_check_orders`] states, and hands back (copies of) the orders
    /// to execute, in order.
    pub fn check_limit_orders(&mut self, s: &TradeSettings) -> (r: Vec<Order>)
        requires
            keys_unique(old(self).limit_orders@),
            pending_readable(*s, old(self).src@, old(self).src_l@, old(self).limit_orders@),
        ensures
            final(self).capital == old(self).capital,
            final(self).src == old(self).src,
            final(self).src_l == old(self).src_l,
            final(self).market_orders == old(self).market_orders,
            final(self).positions == old(self).positions,
            keys_unique(final(self).limit_orders@),
            ({
                let st = spec_check_orders(
                    *s,
                    old(self).src@,
                    old(self).src_l@,
                    (old(self).trigger_orders@, old(self).limit_orders@, Seq::empty()),
                    old(self).limit_orders@,
                );
                &&& copies(final(self).trigger_orders@, st.0)
                &&& copies(final(self).limit_orders@, st.1)
                &&& copies(r@, st.2)
            }),
    {
        let pending = copy_orders(&self.limit_orders);
        check_orders(self, s, &pending, Ghost(self.limit_orders@))
    }
}

/// A copy of a position.
pub fn copy_position(p: &Position) -> (r: Position)
    ensures
        r == *p,
{
    Position {
        symbol: p.symbol.clone(),
        side: p.side.clone(),
        qty: p.qty,
        leverage: p.leverage,
        avg_open_price: p.avg_open_price,
        position_idx: p.position_idx.clone(),
        is_active: p.is_active,
    }
}

/// A copy of a step: the same capital, candles and positions, and copies
/// of its orders.
pub fn copy_cell(c: &TradeCell) -> (r: TradeCell)
    ensures
        r.capital == c.capital,
        r.src@ == c.src@,
        r.src_l@ == c.src_l@,
        copies(r.market_orders@, c.market_orders@),
        copies(r.limit_orders@, c.limit_orders@),
        copies(r.trigger_orders@, c.trigger_orders@),
        r.positions@ == c.positions@,
{
    let mut positions: Vec<Position> = Vec::new();
    let mut k: usize = 0;
    while k < c.positions.len()
        invariant
            k <= c.positions@.len(),
            positions@ == c.positions@.subrange(0, k as int),
        decreases c.positions@.len() - k,
    {
        positions.push(copy_position(&c.positions[k]));
        k = k + 1;
        assert(positions@ =~= c.positions@.subrange(0, k as int));
    }
    assert(c.positions@.subrange(0, k as int) =~= c.positions@);
    TradeCell {
        capital: c.capital,
        src: crate::buffer::copy_vec(&c.src),
        src_l: crate::buffer::copy_vec(&c.src_l),
        market_orders: copy_orders(&c.market_orders),
        limit_orders: copy_orders(&c.limit_orders),
        trigger_orders: copy_orders(&c.trigger_orders),
        positions,
    }
}

/// Checking pending orders keeps the trigger orders in place: as many as
/// before, under the same link ids and otherwise the same but for being
/// made inactive. Every order it hands over to execute is one of the
/// pending orders, one whose check says to execute it.
pub proof fn lemma_check_orders_keeps_book(
    s: TradeSettings,
    src: Seq<u64>,
    src_l: Seq<u64>,
    st: (Seq<Order>, Seq<Order>, Seq<Order>),
    pending: Seq<Order>,
)
    ensures
        spec_check_orders(s, src, src_l, st, pending).0.len() == st.0.len(),
        forall|k: int|
            0 <= k < st.0.len() ==> (#[trigger] spec_check_orders(s, src, src_l, st, pending).0[k])
                == (Order { is_active: spec_check_orders(s, src, src_l, st, pending).0[k].is_active, ..st.0[k] }),
        spec_check_orders(s, src, src_l, st, pending).2.len() >= st.2.len(),
        spec_check_orders(s, src, src_l, st, pending).2.subrange(0, st.2.len() as int) == st.2,
        forall|k: int|
            st.2.len() <= k < spec_check_orders(s, src, src_l, st, pending).2.len() ==> pending.contains(
                #[trigger] spec_check_orders(s, src, src_l, st, pending).2[k],
            ) && spec_trigger_action(s, src, src_l, spec_check_orders(s, src, src_l, st, pending).2[k])
                == TriggerAction::Execute,
    decreases pending.len(),
{
    if pending.len() > 0 {
        let init = pending.drop_last();
        let o = pending.last();
        lemma_check_orders_keeps_book(s, src, src_l, st, init);
        let prev = spec_check_orders(s, src, src_l, st, init);
        let next = spec_check_orders(s, src, src_l, st, pending);
        assert(next == spec_check_order(s, src, src_l, prev, o));
        assert forall|k: int| 0 <= k < st.0.len() implies (#[trigger] next.0[k]) == (Order {
            is_active: next.0[k].is_active,
            ..st.0[k]
        }) by {
            assert(prev.0[k] == (Order { is_active: prev.0[k].is_active, ..st.0[k] }));
        }
        assert(next.2.subrange(0, st.2.len() as int) =~= st.2) by {
            assert(prev.2.subrange(0, st.2.len() as int) =~= st.2);
        }
        assert forall|k: int| st.2.len() <= k < next.2.len() implies pending.contains(#[trigger] next.2[k])
            && spec_trigger_action(s, src, src_l, next.2[k]) == TriggerAction::Execute by {
            if k < prev.2.len() {
                assert(next.2[k] == prev.2[k]);
                let j = choose|j: int| 0 <= j < init.len() && init[j] == prev.2[k];
                assert(pending[j] == init[j]);
            } else {
                assert(next.2[k] == o);
                assert(pending[pending.len() - 1] == o);
            }
        }
    }
}

proof fn lemma_insert_keeps(s: Seq<Order>, o: Order)
    ensures
        forall|key: Seq<char>| has_key(s, key) ==> #[trigger] has_key(spec_insert_order(s, o), key),
        has_key(spec_insert_order(s, o), o.order_link_id@),
{
    let r = spec_insert_order(s, o);
    if has_key(s, o.order_link_id@) {
        let c = choose|c: int| 0 <= c < s.len() && (#[trigger] s[c]).order_link_id@ == o.order_link_id@;
        assert(r[c] == o);
        assert forall|key: Seq<char>| has_key(s, key) implies #[trigger] has_key(r, key) by {
            let j = choose|j: int| 0 <= j < s.len() && (#[trigger] s[j]).order_link_id@ == key;
            if j != c {
                assert(r[j] == s[j]);
            }
        }
    } else {
        assert(r[s.len() as int] == o);
        assert forall|key: Seq<char>| has_key(s, key) implies #[trigger] has_key(r, key) by {
            let j = choose|j: int| 0 <= j < s.len() && (#[trigger] s[j]).order_link_id@ == key;
            assert(r[j] == s[j]);
        }
    }
}

proof fn lemma_insert_all_keeps(s: Seq<Order>, os: Seq<Order>)
    ensures
        forall|key: Seq<char>| has_key(s, key) ==> #[trigger] has_key(insert_all(s, os), key),
        forall|j: int| 0 <= j < os.len() ==> has_key(insert_all(s, os), (#[trigger] os[j]).order_link_id@),
    decreases os.len(),
{
    if os.len() > 0 {
        let init = os.drop_last();
        lemma_insert_all_keeps(s, init);
        let prev = insert_all(s, init);
        lemma_insert_keeps(prev, os.last());
        assert forall|j: int| 0 <= j < os.len() implies has_key(
            insert_all(s, os),
            (#[trigger] os[j]).order_link_id@,
        ) by {
            if j < init.len() {
                assert(os[j] == init[j]);
                assert(has_key(prev, init[j].order_link_id@));
            }
        }
    }
}

/// The orders of `m` that an order of the kind of `o` goes among: the
/// trigger orders for an order with a trigger price, else the limit orders
/// for a limit order, else the market orders.
pub open spec fn orders_of_kind(m: (Seq<Order>, Seq<Order>, Seq<Order>), o: Order) -> Seq<Order> {
    if o.spec_is_trigger() {
        m.0
    } else if o.spec_is_limit() {
        m.1
    } else {
        m.2
    }
}

/// Filing orders loses no order: every link id among the trigger, limit or
/// market orders is still there afterwards. And every filed order is found
/// afterwards under its link id among the orders of its kind, its
/// take-profit and stop-loss orders among the trigger orders.
pub proof fn lemma_file_orders_keeps_and_adds(m: (Seq<Order>, Seq<Order>, Seq<Order>), os: Seq<Order>)
    ensures
        forall|key: Seq<char>| has_key(m.0, key) ==> #[trigger] has_key(spec_file_orders(m, os).0, key),
        forall|key: Seq<char>| has_key(m.1, key) ==> #[trigger] has_key(spec_file_orders(m, os).1, key),
        forall|key: Seq<char>| has_key(m.2, key) ==> #[trigger] has_key(spec_file_orders(m, os).2, key),
        forall|k: int|
            0 <= k < os.len() ==> has_key(
                orders_of_kind(spec_file_orders(m, os), #[trigger] os[k]),
                os[k].order_link_id@,
            ),
        forall|k: int, j: int|
            0 <= k < os.len() && 0 <= j < os[k].sl@.len() ==> has_key(
                spec_file_orders(m, os).0,
                (#[trigger] os[k].sl@[j]).order_link_id@,
            ),
        forall|k: int, j: int|
            0 <= k < os.len() && 0 <= j < os[k].tp@.len() ==> has_key(
                spec_file_orders(m, os).0,
                (#[trigger] os[k].tp@[j]).order_link_id@,
            ),
    decreases os.len(),
{
    if os.len() > 0 {
        let init = os.drop_last();
        let o = os.last();
        lemma_file_orders_keeps_and_adds(m, init);
        let prev = spec_file_orders(m, init);
        let next = spec_file_orders(m, os);
        let t1 = insert_all(prev.0, o.sl@);
        let t2 = insert_all(t1, o.tp@);
        lemma_insert_all_keeps(prev.0, o.sl@);
        lemma_insert_all_keeps(t1, o.tp@);
        lemma_insert_keeps(t2, o);
        lemma_insert_keeps(prev.1, o);
        lemma_insert_keeps(prev.2, o);
        assert forall|key: Seq<char>| has_key(prev.0, key) implies #[trigger] has_key(next.0, key) by {
            assert(has_key(t1, key));
            assert(has_key(t2, key));
        }
        assert forall|key: Seq<char>| has_key(prev.1, key) implies #[trigger] has_key(next.1, key) by {}
        assert forall|key: Seq<char>| has_key(prev.2, key) implies #[trigger] has_key(next.2, key) by {}
        assert forall|j: int| 0 <= j < o.sl@.len() implies has_key(next.0, (#[trigger] o.sl@[j]).order_link_id@) by {
            assert(has_key(t1, o.sl@[j].order_link_id@));
            assert(has_key(t2, o.sl@[j].order_link_id@));
        }
        assert forall|j: int| 0 <= j < o.tp@.len() implies has_key(next.0, (#[trigger] o.tp@[j]).order_link_id@) by {
            assert(has_key(t2, o.tp@[j].order_link_id@));
        }
        assert forall|k: int| 0 <= k < os.len() implies has_key(
            orders_of_kind(next, #[trigger] os[k]),
            os[k].order_link_id@,
        ) by {
            if k < init.len() {
                assert(os[k] == init[k]);
                assert(has_key(orders_of_kind(prev, init[k]), init[k].order_link_id@));
            } else {
                assert(os[k] == o);
            }
        }
        assert forall|k: int, j: int| 0 <= k < os.len() && 0 <= j < os[k].sl@.len() implies has_key(
            next.0,
            (#[trigger] os[k].sl@[j]).order_link_id@,
        ) by {
            if k < init.len() {
                assert(os[k] == init[k]);
                assert(has_key(prev.0, init[k].sl@[j].order_link_id@));
            } else {
                assert(os[k] == o);
            }
        }
        assert forall|k: int, j: int| 0 <= k < os.len() && 0 <= j < os[k].tp@.len() implies has_key(
            next.0,
            (#[trigger] os[k].tp@[j]).order_link_id@,
        ) by {
            if k < init.len() {
                assert(os[k] == init[k]);
                assert(has_key(prev.0, init[k].tp@[j].order_link_id@));
            } else {
                assert(os[k] == o);
            }
        }
    }
}

/// A full candle: it reaches every field a price rule may read, up to the
/// mark price (index 8).
pub open spec fn full_candle(src: Seq<u64>) -> bool {
    src.len() > 8
}

proof fn lemma_full_candles_readable(s: TradeSettings, src: Seq<u64>, src_l: Seq<u64>, orders: Seq<Order>)
    requires
        full_candle(src),
        full_candle(src_l),
    ensures
        pending_readable(s, src, src_l, orders),
        candle_readable(s.work_in_real_time, src),
{
}

/// Applies `orders` in turn to the positions, with the amounts `amounts`
/// computes for each.
fn apply_orders<F: Fn(&TradeCell, &Order) -> (u64, u64, u64)>(
    cell: &mut TradeCell,
    s: &TradeSettings,
    orders: &Vec<Order>,
    amounts: &F,
)
    requires
        full_candle(old(cell).src@),
        forall|c: TradeCell, o: Order| #[trigger] amounts.requires((&c, &o)),
    ensures
        final(cell).src == old(cell).src,
        final(cell).src_l == old(cell).src_l,
        final(cell).market_orders == old(cell).market_orders,
        final(cell).limit_orders == old(cell).limit_orders,
        final(cell).trigger_orders == old(cell).trigger_orders,
        orders@.len() == 0 ==> final(cell).positions == old(cell).positions,
{
    let ghost start = *cell;
    let mut i: usize = 0;
    while i < orders.len()
        invariant
            i <= orders@.len(),
            full_candle(cell.src@),
            forall|c: TradeCell, o: Order| #[trigger] amounts.requires((&c, &o)),
            cell.src == start.src,
            cell.src_l == start.src_l,
            cell.market_orders == start.market_orders,
            cell.limit_orders == start.limit_orders,
            cell.trigger_orders == start.trigger_orders,
            i == 0 ==> cell.positions == start.positions,
        decreases orders@.len() - i,
    {
        let order = &orders[i];
        assert(amounts.requires((&*cell, order)));
        let (qty, avg_open_price, capital) = amounts(&*cell, order);
        proof {
            lemma_full_candles_readable(*s, cell.src@, cell.src@, Seq::empty());
        }
        modify_positions(s, cell, order, qty, avg_open_price, capital);
        i = i + 1;
    }
}

/// `chain` runs pending orders through the collectors `cs` in turn, each
/// seeing the positions `positions`: `chain[k + 1]` is what collector `k`
/// left of `chain[k]`.
pub open spec fn collected_by(
    cs: Seq<Box<dyn OrderCollector>>,
    chain: Seq<Seq<Order>>,
    positions: Seq<Position>,
) -> bool {
    &&& chain.len() == cs.len() + 1
    &&& forall|k: int| 0 <= k < cs.len() ==> #[trigger] cs[k].collected(chain[k], positions, chain[k + 1])
}

/// How the step closed into `fin`: every collector of `cs` ran, in turn, on
/// the limit orders (`lc`) and on the trigger orders (`tc`) with the
/// positions `ps` the step had reached; then only the active orders and
/// positions carried over.
pub open spec fn closed_with_collectors(
    cs: Seq<Box<dyn OrderCollector>>,
    ps: Seq<Position>,
    lc: Seq<Seq<Order>>,
    tc: Seq<Seq<Order>>,
    fin: TradeCell,
) -> bool {
    &&& collected_by(cs, lc, ps)
    &&& collected_by(cs, tc, ps)
    &&& fin.limit_orders@ == active_orders(lc.last())
    &&& fin.trigger_orders@ == active_orders(tc.last())
    &&& fin.positions@ == active_positions(ps)
}

/// A step at which no order executes: after filing `orders` in `c` there
/// is no market order, and no pending trigger or limit order fires at the
/// step's candles.
pub open spec fn quiet_step(s: TradeSettings, src: Seq<u64>, src_l: Seq<u64>, c: TradeCell, orders: Seq<Order>) -> bool {
    let m = spec_file_orders((c.trigger_orders@, c.limit_orders@, c.market_orders@), orders);
    &&& m.2.len() == 0
    &&& forall|k: int| 0 <= k < m.0.len() ==> !spec_order_fired(s, src, src_l, #[trigger] m.0[k])
    &&& forall|k: int| 0 <= k < m.1.len() ==> !spec_order_fired(s, src, src_l, #[trigger] m.1[k])
}

/// Checking pending orders of which none fires changes nothing.
proof fn lemma_check_quiet(
    s: TradeSettings,
    src: Seq<u64>,
    src_l: Seq<u64>,
    st: (Seq<Order>, Seq<Order>, Seq<Order>),
    pending: Seq<Order>,
)
    requires
        forall|k: int| 0 <= k < pending.len() ==> !spec_order_fired(s, src, src_l, #[trigger] pending[k]),
    ensures
        spec_check_orders(s, src, src_l, st, pending) == st,
    decreases pending.len(),
{
    if pending.len() > 0 {
        let init = pending.drop_last();
        assert forall|k: int| 0 <= k < init.len() implies !spec_order_fired(s, src, src_l, #[trigger] init[k]) by {
            assert(init[k] == pending[k]);
        }
        lemma_check_quiet(s, src, src_l, st, init);
        assert(!spec_order_fired(s, src, src_l, pending[pending.len() - 1]));
    }
}

/// Copies of orders of which none fires: none of them fires either.
proof fn lemma_copies_quiet(s: TradeSettings, src: Seq<u64>, src_l: Seq<u64>, a: Seq<Order>, b: Seq<Order>)
    requires
        copies(a, b),
        forall|k: int| 0 <= k < b.len() ==> !spec_order_fired(s, src, src_l, #[trigger] b[k]),
    ensures
        forall|k: int| 0 <= k < a.len() ==> !spec_order_fired(s, src, src_l, #[trigger] a[k]),
{
    assert forall|k: int| 0 <= k < a.len() implies !spec_order_fired(s, src, src_l, #[trigger] a[k]) by {
        assert(copy_of(a[k], b[k]));
        assert(!spec_order_fired(s, src, src_l, b[k]));
    }
}

impl TradeCell {
    /// One trading step: takes in the step's candles and files its new
    /// orders; executes the market orders, then the trigger orders that
    /// fire, then the limit orders that fire, each on the positions with
    /// the amounts `amounts` computes; lets every collector tidy the
    /// pending limit and trigger orders; records a copy of the step in
    /// `cells` when `record` is set; and closes the step.
    pub fn step<F: Fn(&TradeCell, &Order) -> (u64, u64, u64)>(
        &mut self,
        src: Vec<u64>,
        src_l: Vec<u64>,
        orders: Vec<Order>,
        s: &TradeSettings,
        amounts: &F,
        order_collectors: &Vec<Box<dyn OrderCollector>>,
        cells: &mut Vec<TradeCell>,
        record: bool,
    )
        requires
            full_candle(src@),
            full_candle(src_l@),
            keys_unique(old(self).trigger_orders@),
            keys_unique(old(self).limit_orders@),
            keys_unique(old(self).market_orders@),
            forall|c: TradeCell, o: Order| #[trigger] amounts.requires((&c, &o)),
        ensures
            final(self).src == src,
            final(self).src_l == src_l,
            final(self).market_orders@.len() == 0,
            forall|k: int|
                0 <= k < final(self).trigger_orders@.len() ==> (#[trigger] final(self).trigger_orders@[k]).is_active,
            forall|k: int|
                0 <= k < final(self).limit_orders@.len() ==> (#[trigger] final(self).limit_orders@[k]).is_active,
            forall|k: int|
                0 <= k < final(self).positions@.len() ==> (#[trigger] final(self).positions@[k]).is_active,
            final(cells)@.len() == old(cells)@.len() + (if record {
                1int
            } else {
                0int
            }),
            exists|ps: Seq<Position>, lc: Seq<Seq<Order>>, tc: Seq<Seq<Order>>|
                #[trigger] closed_with_collectors(order_collectors@, ps, lc, tc, *final(self)) && (quiet_step(
                    *s,
                    src@,
                    src_l@,
                    *old(self),
                    orders@,
                ) ==> ps == old(self).positions@),
    {
        let ghost start = *self;
        let ghost quiet = quiet_step(*s, src@, src_l@, start, orders@);
        let ghost m = spec_file_orders(
            (start.trigger_orders@, start.limit_orders@, start.market_orders@),
            orders@,
        );
        self.file_orders(src, src_l, orders);
        let ghost sv = self.src;
        let ghost slv = self.src_l;
        let market = copy_orders(&self.market_orders);
        apply_orders(self, s, &market, amounts);
        proof {
            lemma_full_candles_readable(*s, self.src@, self.src_l@, self.trigger_orders@);
            if quiet {
                lemma_copies_quiet(*s, sv@, slv@, self.trigger_orders@, m.0);
                lemma_check_quiet(
                    *s,
                    sv@,
                    slv@,
                    (self.trigger_orders@, self.limit_orders@, Seq::empty()),
                    self.trigger_orders@,
                );
                lemma_copies_quiet(*s, sv@, slv@, self.limit_orders@, m.1);
            }
        }
        let ghost limits = self.limit_orders@;
        let fired = self.check_trigger_orders(s);
        apply_orders(self, s, &fired, amounts);
        proof {
            lemma_full_candles_readable(*s, self.src@, self.src_l@, self.limit_orders@);
            if quiet {
                assert forall|k: int| 0 <= k < self.limit_orders@.len() implies !spec_order_fired(
                    *s,
                    sv@,
                    slv@,
                    #[trigger] self.limit_orders@[k],
                ) by {
                    assert(copy_of(self.limit_orders@[k], limits[k]));
                    assert(!spec_order_fired(*s, sv@, slv@, limits[k]));
                }
                lemma_check_quiet(
                    *s,
                    sv@,
                    slv@,
                    (self.trigger_orders@, self.limit_orders@, Seq::empty()),
                    self.limit_orders@,
                );
            }
        }
        let fired = self.check_limit_orders(s);
        apply_orders(self, s, &fired, amounts);
        let ghost ps = self.positions@;
        let ghost mut lc: Seq<Seq<Order>> = seq![self.limit_orders@];
        let ghost mut tc: Seq<Seq<Order>> = seq![self.trigger_orders@];
        let mut k: usize = 0;
        while k < order_collectors.len()
            invariant
                k <= order_collectors@.len(),
                self.src == sv,
                self.src_l == slv,
                self.positions@ == ps,
                lc.len() == k + 1,
                tc.len() == k + 1,
                lc.last() == self.limit_orders@,
                tc.last() == self.trigger_orders@,
                forall|j: int|
                    0 <= j < k ==> #[trigger] order_collectors@[j].collected(lc[j], ps, lc[j + 1]),
                forall|j: int|
                    0 <= j < k ==> #[trigger] order_collectors@[j].collected(tc[j], ps, tc[j + 1]),
            decreases order_collectors@.len() - k,
        {
            order_collectors[k].collect_orders(&mut self.limit_orders, &self.positions);
            order_collectors[k].collect_orders(&mut self.trigger_orders, &self.positions);
            proof {
                let lc0 = lc;
                let tc0 = tc;
                lc = lc.push(self.limit_orders@);
                tc = tc.push(self.trigger_orders@);
                assert forall|j: int| 0 <= j < k + 1 implies #[trigger] order_collectors@[j].collected(
                    lc[j],
                    ps,
                    lc[j + 1],
                ) by {
                    if j < k {
                        assert(lc[j] == lc0[j] && lc[j + 1] == lc0[j + 1]);
                    }
                }
                assert forall|j: int| 0 <= j < k + 1 implies #[trigger] order_collectors@[j].collected(
                    tc[j],
                    ps,
                    tc[j + 1],
                ) by {
                    if j < k {
                        assert(tc[j] == tc0[j] && tc[j + 1] == tc0[j + 1]);
                    }
                }
            }
            k = k + 1;
        }
        if record {
            cells.push(copy_cell(self));
        }
        let ghost before = *self;
        self.finish_step();
        proof {
            lemma_active_orders_idempotent(before.trigger_orders@);
            lemma_active_orders_idempotent(before.limit_orders@);
            lemma_active_positions_active(before.positions@);
            assert(closed_with_collectors(order_collectors@, ps, lc, tc, *self));
            assert(quiet ==> ps == start.positions@);
        }
    }
}

/// Collectors after `k` that leave nothing of nothing keep an emptied list
/// empty down the chain.
proof fn lemma_chain_stays_empty(
    cs: Seq<Box<dyn OrderCollector>>,
    chain: Seq<Seq<Order>>,
    ps: Seq<Position>,
    k: int,
    j: int,
)
    requires
        collected_by(cs, chain, ps),
        0 <= k < j <= cs.len(),
        chain[k + 1].len() == 0,
        forall|i: int, r: Seq<Order>|
            k < i < cs.len() && #[trigger] cs[i].collected(Seq::empty(), ps, r) ==> r.len() == 0,
    ensures
        chain[j].len() == 0,
    decreases j - k,
{
    if j > k + 1 {
        lemma_chain_stays_empty(cs, chain, ps, k, j - 1);
        let i = j - 1;
        assert(chain[i] =~= Seq::<Order>::empty());
        assert(cs[i].collected(chain[i], ps, chain[i + 1]));
    }
}

/// The collectors run at every step, on the positions the step reached: a
/// step that ends with no position held in the step (`ps` empty), and whose
/// collectors include one that leaves nothing when no position is held (as
/// [`CLEAR`](crate::trade::orders_collector::CLEAR) does) followed only by
/// collectors that leave nothing of nothing, carries no pending trigger or
/// limit order over.
pub proof fn lemma_no_position_no_pending_orders(
    cs: Seq<Box<dyn OrderCollector>>,
    ps: Seq<Position>,
    lc: Seq<Seq<Order>>,
    tc: Seq<Seq<Order>>,
    fin: TradeCell,
    k: int,
)
    requires
        closed_with_collectors(cs, ps, lc, tc, fin),
        ps.len() == 0,
        0 <= k < cs.len(),
        forall|o: Seq<Order>, r: Seq<Order>| #[trigger] cs[k].collected(o, ps, r) ==> r.len() == 0,
        forall|i: int, r: Seq<Order>|
            k < i < cs.len() && #[trigger] cs[i].collected(Seq::empty(), ps, r) ==> r.len() == 0,
    ensures
        fin.limit_orders@.len() == 0,
        fin.trigger_orders@.len() == 0,
        fin.positions@.len() == 0,
{
    assert(cs[k].collected(lc[k], ps, lc[k + 1]));
    assert(cs[k].collected(tc[k], ps, tc[k + 1]));
    lemma_chain_stays_empty(cs, lc, ps, k, cs.len() as int);
    lemma_chain_stays_empty(cs, tc, ps, k, cs.len() as int);
    assert(lc.last() =~= Seq::<Order>::empty());
    assert(tc.last() =~= Seq::<Order>::empty());
    assert(active_orders(Seq::<Order>::empty()) =~= Seq::<Order>::empty());
    assert(active_positions(ps) =~= Seq::<Position>::empty());
}

/// A step at which nothing executes sees the positions the cell held before
/// it: with none held, the collectors see none.
pub proof fn lemma_quiet_step_sees_held_positions(
    s: TradeSettings,
    src: Seq<u64>,
    src_l: Seq<u64>,
    c: TradeCell,
    orders: Seq<Order>,
    cs: Seq<Box<dyn OrderCollector>>,
    ps: Seq<Position>,
    lc: Seq<Seq<Order>>,
    tc: Seq<Seq<Order>>,
    fin: TradeCell,
)
    requires
        closed_with_collectors(cs, ps, lc, tc, fin),
        quiet_step(s, src, src_l, c, orders) ==> ps == c.positions@,
        quiet_step(s, src, src_l, c, orders),
        c.positions@.len() == 0,
    ensures
        ps.len() == 0,
        fin.positions@.len() == 0,
{
    assert(active_positions(ps) =~= Seq::<Position>::empty());
}

} // verus!
