//! The state of one trading step: the candle, the capital, the orders and
//! the positions. Prices, amounts and ratios are IEEE-754 binary64 bit
//! patterns.

use vstd::prelude::*;

verus! {

/// A signal value with the probability that it carries.
#[derive(PartialEq, Eq, Structural, Clone, Copy, Debug)]
pub struct Signal {
    pub signal: u64,
    pub probability: u64,
}

#[derive(Clone, Debug)]
pub struct Position {
    pub symbol: String,
    pub side: String,
    pub qty: u64,
    pub leverage: u64,
    pub avg_open_price: u64,
    pub position_idx: String,
    pub is_active: bool,
}

#[derive(Debug)]
pub struct Order {
    pub symbol: String,
    pub side: String,
    pub signal: Signal,
    pub qty: u64,
    pub qty_percent_of_position: u64,
    pub leverage: u64,
    pub price: u64,
    pub type_: String,
    pub tp: Vec<Order>,
    pub sl: Vec<Order>,
    pub trigger_by: String,
    pub trigger_price: u64,
    pub trigger_direction: usize,
    pub is_reduce: bool,
    pub order_link_id: String,
    pub position_idx: String,
    pub is_active: bool,
}

/// One step of a trade: the candle of the step and of the step before
/// (0 time, 1 open, 2 high, 3 low, 4 close, 5 volume, 6 turnover, 7 index
/// price, 8 mark price), the capital, and the orders and positions in the
/// order in which they are kept.
#[derive(Debug)]
pub struct TradeCell {
    pub capital: u64,
    pub src: Vec<u64>,
    pub src_l: Vec<u64>,
    pub market_orders: Vec<Order>,
    pub limit_orders: Vec<Order>,
    pub trigger_orders: Vec<Order>,
    pub positions: Vec<Position>,
}

pub trait IsActive {
    spec fn spec_active(&self) -> bool;

    fn is_active(&self) -> (r: bool)
        ensures
            r == self.spec_active(),
    ;
}

impl IsActive for Position {
    open spec fn spec_active(&self) -> bool {
        self.is_active
    }

    fn is_active(&self) -> (r: bool) {
        self.is_active
    }
}

impl IsActive for Order {
    open spec fn spec_active(&self) -> bool {
        self.is_active
    }

    fn is_active(&self) -> (r: bool) {
        self.is_active
    }
}

/// The active orders of `s`, in order.
pub open spec fn active_orders(s: Seq<Order>) -> Seq<Order>
    decreases s.len(),
{
    if s.len() == 0 {
        Seq::empty()
    } else if s[0].is_active {
        seq![s[0]] + active_orders(s.drop_first())
    } else {
        active_orders(s.drop_first())
    }
}

/// The active positions of `s`, in order.
pub open spec fn active_positions(s: Seq<Position>) -> Seq<Position>
    decreases s.len(),
{
    if s.len() == 0 {
        Seq::empty()
    } else if s[0].is_active {
        seq![s[0]] + active_positions(s.drop_first())
    } else {
        active_positions(s.drop_first())
    }
}

fn retain_active_orders(v: &mut Vec<Order>)
    ensures
        final(v)@ == active_orders(old(v)@),
{
    let ghost start = v@;
    let mut i: usize = v.len();
    assert(start.subrange(i as int, start.len() as int) =~= Seq::<Order>::empty());
    while i > 0
        invariant
            i <= start.len(),
            v@ == start.subrange(0, i as int) + active_orders(start.subrange(i as int, start.len() as int)),
        decreases i,
    {
        i = i - 1;
        let ghost tail = start.subrange(i as int, start.len() as int);
        assert(tail[0] == start[i as int]);
        assert(tail.drop_first() =~= start.subrange(i + 1, start.len() as int));
        assert(v@[i as int] == start[i as int]);
        if !v[i].is_active {
            v.remove(i);
            assert(v@ =~= start.subrange(0, i as int) + active_orders(tail));
        } else {
            assert(v@ =~= start.subrange(0, i as int) + active_orders(tail));
        }
    }
    assert(start.subrange(0, start.len() as int) =~= start);
    assert(v@ =~= active_orders(start));
}

fn retain_active_positions(v: &mut Vec<Position>)
    ensures
        final(v)@ == active_positions(old(v)@),
{
    let ghost start = v@;
    let mut i: usize = v.len();
    assert(start.subrange(i as int, start.len() as int) =~= Seq::<Position>::empty());
    while i > 0
        invariant
            i <= start.len(),
            v@ == start.subrange(0, i as int) + active_positions(start.subrange(i as int, start.len() as int)),
        decreases i,
    {
        i = i - 1;
        let ghost tail = start.subrange(i as int, start.len() as int);
        assert(tail[0] == start[i as int]);
        assert(tail.drop_first() =~= start.subrange(i + 1, start.len() as int));
        assert(v@[i as int] == start[i as int]);
        if !v[i].is_active {
            v.remove(i);
            assert(v@ =~= start.subrange(0, i as int) + active_positions(tail));
        } else {
            assert(v@ =~= start.subrange(0, i as int) + active_positions(tail));
        }
    }
    assert(start.subrange(0, start.len() as int) =~= start);
    assert(v@ =~= active_positions(start));
}

impl TradeCell {
    /// A step with the given capital and candles and no orders or positions.
    pub fn new(capital: u64, src: Vec<u64>, src_l: Vec<u64>) -> (r: Self)
        ensures
            r.capital == capital,
            r.src == src,
            r.src_l == src_l,
            r.market_orders@.len() == 0,
            r.limit_orders@.len() == 0,
            r.trigger_orders@.len() == 0,
            r.positions@.len() == 0,
    {
        TradeCell {
            capital,
            src,
            src_l,
            market_orders: Vec::new(),
            limit_orders: Vec::new(),
            trigger_orders: Vec::new(),
            positions: Vec::new(),
        }
    }

    /// Closes a step: market orders are spent, and only the active trigger
    /// orders, limit orders and positions carry over.
    pub fn finish_step(&mut self)
        ensures
            final(self).market_orders@.len() == 0,
            final(self).trigger_orders@ == active_orders(old(self).trigger_orders@),
            final(self).limit_orders@ == active_orders(old(self).limit_orders@),
            final(self).positions@ == active_positions(old(self).positions@),
            final(self).capital == old(self).capital,
            final(self).src == old(self).src,
            final(self).src_l == old(self).src_l,
    {
        self.market_orders.clear();
        retain_active_orders(&mut self.trigger_orders);
        retain_active_orders(&mut self.limit_orders);
        retain_active_positions(&mut self.positions);
    }
}

/// Closing a step twice changes nothing more: what carries over is all
/// active.
pub proof fn lemma_active_orders_idempotent(s: Seq<Order>)
    ensures
        active_orders(active_orders(s)) == active_orders(s),
        forall|k: int| 0 <= k < active_orders(s).len() ==> (#[trigger] active_orders(s)[k]).is_active,
    decreases s.len(),
{
    if s.len() > 0 {
        lemma_active_orders_idempotent(s.drop_first());
        let rest = active_orders(s.drop_first());
        if s[0].is_active {
            let r = seq![s[0]] + rest;
            assert(r[0] == s[0]);
            assert(r.drop_first() =~= rest);
            assert forall|k: int| 0 <= k < r.len() implies (#[trigger] r[k]).is_active by {
                if k > 0 {
                    assert(r[k] == rest[k - 1]);
                }
            }
        }
    }
}

} // verus!

verus! {

/// `r` is a copy of `o`: the same fields, and take-profit and stop-loss
/// orders that are copies of `o`'s, one for one.
pub open spec fn copy_of(r: Order, o: Order) -> bool
    decreases o,
{
    &&& r.symbol == o.symbol
    &&& r.side == o.side
    &&& r.signal == o.signal
    &&& r.qty == o.qty
    &&& r.qty_percent_of_position == o.qty_percent_of_position
    &&& r.leverage == o.leverage
    &&& r.price == o.price
    &&& r.type_ == o.type_
    &&& r.trigger_by == o.trigger_by
    &&& r.trigger_price == o.trigger_price
    &&& r.trigger_direction == o.trigger_direction
    &&& r.is_reduce == o.is_reduce
    &&& r.order_link_id == o.order_link_id
    &&& r.position_idx == o.position_idx
    &&& r.is_active == o.is_active
    &&& r.tp@.len() == o.tp@.len()
    &&& r.sl@.len() == o.sl@.len()
    &&& forall|k: int| 0 <= k < o.tp@.len() ==> copy_of(#[trigger] r.tp@[k], o.tp@[k])
    &&& forall|k: int| 0 <= k < o.sl@.len() ==> copy_of(#[trigger] r.sl@[k], o.sl@[k])
}


/// What carries over of the positions is all active.
pub proof fn lemma_active_positions_active(s: Seq<Position>)
    ensures
        forall|k: int| 0 <= k < active_positions(s).len() ==> (#[trigger] active_positions(s)[k]).is_active,
    decreases s.len(),
{
    if s.len() > 0 {
        lemma_active_positions_active(s.drop_first());
        let rest = active_positions(s.drop_first());
        if s[0].is_active {
            let r = seq![s[0]] + rest;
            assert forall|k: int| 0 <= k < r.len() implies (#[trigger] r[k]).is_active by {
                if k > 0 {
                    assert(r[k] == rest[k - 1]);
                }
            }
        }
    }
}

/// A copy of `o`, its take-profit and stop-loss orders included.
pub fn copy_order(o: &Order) -> (r: Order)
    ensures
        copy_of(r, *o),
    decreases o,
{
    let mut tp: Vec<Order> = Vec::new();
    let mut k: usize = 0;
    while k < o.tp.len()
        invariant
            k <= o.tp@.len(),
            tp@.len() == k,
            forall|j: int| 0 <= j < k ==> copy_of(#[trigger] tp@[j], o.tp@[j]),
        decreases o.tp@.len() - k,
    {
        proof {
            assert(decreases_to!(o.tp => o.tp@[k as int]));
        }
        tp.push(copy_order(&o.tp[k]));
        k = k + 1;
    }
    let mut sl: Vec<Order> = Vec::new();
    let mut k: usize = 0;
    while k < o.sl.len()
        invariant
            k <= o.sl@.len(),
            sl@.len() == k,
            forall|j: int| 0 <= j < k ==> copy_of(#[trigger] sl@[j], o.sl@[j]),
        decreases o.sl@.len() - k,
    {
        proof {
            assert(decreases_to!(o.sl => o.sl@[k as int]));
        }
        sl.push(copy_order(&o.sl[k]));
        k = k + 1;
    }
    Order {
        symbol: o.symbol.clone(),
        side: o.side.clone(),
        signal: o.signal,
        qty: o.qty,
        qty_percent_of_position: o.qty_percent_of_position,
        leverage: o.leverage,
        price: o.price,
        type_: o.type_.clone(),
        tp,
        sl,
        trigger_by: o.trigger_by.clone(),
        trigger_price: o.trigger_price,
        trigger_direction: o.trigger_direction,
        is_reduce: o.is_reduce,
        order_link_id: o.order_link_id.clone(),
        position_idx: o.position_idx.clone(),
        is_active: o.is_active,
    }
}

} // verus!
