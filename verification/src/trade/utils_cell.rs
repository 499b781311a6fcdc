//! The decisions of one trading step: which price a rule reads, which side
//! and position slot a signal opens, whether a price crossed a level, what
//! an order does to a position, and which orders the signal lists ask for.

use vstd::prelude::*;

use crate::num_bits::{le, lt, spec_eq, spec_le, spec_lt, ZERO};
use crate::settings::TradeSettings;
use crate::symbols::str_eq;
use crate::trade::structs::{Order, Position, Signal, TradeCell};
use uuid::Uuid;

verus! {

/// The price a step trades at: the close (index 4) in real time, else the
/// open (index 1).
pub open spec fn spec_price_is_real_time(is_real_time: bool, src: Seq<u64>) -> u64 {
    if is_real_time {
        src[4]
    } else {
        src[1]
    }
}

/// The candle reaches every field a price rule may read.
pub open spec fn candle_readable(is_real_time: bool, src: Seq<u64>) -> bool {
    if is_real_time {
        src.len() > 4
    } else {
        src.len() > 1
    }
}

pub fn price_is_real_time(is_real_time: bool, src: &[u64]) -> (r: u64)
    requires
        candle_readable(is_real_time, src@),
    ensures
        r == spec_price_is_real_time(is_real_time, src@),
{
    if is_real_time {
        src[4]
    } else {
        src[1]
    }
}

/// The price named by `type_`: the index price (index 7) for "index", the
/// mark price (index 8) for "mark", and the trading price otherwise.
pub open spec fn spec_price_with_type(work_in_real_time: bool, src: Seq<u64>, type_: Seq<char>) -> u64 {
    if type_ == "index"@ {
        src[7]
    } else if type_ == "mark"@ {
        src[8]
    } else {
        spec_price_is_real_time(work_in_real_time, src)
    }
}

pub open spec fn typed_price_readable(work_in_real_time: bool, src: Seq<u64>, type_: Seq<char>) -> bool {
    if type_ == "index"@ {
        src.len() > 7
    } else if type_ == "mark"@ {
        src.len() > 8
    } else {
        candle_readable(work_in_real_time, src)
    }
}

pub fn price_with_type(s: &TradeSettings, src: &[u64], type_: &str) -> (r: u64)
    requires
        typed_price_readable(s.work_in_real_time, src@, type_@),
    ensures
        r == spec_price_with_type(s.work_in_real_time, src@, type_@),
        type_@ == "mark"@ ==> r == src@[8],
        type_@ == "index"@ ==> r == src@[7],
{
    proof {
        lemma_watched_price(s.work_in_real_time, src@, "last"@);
    }
    if str_eq(type_, "index") {
        src[7]
    } else if str_eq(type_, "mark") {
        src[8]
    } else {
        price_is_real_time(s.work_in_real_time, src)
    }
}

/// The position slot a signal opens: "1" for the long signal value, "2" for
/// the short one, empty otherwise.
pub open spec fn spec_position_idx(s: TradeSettings, signal: u64) -> Seq<char> {
    if spec_eq(signal, s.signal_long) {
        "1"@
    } else if spec_eq(signal, s.signal_short) {
        "2"@
    } else {
        Seq::empty()
    }
}

pub fn position_idx(s: &TradeSettings, signal: &Signal) -> (r: String)
    ensures
        r@ == spec_position_idx(*s, signal.signal),
{
    proof {
        reveal_strlit("1");
        reveal_strlit("2");
    }
    if crate::num_bits::eq(signal.signal, s.signal_long) {
        String::from_str("1")
    } else if crate::num_bits::eq(signal.signal, s.signal_short) {
        String::from_str("2")
    } else {
        String::new()
    }
}

/// The side a signal trades on: "buy" for the long signal value, "sell" for
/// the short one, empty otherwise.
pub open spec fn spec_side_signal(s: TradeSettings, signal: u64) -> Seq<char> {
    if spec_eq(signal, s.signal_long) {
        "buy"@
    } else if spec_eq(signal, s.signal_short) {
        "sell"@
    } else {
        Seq::empty()
    }
}

pub fn side_signal(s: &TradeSettings, signal: u64) -> (r: String)
    ensures
        r@ == spec_side_signal(*s, signal),
{
    proof {
        reveal_strlit("buy");
        reveal_strlit("sell");
    }
    if crate::num_bits::eq(signal, s.signal_long) {
        String::from_str("buy")
    } else if crate::num_bits::eq(signal, s.signal_short) {
        String::from_str("sell")
    } else {
        String::new()
    }
}

/// Whether `price_1` crossed `price_2`, and in which direction: upwards
/// (1) when it is at or above both `price_2` and `high_last`, downwards (2)
/// when it is at or below both `price_2` and `low_last`, upwards taking
/// precedence; otherwise not crossed (direction 0).
pub open spec fn spec_price_crossed(price_1: u64, price_2: u64, high_last: u64, low_last: u64) -> (
    bool,
    usize,
) {
    if spec_le(price_2, price_1) && spec_le(high_last, price_1) {
        (true, 1)
    } else if spec_le(price_1, price_2) && spec_le(price_1, low_last) {
        (true, 2)
    } else {
        (false, 0)
    }
}

pub fn price_crossed(price_1: u64, price_2: u64, high_last: u64, low_last: u64) -> (r: (bool, usize))
    ensures
        r == spec_price_crossed(price_1, price_2, high_last, low_last),
{
    let mut crossed = false;
    let mut direction: usize = 0;
    if le(price_2, price_1) && le(high_last, price_1) {
        crossed = true;
        direction = 1;
    } else if le(price_1, price_2) && le(price_1, low_last) {
        crossed = true;
        direction = 2;
    }
    (crossed, direction)
}

/// The direction a trigger waits for: upwards (1) when the last price is
/// below the trigger price, downwards (2) otherwise.
pub fn trigger_direction(last_price: u64, trigger_price: u64) -> (r: usize)
    ensures
        r == (if spec_lt(last_price, trigger_price) { 1usize } else { 2usize }),
{
    if lt(last_price, trigger_price) {
        1
    } else {
        2
    }
}

/// Whether a take-profit or stop-loss level lies above the entry price: a
/// take profit of a long position ("1") or a stop loss of a short one.
pub open spec fn spec_tp_sl_above_entry(tp_or_sl: Seq<char>, position_idx: Seq<char>) -> bool {
    (position_idx == "1"@) == (tp_or_sl == "tp"@)
}

pub fn tp_sl_above_entry(tp_or_sl: &str, position_idx: &str) -> (r: bool)
    ensures
        r == spec_tp_sl_above_entry(tp_or_sl@, position_idx@),
{
    str_eq(position_idx, "1") == str_eq(tp_or_sl, "tp")
}

impl Order {
    pub open spec fn spec_is_market(&self) -> bool {
        self.type_@ == "market"@
    }

    pub open spec fn spec_is_limit(&self) -> bool {
        self.type_@ == "limit"@
    }

    /// Orders created without a trigger carry a zero trigger price.
    pub open spec fn spec_is_trigger(&self) -> bool {
        !spec_eq(self.trigger_price, ZERO)
    }

    pub fn is_market(&self) -> (r: bool)
        ensures
            r == self.spec_is_market(),
    {
        str_eq(self.type_.as_str(), "market")
    }

    pub fn is_limit(&self) -> (r: bool)
        ensures
            r == self.spec_is_limit(),
    {
        str_eq(self.type_.as_str(), "limit")
    }

    pub fn is_trigger(&self) -> (r: bool)
        ensures
            r == self.spec_is_trigger(),
    {
        !crate::num_bits::eq(self.trigger_price, ZERO)
    }
}

/// What an order does to the position of its slot.
#[derive(PartialEq, Eq, Structural, Clone, Copy, Debug)]
pub enum PositionChange {
    /// No position in the slot: one is opened.
    Open,
    /// The order reduces the position (a reducing order, or an order on the
    /// other side outside hedge mode).
    Reduce,
    /// The order adds to the position.
    Increase,
}

pub open spec fn spec_position_change(hedge_mode: bool, order: Order, position: Option<Position>) -> PositionChange {
    match position {
        None => PositionChange::Open,
        Some(p) => if order.is_reduce || (!hedge_mode && order.side@ != p.side@) {
            PositionChange::Reduce
        } else {
            PositionChange::Increase
        },
    }
}

pub fn position_change(s: &TradeSettings, order: &Order, position: Option<&Position>) -> (r: PositionChange)
    ensures
        r == spec_position_change(s.hedge_mode, *order, match position {
            Some(p) => Some(*p),
            None => None,
        }),
{
    match position {
        None => PositionChange::Open,
        Some(p) => {
            if order.is_reduce || (!s.hedge_mode && !str_eq(order.side.as_str(), p.side.as_str())) {
                PositionChange::Reduce
            } else {
                PositionChange::Increase
            }
        },
    }
}

/// The commission rate of an order: the market rate for market orders, the
/// limit rate for the others.
pub fn commission_rate(s: &TradeSettings, order: &Order) -> (r: u64)
    ensures
        r == (if order.spec_is_market() { s.commission_market } else { s.commission_limit }),
{
    if order.is_market() {
        s.commission_market
    } else {
        s.commission_limit
    }
}

/// A position whose quantity has fallen to zero or below is closed.
pub fn position_closed(qty: u64) -> (r: bool)
    ensures
        r == spec_le(qty, ZERO),
{
    le(qty, ZERO)
}

/// The index of the first position of `positions` in slot `slot`.
pub open spec fn first_slot(positions: Seq<Position>, slot: Seq<char>) -> Option<int>
    decreases positions.len(),
{
    if positions.len() == 0 {
        None
    } else if positions[0].position_idx@ == slot {
        Some(0)
    } else {
        match first_slot(positions.drop_first(), slot) {
            Some(k) => Some(k + 1),
            None => None,
        }
    }
}

proof fn lemma_first_slot(positions: Seq<Position>, slot: Seq<char>)
    ensures
        first_slot(positions, slot) matches Some(k) ==> 0 <= k < positions.len()
            && positions[k].position_idx@ == slot,
        first_slot(positions, slot) is None ==> slot_free(positions, slot),
    decreases positions.len(),
{
    if positions.len() > 0 {
        let rest = positions.drop_first();
        lemma_first_slot(rest, slot);
        if positions[0].position_idx@ != slot {
            if first_slot(rest, slot) is None {
                assert forall|k: int| 0 <= k < positions.len() implies (#[trigger] positions[k]).position_idx@
                    != slot by {
                    if k > 0 {
                        assert(positions[k] == rest[k - 1]);
                    }
                }
            } else {
                let j = first_slot(rest, slot)->0;
                assert(positions[j + 1] == rest[j]);
            }
        }
    }
}

/// Finds the position of slot `slot`, as [`first_slot`] states.
pub fn position_slot(positions: &Vec<Position>, slot: &str) -> (r: Option<usize>)
    ensures
        match first_slot(positions@, slot@) {
            Some(k) => r == Some(k as usize),
            None => r is None,
        },
{
    let mut k: usize = 0;
    assert(positions@.subrange(0, positions@.len() as int) =~= positions@);
    while k < positions.len()
        invariant
            k <= positions@.len(),
            first_slot(positions@, slot@) == (match first_slot(positions@.subrange(k as int, positions@.len() as int), slot@) {
                Some(j) => Some(j + k),
                None => None,
            }),
        decreases positions@.len() - k,
    {
        let ghost rest = positions@.subrange(k as int, positions@.len() as int);
        assert(rest[0] == positions@[k as int]);
        assert(rest.drop_first() =~= positions@.subrange(k + 1, positions@.len() as int));
        if str_eq(positions[k].position_idx.as_str(), slot) {
            return Some(k);
        }
        k = k + 1;
    }
    proof {
        assert(positions@.subrange(k as int, positions@.len() as int).len() == 0);
    }
    None
}

/// The price a new position opens at: the order's price when it has one
/// (it is not zero), else the step's trading price.
pub open spec fn opening_price(s: TradeSettings, src: Seq<u64>, order: Order) -> u64 {
    if spec_eq(order.price, ZERO) {
        spec_price_is_real_time(s.work_in_real_time, src)
    } else {
        order.price
    }
}

/// The position of slot `k` after the order `order` acted on it, with the
/// quantity and average open price the caller computed: a reducing order
/// sets the quantity and closes the position once it is zero or below; an
/// adding order sets the quantity and the average open price.
pub open spec fn changed_position(
    s: TradeSettings,
    order: Order,
    p: Position,
    qty: u64,
    avg_open_price: u64,
) -> Position {
    if spec_position_change(s.hedge_mode, order, Some(p)) == PositionChange::Reduce {
        Position { qty, is_active: if spec_le(qty, ZERO) { false } else { p.is_active }, ..p }
    } else {
        Position { qty, avg_open_price, ..p }
    }
}

/// Applies `order` to the position of its slot, with the amounts that the
/// caller computed from the arithmetic on amounts: `qty` the position's new
/// quantity, `avg_open_price` its new average open price (when the order
/// adds to it) and `capital` the step's new capital. Without a position in
/// the slot, one is opened (see [`opening_price`]); otherwise the first
/// position of the slot changes as [`changed_position`] states.
pub fn modify_positions(
    s: &TradeSettings,
    cell: &mut TradeCell,
    order: &Order,
    qty: u64,
    avg_open_price: u64,
    capital: u64,
)
    requires
        first_slot(old(cell).positions@, order.position_idx@) is None && spec_eq(order.price, ZERO)
            ==> candle_readable(s.work_in_real_time, old(cell).src@),
    ensures
        final(cell).capital == capital,
        final(cell).src == old(cell).src,
        final(cell).src_l == old(cell).src_l,
        final(cell).market_orders == old(cell).market_orders,
        final(cell).limit_orders == old(cell).limit_orders,
        final(cell).trigger_orders == old(cell).trigger_orders,
        (match first_slot(old(cell).positions@, order.position_idx@) {
            None => final(cell).positions@ == old(cell).positions@.push(
                Position {
                    symbol: order.symbol,
                    side: order.side,
                    qty,
                    leverage: order.leverage,
                    avg_open_price: opening_price(*s, old(cell).src@, *order),
                    position_idx: order.position_idx,
                    is_active: true,
                },
            ),
            Some(k) => final(cell).positions@ == old(cell).positions@.update(
                k,
                changed_position(*s, *order, old(cell).positions@[k], qty, avg_open_price),
            ),
        }),
{
    proof {
        lemma_first_slot(cell.positions@, order.position_idx@);
    }
    match position_slot(&cell.positions, order.position_idx.as_str()) {
        None => {
            let price = if crate::num_bits::eq(order.price, ZERO) {
                price_is_real_time(s.work_in_real_time, cell.src.as_slice())
            } else {
                order.price
            };
            cell.positions.push(
                Position {
                    symbol: order.symbol.clone(),
                    side: order.side.clone(),
                    qty,
                    leverage: order.leverage,
                    avg_open_price: price,
                    position_idx: order.position_idx.clone(),
                    is_active: true,
                },
            );
        },
        Some(k) => {
            let old_p = &cell.positions[k];
            let change = position_change(s, order, Some(old_p));
            let p = if change == PositionChange::Reduce {
                Position {
                    symbol: old_p.symbol.clone(),
                    side: old_p.side.clone(),
                    qty,
                    leverage: old_p.leverage,
                    avg_open_price: old_p.avg_open_price,
                    position_idx: old_p.position_idx.clone(),
                    is_active: if position_closed(qty) {
                        false
                    } else {
                        old_p.is_active
                    },
                }
            } else {
                Position {
                    symbol: old_p.symbol.clone(),
                    side: old_p.side.clone(),
                    qty,
                    leverage: old_p.leverage,
                    avg_open_price,
                    position_idx: old_p.position_idx.clone(),
                    is_active: old_p.is_active,
                }
            };
            cell.positions.set(k, p);
        },
    }
    cell.capital = capital;
}

/// What a triggered check does with a pending order.
#[derive(PartialEq, Eq, Structural, Clone, Copy, Debug)]
pub enum TriggerAction {
    /// Neither its trigger nor its limit price was reached.
    NotFired,
    /// A limit order whose price differs from its trigger price is placed
    /// among the limit orders.
    PlaceLimit,
    /// The order is executed against its position.
    Execute,
    /// The order fired but is neither a limit order to place nor an order to
    /// execute.
    Drop,
}

/// The step's candle reaches every price the check of `order` reads.
pub open spec fn trigger_readable(s: TradeSettings, src: Seq<u64>, src_l: Seq<u64>, order: Order) -> bool {
    &&& typed_price_readable(s.work_in_real_time, src, order.trigger_by@)
    &&& typed_price_readable(s.work_in_real_time, src_l, order.trigger_by@)
    &&& candle_readable(s.work_in_real_time, src)
    &&& src.len() > 3
}

/// A trigger order fires when the price it watches (now, and at the step
/// before) crossed its trigger price in the direction it waits for; a
/// limit order fires when the trading price crossed its price within the
/// step's high and low.
pub open spec fn spec_order_fired(s: TradeSettings, src: Seq<u64>, src_l: Seq<u64>, order: Order) -> bool {
    let now = spec_price_with_type(s.work_in_real_time, src, order.trigger_by@);
    let last = spec_price_with_type(s.work_in_real_time, src_l, order.trigger_by@);
    let (crossed, direction) = spec_price_crossed(now, order.trigger_price, last, last);
    (order.spec_is_trigger() && crossed && direction == order.trigger_direction) || (
    order.spec_is_limit() && spec_price_crossed(
        spec_price_is_real_time(s.work_in_real_time, src),
        order.price,
        src[2],
        src[3],
    ).0)
}

pub open spec fn spec_trigger_action(s: TradeSettings, src: Seq<u64>, src_l: Seq<u64>, order: Order) -> TriggerAction {
    if !spec_order_fired(s, src, src_l, order) {
        TriggerAction::NotFired
    } else if order.spec_is_limit() && !spec_eq(order.price, order.trigger_price) {
        TriggerAction::PlaceLimit
    } else if order.spec_is_market() || spec_eq(order.price, order.trigger_price) {
        TriggerAction::Execute
    } else {
        TriggerAction::Drop
    }
}

/// Decides what the check of a pending trigger or limit order does at the
/// step with candle `src` (and `src_l` before it). In every case but
/// `NotFired` the trigger order of the same link id is deactivated.
pub fn trigger_action(s: &TradeSettings, src: &[u64], src_l: &[u64], order: &Order) -> (r: TriggerAction)
    requires
        trigger_readable(*s, src@, src_l@, *order),
    ensures
        r == spec_trigger_action(*s, src@, src_l@, *order),
{
    let now = price_with_type(s, src, order.trigger_by.as_str());
    let last = price_with_type(s, src_l, order.trigger_by.as_str());
    let (crossed, direction) = price_crossed(now, order.trigger_price, last, last);
    let fired = (order.is_trigger() && crossed && direction == order.trigger_direction) || (
    order.is_limit() && price_crossed(
        price_is_real_time(s.work_in_real_time, src),
        order.price,
        src[2],
        src[3],
    ).0);
    if !fired {
        TriggerAction::NotFired
    } else if order.is_limit() && !crate::num_bits::eq(order.price, order.trigger_price) {
        TriggerAction::PlaceLimit
    } else if order.is_market() || crate::num_bits::eq(order.price, order.trigger_price) {
        TriggerAction::Execute
    } else {
        TriggerAction::Drop
    }
}

/// The type of order a request asks for.
#[derive(PartialEq, Eq, Structural, Clone, Copy, Debug)]
pub enum OrderKind {
    Market,
    Limit,
}

/// An order that the signal lists ask for at a step: the signal that
/// drives it, its limit price and its trigger price as read from the
/// indications (zero where the list names none), its type, and whether it
/// reduces a position.
#[derive(PartialEq, Eq, Structural, Clone, Copy, Debug)]
pub struct OrderRequest {
    pub signal: Signal,
    pub price_limit: u64,
    pub price_trigger: u64,
    pub kind: OrderKind,
    pub is_reduce: bool,
}

/// `m` holds an entry named `key`.
pub open spec fn has_entry<V>(m: Seq<(String, V)>, key: Seq<char>) -> bool {
    exists|k: int| 0 <= k < m.len() && (#[trigger] m[k]).0@ == key
}

/// The value of the first entry of `m` named `key`.
pub open spec fn entry_value<V>(m: Seq<(String, V)>, key: Seq<char>) -> V
    decreases m.len(),
{
    if m.len() == 0 {
        arbitrary()
    } else if m[0].0@ == key {
        m[0].1
    } else {
        entry_value(m.drop_first(), key)
    }
}

/// Looks `key` up in a series given as named values.
pub fn entry_of<'a, V>(m: &'a Vec<(String, V)>, key: &str) -> (r: &'a V)
    requires
        has_entry(m@, key@),
    ensures
        *r == entry_value(m@, key@),
{
    let mut k: usize = 0;
    assert(m@.subrange(0, m@.len() as int) =~= m@);
    while k < m.len()
        invariant
            k <= m@.len(),
            forall|j: int| 0 <= j < k ==> (#[trigger] m@[j]).0@ != key@,
            entry_value(m@, key@) == entry_value(m@.subrange(k as int, m@.len() as int), key@),
        decreases m@.len() - k,
    {
        let ghost rest = m@.subrange(k as int, m@.len() as int);
        assert(rest[0] == m@[k as int]);
        if str_eq(m[k].0.as_str(), key) {
            return &m[k].1;
        }
        assert(rest.drop_first() =~= m@.subrange(k + 1, m@.len() as int));
        k = k + 1;
    }
    proof {
        let j = choose|j: int| 0 <= j < m@.len() && (#[trigger] m@[j]).0@ == key@;
        assert(m@[j].0@ != key@);
    }
    &m[0].1
}

/// Market orders driven by the signals named `keys`.
pub open spec fn market_requests(keys: Seq<String>, is_reduce: bool, signals: Seq<(String, Signal)>) -> Seq<
    OrderRequest,
> {
    keys.map_values(
        |k: String|
            OrderRequest {
                signal: entry_value(signals, k@),
                price_limit: ZERO,
                price_trigger: ZERO,
                kind: OrderKind::Market,
                is_reduce,
            },
    )
}

/// Limit orders named by (signal, limit-price indication) pairs.
pub open spec fn limit_requests(
    keys: Seq<(String, String)>,
    is_reduce: bool,
    indications: Seq<(String, u64)>,
    signals: Seq<(String, Signal)>,
) -> Seq<OrderRequest> {
    keys.map_values(
        |k: (String, String)|
            OrderRequest {
                signal: entry_value(signals, k.0@),
                price_limit: entry_value(indications, k.1@),
                price_trigger: ZERO,
                kind: OrderKind::Limit,
                is_reduce,
            },
    )
}

/// Market orders waiting for a trigger, named by (signal, trigger-price
/// indication) pairs.
pub open spec fn trigger_market_requests(
    keys: Seq<(String, String)>,
    is_reduce: bool,
    indications: Seq<(String, u64)>,
    signals: Seq<(String, Signal)>,
) -> Seq<OrderRequest> {
    keys.map_values(
        |k: (String, String)|
            OrderRequest {
                signal: entry_value(signals, k.0@),
                price_limit: ZERO,
                price_trigger: entry_value(indications, k.1@),
                kind: OrderKind::Market,
                is_reduce,
            },
    )
}

/// Limit orders waiting for a trigger, named by (signal, limit-price
/// indication, trigger-price indication) triples.
pub open spec fn trigger_limit_requests(
    keys: Seq<(String, String, String)>,
    is_reduce: bool,
    indications: Seq<(String, u64)>,
    signals: Seq<(String, Signal)>,
) -> Seq<OrderRequest> {
    keys.map_values(
        |k: (String, String, String)|
            OrderRequest {
                signal: entry_value(signals, k.0@),
                price_limit: entry_value(indications, k.1@),
                price_trigger: entry_value(indications, k.2@),
                kind: OrderKind::Limit,
                is_reduce,
            },
    )
}

/// Every signal that `keys` names is in `signals`.
pub open spec fn signals_found(keys: Seq<String>, signals: Seq<(String, Signal)>) -> bool {
    forall|k: int| 0 <= k < keys.len() ==> has_entry(signals, (#[trigger] keys[k])@)
}

/// Every pair names a signal of `signals` and an indication of
/// `indications`.
pub open spec fn pairs_found(
    keys: Seq<(String, String)>,
    indications: Seq<(String, u64)>,
    signals: Seq<(String, Signal)>,
) -> bool {
    forall|k: int|
        0 <= k < keys.len() ==> has_entry(signals, (#[trigger] keys[k]).0@) && has_entry(
            indications,
            keys[k].1@,
        )
}

/// Every triple names a signal of `signals` and two indications of
/// `indications`.
pub open spec fn triples_found(
    keys: Seq<(String, String, String)>,
    indications: Seq<(String, u64)>,
    signals: Seq<(String, Signal)>,
) -> bool {
    forall|k: int|
        0 <= k < keys.len() ==> has_entry(signals, (#[trigger] keys[k]).0@) && has_entry(
            indications,
            keys[k].1@,
        ) && has_entry(indications, keys[k].2@)
}

/// Every signal and indication that the settings' order lists name is
/// there to be read.
pub open spec fn requests_found(
    s: TradeSettings,
    indications: Seq<(String, u64)>,
    signals: Seq<(String, Signal)>,
) -> bool {
    &&& signals_found(s.market_entry_orders_signals@, signals)
    &&& signals_found(s.market_exit_orders_signals@, signals)
    &&& pairs_found(s.limit_entry_orders_signals@, indications, signals)
    &&& pairs_found(s.limit_exit_orders_signals@, indications, signals)
    &&& pairs_found(s.trigger_market_entry_orders_signals@, indications, signals)
    &&& pairs_found(s.trigger_market_exit_orders_signals@, indications, signals)
    &&& triples_found(s.trigger_limit_entry_orders_signals@, indications, signals)
    &&& triples_found(s.trigger_limit_exit_orders_signals@, indications, signals)
}

/// The requests of one step, in order: market entries and exits, limit
/// entries and exits, triggered market entries and exits, then triggered
/// limit entries and exits. Exits reduce positions, except the triggered
/// limit exits, which are requested as non-reducing orders.
pub open spec fn spec_orders_create(
    s: TradeSettings,
    indications: Seq<(String, u64)>,
    signals: Seq<(String, Signal)>,
) -> Seq<OrderRequest> {
    market_requests(s.market_entry_orders_signals@, false, signals) + market_requests(
        s.market_exit_orders_signals@,
        true,
        signals,
    ) + limit_requests(s.limit_entry_orders_signals@, false, indications, signals) + limit_requests(
        s.limit_exit_orders_signals@,
        true,
        indications,
        signals,
    ) + trigger_market_requests(s.trigger_market_entry_orders_signals@, false, indications, signals)
        + trigger_market_requests(s.trigger_market_exit_orders_signals@, true, indications, signals)
        + trigger_limit_requests(s.trigger_limit_entry_orders_signals@, false, indications, signals)
        + trigger_limit_requests(s.trigger_limit_exit_orders_signals@, false, indications, signals)
}

fn push_market(
    vec: &mut Vec<OrderRequest>,
    keys: &Vec<String>,
    is_reduce: bool,
    signals: &Vec<(String, Signal)>,
)
    requires
        signals_found(keys@, signals@),
    ensures
        final(vec)@ == old(vec)@ + market_requests(keys@, is_reduce, signals@),
{
    let ghost start = vec@;
    let mut i: usize = 0;
    while i < keys.len()
        invariant
            i <= keys@.len(),
            signals_found(keys@, signals@),
            vec@ == start + market_requests(keys@.subrange(0, i as int), is_reduce, signals@),
        decreases keys@.len() - i,
    {
        assert(has_entry(signals@, keys@[i as int]@));
        let signal = *entry_of(signals, keys[i].as_str());
        let req = OrderRequest {
            signal,
            price_limit: ZERO,
            price_trigger: ZERO,
            kind: OrderKind::Market,
            is_reduce,
        };
        vec.push(req);
        i = i + 1;
        assert(market_requests(keys@.subrange(0, i as int), is_reduce, signals@) =~= market_requests(
            keys@.subrange(0, i - 1),
            is_reduce,
            signals@,
        ).push(req));
    }
    assert(keys@.subrange(0, i as int) =~= keys@);
}

fn push_limit(
    vec: &mut Vec<OrderRequest>,
    keys: &Vec<(String, String)>,
    is_reduce: bool,
    indications: &Vec<(String, u64)>,
    signals: &Vec<(String, Signal)>,
)
    requires
        pairs_found(keys@, indications@, signals@),
    ensures
        final(vec)@ == old(vec)@ + limit_requests(keys@, is_reduce, indications@, signals@),
{
    let ghost start = vec@;
    let mut i: usize = 0;
    while i < keys.len()
        invariant
            i <= keys@.len(),
            pairs_found(keys@, indications@, signals@),
            vec@ == start + limit_requests(keys@.subrange(0, i as int), is_reduce, indications@, signals@),
        decreases keys@.len() - i,
    {
        assert(has_entry(signals@, keys@[i as int].0@) && has_entry(indications@, keys@[i as int].1@));
        let signal = *entry_of(signals, keys[i].0.as_str());
        let price_limit = *entry_of(indications, keys[i].1.as_str());
        let req = OrderRequest {
            signal,
            price_limit,
            price_trigger: ZERO,
            kind: OrderKind::Limit,
            is_reduce,
        };
        vec.push(req);
        i = i + 1;
        assert(limit_requests(keys@.subrange(0, i as int), is_reduce, indications@, signals@) =~= limit_requests(
            keys@.subrange(0, i - 1),
            is_reduce,
            indications@,
            signals@,
        ).push(req));
    }
    assert(keys@.subrange(0, i as int) =~= keys@);
}

fn push_trigger_market(
    vec: &mut Vec<OrderRequest>,
    keys: &Vec<(String, String)>,
    is_reduce: bool,
    indications: &Vec<(String, u64)>,
    signals: &Vec<(String, Signal)>,
)
    requires
        pairs_found(keys@, indications@, signals@),
    ensures
        final(vec)@ == old(vec)@ + trigger_market_requests(keys@, is_reduce, indications@, signals@),
{
    let ghost start = vec@;
    let mut i: usize = 0;
    while i < keys.len()
        invariant
            i <= keys@.len(),
            pairs_found(keys@, indications@, signals@),
            vec@ == start + trigger_market_requests(
                keys@.subrange(0, i as int),
                is_reduce,
                indications@,
                signals@,
            ),
        decreases keys@.len() - i,
    {
        assert(has_entry(signals@, keys@[i as int].0@) && has_entry(indications@, keys@[i as int].1@));
        let signal = *entry_of(signals, keys[i].0.as_str());
        let price_trigger = *entry_of(indications, keys[i].1.as_str());
        let req = OrderRequest {
            signal,
            price_limit: ZERO,
            price_trigger,
            kind: OrderKind::Market,
            is_reduce,
        };
        vec.push(req);
        i = i + 1;
        assert(trigger_market_requests(keys@.subrange(0, i as int), is_reduce, indications@, signals@)
            =~= trigger_market_requests(keys@.subrange(0, i - 1), is_reduce, indications@, signals@).push(
            req,
        ));
    }
    assert(keys@.subrange(0, i as int) =~= keys@);
}

fn push_trigger_limit(
    vec: &mut Vec<OrderRequest>,
    keys: &Vec<(String, String, String)>,
    is_reduce: bool,
    indications: &Vec<(String, u64)>,
    signals: &Vec<(String, Signal)>,
)
    requires
        triples_found(keys@, indications@, signals@),
    ensures
        final(vec)@ == old(vec)@ + trigger_limit_requests(keys@, is_reduce, indications@, signals@),
{
    let ghost start = vec@;
    let mut i: usize = 0;
    while i < keys.len()
        invariant
            i <= keys@.len(),
            triples_found(keys@, indications@, signals@),
            vec@ == start + trigger_limit_requests(
                keys@.subrange(0, i as int),
                is_reduce,
                indications@,
                signals@,
            ),
        decreases keys@.len() - i,
    {
        assert(has_entry(signals@, keys@[i as int].0@) && has_entry(indications@, keys@[i as int].1@)
            && has_entry(indications@, keys@[i as int].2@));
        let signal = *entry_of(signals, keys[i].0.as_str());
        let price_limit = *entry_of(indications, keys[i].1.as_str());
        let price_trigger = *entry_of(indications, keys[i].2.as_str());
        let req = OrderRequest { signal, price_limit, price_trigger, kind: OrderKind::Limit, is_reduce };
        vec.push(req);
        i = i + 1;
        assert(trigger_limit_requests(keys@.subrange(0, i as int), is_reduce, indications@, signals@)
            =~= trigger_limit_requests(keys@.subrange(0, i - 1), is_reduce, indications@, signals@).push(
            req,
        ));
    }
    assert(keys@.subrange(0, i as int) =~= keys@);
}

/// Appends the market entry requests, then the reducing market exit ones.
pub fn orders_market_extern(vec: &mut Vec<OrderRequest>, s: &TradeSettings, signals_ready_series: &Vec<(String, Signal)>)
    requires
        signals_found(s.market_entry_orders_signals@, signals_ready_series@),
        signals_found(s.market_exit_orders_signals@, signals_ready_series@),
    ensures
        final(vec)@ == old(vec)@ + market_requests(s.market_entry_orders_signals@, false, signals_ready_series@)
            + market_requests(s.market_exit_orders_signals@, true, signals_ready_series@),
{
    push_market(vec, &s.market_entry_orders_signals, false, signals_ready_series);
    push_market(vec, &s.market_exit_orders_signals, true, signals_ready_series);
}

/// Appends the limit entry requests, then the reducing limit exit ones.
pub fn orders_limit_extern(
    vec: &mut Vec<OrderRequest>,
    s: &TradeSettings,
    indications_series: &Vec<(String, u64)>,
    signals_ready_series: &Vec<(String, Signal)>,
)
    requires
        pairs_found(s.limit_entry_orders_signals@, indications_series@, signals_ready_series@),
        pairs_found(s.limit_exit_orders_signals@, indications_series@, signals_ready_series@),
    ensures
        final(vec)@ == old(vec)@ + limit_requests(
            s.limit_entry_orders_signals@,
            false,
            indications_series@,
            signals_ready_series@,
        ) + limit_requests(s.limit_exit_orders_signals@, true, indications_series@, signals_ready_series@),
{
    push_limit(vec, &s.limit_entry_orders_signals, false, indications_series, signals_ready_series);
    push_limit(vec, &s.limit_exit_orders_signals, true, indications_series, signals_ready_series);
}

/// Appends the triggered market entries, the reducing triggered market
/// exits, the triggered limit entries and the triggered limit exits (which
/// are requested as non-reducing).
pub fn orders_trigger_extern(
    vec: &mut Vec<OrderRequest>,
    s: &TradeSettings,
    indications_series: &Vec<(String, u64)>,
    signals_ready_series: &Vec<(String, Signal)>,
)
    requires
        pairs_found(s.trigger_market_entry_orders_signals@, indications_series@, signals_ready_series@),
        pairs_found(s.trigger_market_exit_orders_signals@, indications_series@, signals_ready_series@),
        triples_found(s.trigger_limit_entry_orders_signals@, indications_series@, signals_ready_series@),
        triples_found(s.trigger_limit_exit_orders_signals@, indications_series@, signals_ready_series@),
    ensures
        final(vec)@ == old(vec)@ + trigger_market_requests(
            s.trigger_market_entry_orders_signals@,
            false,
            indications_series@,
            signals_ready_series@,
        ) + trigger_market_requests(
            s.trigger_market_exit_orders_signals@,
            true,
            indications_series@,
            signals_ready_series@,
        ) + trigger_limit_requests(
            s.trigger_limit_entry_orders_signals@,
            false,
            indications_series@,
            signals_ready_series@,
        ) + trigger_limit_requests(
            s.trigger_limit_exit_orders_signals@,
            false,
            indications_series@,
            signals_ready_series@,
        ),
{
    push_trigger_market(
        vec,
        &s.trigger_market_entry_orders_signals,
        false,
        indications_series,
        signals_ready_series,
    );
    push_trigger_market(
        vec,
        &s.trigger_market_exit_orders_signals,
        true,
        indications_series,
        signals_ready_series,
    );
    push_trigger_limit(
        vec,
        &s.trigger_limit_entry_orders_signals,
        false,
        indications_series,
        signals_ready_series,
    );
    push_trigger_limit(
        vec,
        &s.trigger_limit_exit_orders_signals,
        false,
        indications_series,
        signals_ready_series,
    );
}

/// All the order requests of a step, in the order of [`spec_orders_create`],
/// with their signals and prices read from the step's series.
pub fn orders_create(
    s: &TradeSettings,
    indications_series: &Vec<(String, u64)>,
    signals_ready_series: &Vec<(String, Signal)>,
) -> (r: Vec<OrderRequest>)
    requires
        requests_found(*s, indications_series@, signals_ready_series@),
    ensures
        r@ == spec_orders_create(*s, indications_series@, signals_ready_series@),
{
    let mut r: Vec<OrderRequest> = Vec::new();
    orders_market_extern(&mut r, s, signals_ready_series);
    orders_limit_extern(&mut r, s, indications_series, signals_ready_series);
    orders_trigger_extern(&mut r, s, indications_series, signals_ready_series);
    assert(r@ =~= spec_orders_create(*s, indications_series@, signals_ready_series@));
    r
}

/// A fresh order link id: `uuid::Uuid::new_v4()` written out by its
/// `Display` impl, which writes the hyphenated form: 36 characters, with
/// hyphens at positions 8, 13, 18 and 23. The id itself is random, and
/// nothing else is stated of it.
#[verifier::external_body]
fn new_order_link_id() -> (r: String)
    ensures
        link_id_shape(r@),
{
    Uuid::new_v4().to_string()
}

/// The shape of an order link id: a hyphenated UUID.
pub open spec fn link_id_shape(id: Seq<char>) -> bool {
    &&& id.len() == 36
    &&& id[8] == '-' && id[13] == '-' && id[18] == '-' && id[23] == '-'
}

/// `o` is the reducing market order that waits for `trigger_price` in
/// `direction` on behalf of a position of slot `slot`: its amount and its
/// share of the position are those of `level` (share, amount, distance from
/// the entry price).
pub open spec fn is_tp_sl_order(
    o: Order,
    level: (u64, u64, u64),
    s: TradeSettings,
    symbol: Seq<char>,
    side: Seq<char>,
    signal: Signal,
    trigger_price: u64,
    slot: Seq<char>,
    direction: usize,
) -> bool {
    &&& o.symbol@ == symbol
    &&& o.side@ == side
    &&& o.signal == signal
    &&& o.qty == level.1
    &&& o.qty_percent_of_position == level.0
    &&& o.leverage == s.leverage
    &&& o.price == ZERO
    &&& o.type_@ == "market"@
    &&& o.tp@.len() == 0
    &&& o.sl@.len() == 0
    &&& o.trigger_by@ == "last"@
    &&& o.trigger_price == trigger_price
    &&& o.trigger_direction == direction
    &&& o.is_reduce
    &&& link_id_shape(o.order_link_id@)
    &&& o.position_idx@ == slot
    &&& o.is_active
}

/// The take-profit or stop-loss orders of a new position, one per level.
/// `trigger_prices` holds, for each level, the price at which it fires
/// (the entry price moved by the level's distance, up or down as
/// [`tp_sl_above_entry`] says).
pub fn tp_sl_orders(
    levels: &Vec<(u64, u64, u64)>,
    s: &TradeSettings,
    symbol: &str,
    side: &str,
    trigger_prices: &Vec<u64>,
    signal: &Signal,
    slot: &str,
    direction: usize,
) -> (r: Vec<Order>)
    requires
        trigger_prices@.len() == levels@.len(),
    ensures
        r@.len() == levels@.len(),
        forall|k: int|
            0 <= k < r@.len() ==> is_tp_sl_order(
                #[trigger] r@[k],
                levels@[k],
                *s,
                symbol@,
                side@,
                *signal,
                trigger_prices@[k],
                slot@,
                direction,
            ),
{
    let mut r: Vec<Order> = Vec::new();
    let mut k: usize = 0;
    while k < levels.len()
        invariant
            k <= levels@.len(),
            trigger_prices@.len() == levels@.len(),
            r@.len() == k,
            forall|j: int|
                0 <= j < k ==> is_tp_sl_order(
                    #[trigger] r@[j],
                    levels@[j],
                    *s,
                    symbol@,
                    side@,
                    *signal,
                    trigger_prices@[j],
                    slot@,
                    direction,
                ),
        decreases levels@.len() - k,
    {
        let (percent_of_position, amount_of_position, _percent_of_entry_price) = levels[k];
        let o = Order {
            symbol: String::from_str(symbol),
            side: String::from_str(side),
            signal: *signal,
            qty: amount_of_position,
            qty_percent_of_position: percent_of_position,
            leverage: s.leverage,
            price: ZERO,
            type_: String::from_str("market"),
            tp: Vec::new(),
            sl: Vec::new(),
            trigger_by: String::from_str("last"),
            trigger_price: trigger_prices[k],
            trigger_direction: direction,
            is_reduce: true,
            order_link_id: new_order_link_id(),
            position_idx: String::from_str(slot),
            is_active: true,
        };
        r.push(o);
        k = k + 1;
    }
    r
}

/// No position of `positions` sits in slot `slot`.
pub open spec fn slot_free(positions: Seq<Position>, slot: Seq<char>) -> bool {
    forall|k: int| 0 <= k < positions.len() ==> (#[trigger] positions[k]).position_idx@ != slot
}

fn slot_taken(positions: &Vec<Position>, slot: &str) -> (r: bool)
    ensures
        r == !slot_free(positions@, slot@),
{
    let mut k: usize = 0;
    while k < positions.len()
        invariant
            k <= positions@.len(),
            forall|j: int| 0 <= j < k ==> (#[trigger] positions@[j]).position_idx@ != slot@,
        decreases positions@.len() - k,
    {
        if str_eq(positions[k].position_idx.as_str(), slot) {
            return true;
        }
        k = k + 1;
    }
    false
}

/// The take-profit and stop-loss orders that an order opening a position
/// carries: one per configured level, the take profits waiting for a rise
/// (direction 1) and the stop losses for a fall (direction 2), at the
/// given trigger prices.
pub open spec fn new_position_stops(
    r: Order,
    s: TradeSettings,
    symbol: Seq<char>,
    signal: Signal,
    tp_prices: Seq<u64>,
    sl_prices: Seq<u64>,
) -> bool {
    &&& r.tp@.len() == s.takeprofit@.len()
    &&& forall|k: int|
        0 <= k < r.tp@.len() ==> is_tp_sl_order(
            #[trigger] r.tp@[k],
            s.takeprofit@[k],
            s,
            symbol,
            r.side@,
            signal,
            tp_prices[k],
            r.position_idx@,
            1,
        )
    &&& r.sl@.len() == s.stoploss@.len()
    &&& forall|k: int|
        0 <= k < r.sl@.len() ==> is_tp_sl_order(
            #[trigger] r.sl@[k],
            s.stoploss@[k],
            s,
            symbol,
            r.side@,
            signal,
            sl_prices[k],
            r.position_idx@,
            2,
        )
}

/// The order a request makes at the step with candle `src`. Its slot and
/// side follow from the signal; `qty` is its quantity and `tp_prices` and
/// `sl_prices` the trigger prices of the configured take-profit and
/// stop-loss levels. Only an order for a slot without a position carries
/// take-profit and stop-loss orders. An order with a trigger price (one
/// that is not zero) is watched at the settings' price type and waits for a
/// rise to it when the trading price is below it, for a fall otherwise; an
/// order without one has no price type and no direction (0).
pub fn order_create(
    s: &TradeSettings,
    cell: &TradeCell,
    symbol: &str,
    price_limit: u64,
    price_trigger: u64,
    signal: &Signal,
    src: &[u64],
    type_order: &str,
    is_reduce: bool,
    qty: u64,
    tp_prices: &Vec<u64>,
    sl_prices: &Vec<u64>,
) -> (r: Order)
    requires
        candle_readable(s.work_in_real_time, src@),
        tp_prices@.len() == s.takeprofit@.len(),
        sl_prices@.len() == s.stoploss@.len(),
    ensures
        r.symbol@ == symbol@,
        r.side@ == spec_side_signal(*s, signal.signal),
        r.signal == *signal,
        r.qty == qty,
        r.qty_percent_of_position == ZERO,
        r.leverage == s.leverage,
        r.price == price_limit,
        r.type_@ == type_order@,
        r.trigger_by@ == (if spec_eq(price_trigger, ZERO) {
            Seq::empty()
        } else {
            s.trigger_by@
        }),
        r.trigger_price == price_trigger,
        r.trigger_direction == (if spec_eq(price_trigger, ZERO) {
            0usize
        } else if spec_lt(spec_price_is_real_time(s.work_in_real_time, src@), price_trigger) {
            1usize
        } else {
            2usize
        }),
        r.is_reduce == is_reduce,
        link_id_shape(r.order_link_id@),
        r.position_idx@ == spec_position_idx(*s, signal.signal),
        r.is_active,
        slot_free(cell.positions@, r.position_idx@) ==> new_position_stops(
            r,
            *s,
            symbol@,
            *signal,
            tp_prices@,
            sl_prices@,
        ),
        !slot_free(cell.positions@, r.position_idx@) ==> r.tp@.len() == 0 && r.sl@.len() == 0,
{
    let slot = position_idx(s, signal);
    let side = side_signal(s, signal.signal);
    let position_not_created = !slot_taken(&cell.positions, slot.as_str());
    let price = price_is_real_time(s.work_in_real_time, src);
    let has_trigger = !crate::num_bits::eq(price_trigger, ZERO);
    let tp = if position_not_created {
        tp_sl_orders(&s.takeprofit, s, symbol, side.as_str(), tp_prices, signal, slot.as_str(), 1)
    } else {
        Vec::new()
    };
    let sl = if position_not_created {
        tp_sl_orders(&s.stoploss, s, symbol, side.as_str(), sl_prices, signal, slot.as_str(), 2)
    } else {
        Vec::new()
    };
    Order {
        symbol: String::from_str(symbol),
        side,
        signal: *signal,
        qty,
        qty_percent_of_position: ZERO,
        leverage: s.leverage,
        price: price_limit,
        type_: String::from_str(type_order),
        tp,
        sl,
        trigger_by: if has_trigger {
            s.trigger_by.clone()
        } else {
            String::new()
        },
        trigger_price: price_trigger,
        trigger_direction: if has_trigger {
            trigger_direction(price, price_trigger)
        } else {
            0
        },
        is_reduce,
        order_link_id: new_order_link_id(),
        position_idx: slot,
        is_active: true,
    }
}

/// No two orders of `s` share a link id: `s` is a map from link id to
/// order.
pub open spec fn keys_unique(s: Seq<Order>) -> bool {
    forall|i: int, j: int|
        0 <= i < s.len() && 0 <= j < s.len() && i != j ==> (#[trigger] s[i]).order_link_id@
            != (#[trigger] s[j]).order_link_id@
}

pub open spec fn has_key(s: Seq<Order>, key: Seq<char>) -> bool {
    exists|k: int| 0 <= k < s.len() && (#[trigger] s[k]).order_link_id@ == key
}

/// Inserting `o` under its link id: it replaces the order with the same
/// link id, or is added after the others.
pub open spec fn spec_insert_order(s: Seq<Order>, o: Order) -> Seq<Order> {
    if has_key(s, o.order_link_id@) {
        let k = choose|k: int| 0 <= k < s.len() && (#[trigger] s[k]).order_link_id@ == o.order_link_id@;
        s.update(k, o)
    } else {
        s.push(o)
    }
}

/// `r` is `s` with the orders of link id `key` made inactive.
pub open spec fn deactivated(r: Seq<Order>, s: Seq<Order>, key: Seq<char>) -> bool {
    &&& r.len() == s.len()
    &&& forall|k: int|
        0 <= k < s.len() ==> #[trigger] r[k] == (if s[k].order_link_id@ == key {
            Order { is_active: false, ..s[k] }
        } else {
            s[k]
        })
}

fn find_key(s: &Vec<Order>, key: &str) -> (r: Option<usize>)
    ensures
        r matches Some(k) ==> k < s@.len() && s@[k as int].order_link_id@ == key@,
        r is None ==> !has_key(s@, key@),
{
    let mut k: usize = 0;
    while k < s.len()
        invariant
            k <= s@.len(),
            forall|j: int| 0 <= j < k ==> (#[trigger] s@[j]).order_link_id@ != key@,
        decreases s@.len() - k,
    {
        if str_eq(s[k].order_link_id.as_str(), key) {
            return Some(k);
        }
        k = k + 1;
    }
    None
}

/// Puts `o` under its link id, as a map insert does.
pub fn insert_order(s: &mut Vec<Order>, o: Order)
    requires
        keys_unique(old(s)@),
    ensures
        final(s)@ == spec_insert_order(old(s)@, o),
        keys_unique(final(s)@),
{
    let ghost start = s@;
    match find_key(s, o.order_link_id.as_str()) {
        Some(k) => {
            let ghost c = choose|c: int| 0 <= c < start.len() && (#[trigger] start[c]).order_link_id@ == o.order_link_id@;
            assert(c == k as int);
            s.set(k, o);
        },
        None => {
            s.push(o);
            assert forall|i: int, j: int|
                0 <= i < s@.len() && 0 <= j < s@.len() && i != j implies (#[trigger] s@[i]).order_link_id@
                != (#[trigger] s@[j]).order_link_id@ by {
                if i < start.len() && j < start.len() {
                    assert(s@[i] == start[i] && s@[j] == start[j]);
                } else if i == start.len() {
                    assert(s@[j] == start[j]);
                } else {
                    assert(s@[i] == start[i]);
                }
            }
        },
    }
}

/// Makes the orders of link id `key` inactive, as updating a map entry in
/// place does.
pub fn deactivate_order(s: &mut Vec<Order>, key: &str)
    ensures
        deactivated(final(s)@, old(s)@, key@),
{
    let ghost start = s@;
    let mut k: usize = 0;
    while k < s.len()
        invariant
            k <= s@.len(),
            s@.len() == start.len(),
            forall|j: int|
                0 <= j < k ==> #[trigger] s@[j] == (if start[j].order_link_id@ == key@ {
                    Order { is_active: false, ..start[j] }
                } else {
                    start[j]
                }),
            forall|j: int| k <= j < s@.len() ==> #[trigger] s@[j] == start[j],
        decreases s@.len() - k,
    {
        if str_eq(s[k].order_link_id.as_str(), key) {
            let mut o = s.remove(k);
            o.is_active = false;
            s.insert(k, o);
        }
        k = k + 1;
    }
}

/// Checks a pending trigger or limit order at the step `cell` (see
/// [`trigger_action`]). A limit order to place is put among the limit
/// orders; an order to execute is handed back, for the caller to apply to
/// its position. Whenever the order fired, the trigger order of its link id
/// is made inactive.
pub fn modify_positions_or_not(s: &TradeSettings, cell: &mut TradeCell, order: Order) -> (r: Option<Order>)
    requires
        trigger_readable(*s, old(cell).src@, old(cell).src_l@, order),
        keys_unique(old(cell).limit_orders@),
    ensures
        keys_unique(final(cell).limit_orders@),
        final(cell).capital == old(cell).capital,
        final(cell).src == old(cell).src,
        final(cell).src_l == old(cell).src_l,
        final(cell).market_orders == old(cell).market_orders,
        final(cell).positions == old(cell).positions,
        ({
            let a = spec_trigger_action(*s, old(cell).src@, old(cell).src_l@, order);
            &&& a == TriggerAction::NotFired ==> final(cell).trigger_orders == old(cell).trigger_orders
            &&& a != TriggerAction::NotFired ==> deactivated(
                final(cell).trigger_orders@,
                old(cell).trigger_orders@,
                order.order_link_id@,
            )
            &&& a == TriggerAction::PlaceLimit ==> final(cell).limit_orders@ == spec_insert_order(
                old(cell).limit_orders@,
                order,
            )
            &&& a != TriggerAction::PlaceLimit ==> final(cell).limit_orders == old(cell).limit_orders
            &&& (r == if a == TriggerAction::Execute { Some(order) } else { None })
        }),
{
    let action = trigger_action(s, cell.src.as_slice(), cell.src_l.as_slice(), &order);
    match action {
        TriggerAction::NotFired => None,
        TriggerAction::PlaceLimit => {
            let key = order.order_link_id.clone();
            insert_order(&mut cell.limit_orders, order);
            deactivate_order(&mut cell.trigger_orders, key.as_str());
            None
        },
        TriggerAction::Execute => {
            deactivate_order(&mut cell.trigger_orders, order.order_link_id.as_str());
            Some(order)
        },
        TriggerAction::Drop => {
            deactivate_order(&mut cell.trigger_orders, order.order_link_id.as_str());
            None
        },
    }
}

/// The slot and the side that a signal gets always agree: the long slot
/// "1" goes with "buy", the short slot "2" with "sell", and no slot with no
/// side.
pub proof fn lemma_slot_and_side_agree(s: TradeSettings, signal: u64)
    ensures
        (spec_position_idx(s, signal) == "1"@) <==> (spec_side_signal(s, signal) == "buy"@),
        (spec_position_idx(s, signal) == "2"@) <==> (spec_side_signal(s, signal) == "sell"@),
        (spec_position_idx(s, signal).len() == 0) <==> (spec_side_signal(s, signal).len() == 0),
{
    reveal_strlit("1");
    reveal_strlit("2");
    reveal_strlit("buy");
    reveal_strlit("sell");
    assert("1"@.len() == 1 && "2"@.len() == 1 && "1"@[0] != "2"@[0]);
    assert("buy"@.len() == 3 && "sell"@.len() == 4);
}

/// A price counts as crossed exactly when a direction is reported.
pub proof fn lemma_crossed_has_direction(price_1: u64, price_2: u64, high_last: u64, low_last: u64)
    ensures
        spec_price_crossed(price_1, price_2, high_last, low_last).0 <==> spec_price_crossed(
            price_1,
            price_2,
            high_last,
            low_last,
        ).1 != 0,
{
}

/// After inserting an order, its link id finds it, and every other link id
/// finds what it found before.
pub proof fn lemma_insert_then_find(s: Seq<Order>, o: Order, key: Seq<char>)
    requires
        keys_unique(s),
    ensures
        has_key(spec_insert_order(s, o), o.order_link_id@),
        forall|k: int|
            0 <= k < spec_insert_order(s, o).len() && (#[trigger] spec_insert_order(s, o)[k]).order_link_id@
                == o.order_link_id@ ==> spec_insert_order(s, o)[k] == o,
        key != o.order_link_id@ ==> (has_key(spec_insert_order(s, o), key) <==> has_key(s, key)),
        key != o.order_link_id@ ==> forall|k: int|
            0 <= k < s.len() && (#[trigger] s[k]).order_link_id@ == key ==> spec_insert_order(s, o).contains(s[k]),
{
    let r = spec_insert_order(s, o);
    if has_key(s, o.order_link_id@) {
        let c = choose|c: int| 0 <= c < s.len() && (#[trigger] s[c]).order_link_id@ == o.order_link_id@;
        assert(r[c] == o);
        assert forall|k: int| 0 <= k < r.len() && (#[trigger] r[k]).order_link_id@ == o.order_link_id@ implies r[k] == o by {
            if k != c {
                assert(r[k] == s[k]);
            }
        }
        if key != o.order_link_id@ {
            if has_key(s, key) {
                let j = choose|j: int| 0 <= j < s.len() && (#[trigger] s[j]).order_link_id@ == key;
                assert(r[j] == s[j]);
            }
            if has_key(r, key) {
                let j = choose|j: int| 0 <= j < r.len() && (#[trigger] r[j]).order_link_id@ == key;
                assert(r[j] == s[j]);
            }
            assert forall|k: int| 0 <= k < s.len() && (#[trigger] s[k]).order_link_id@ == key implies r.contains(s[k]) by {
                assert(r[k] == s[k]);
            }
        }
    } else {
        assert(r[s.len() as int] == o);
        assert forall|k: int| 0 <= k < r.len() && (#[trigger] r[k]).order_link_id@ == o.order_link_id@ implies r[k] == o by {
            if k < s.len() {
                assert(r[k] == s[k]);
            }
        }
        if key != o.order_link_id@ {
            if has_key(s, key) {
                let j = choose|j: int| 0 <= j < s.len() && (#[trigger] s[j]).order_link_id@ == key;
                assert(r[j] == s[j]);
            }
            if has_key(r, key) {
                let j = choose|j: int| 0 <= j < r.len() && (#[trigger] r[j]).order_link_id@ == key;
                assert(r[j] == s[j]);
            }
            assert forall|k: int| 0 <= k < s.len() && (#[trigger] s[k]).order_link_id@ == key implies r.contains(s[k]) by {
                assert(r[k] == s[k]);
            }
        }
    }
}

/// The price a trigger watches is the one its `trigger_by` names: the mark
/// price (element 8 of the candle) for "mark", the index price (element 7)
/// for "index", and the step's trading price (the close in real time, the
/// open otherwise) for any other name.
pub proof fn lemma_watched_price(is_real_time: bool, src: Seq<u64>, other: Seq<char>)
    ensures
        spec_price_with_type(is_real_time, src, "mark"@) == src[8],
        spec_price_with_type(is_real_time, src, "index"@) == src[7],
        other != "mark"@ && other != "index"@ ==> spec_price_with_type(is_real_time, src, other) == (
        if is_real_time {
            src[4]
        } else {
            src[1]
        }),
{
    reveal_strlit("mark");
    reveal_strlit("index");
    assert("mark"@.len() == 4 && "index"@.len() == 5);
}

/// A market trigger order that watches the mark price upwards is executed
/// exactly when the mark price of the step has reached its trigger price
/// and has not fallen since the previous candle.
pub proof fn lemma_mark_trigger_up(s: TradeSettings, src: Seq<u64>, src_l: Seq<u64>, o: Order)
    requires
        o.type_@ == "market"@,
        o.spec_is_trigger(),
        o.trigger_by@ == "mark"@,
        o.trigger_direction == 1,
    ensures
        (spec_trigger_action(s, src, src_l, o) == TriggerAction::Execute) == (spec_le(o.trigger_price, src[8])
            && spec_le(src_l[8], src[8])),
{
    lemma_watched_price(s.work_in_real_time, src, "last"@);
    lemma_watched_price(s.work_in_real_time, src_l, "last"@);
    reveal_strlit("market");
    reveal_strlit("limit");
    assert("market"@.len() == 6 && "limit"@.len() == 5);
}

} // verus!
