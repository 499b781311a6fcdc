//! Per-step statistics of a back-test: where positions were entered and
//! left, the capital, and the values of the open positions. A step that
//! does not take part in a series holds NaN there.

use vstd::prelude::*;

use crate::buffer::rows_view;
use crate::num_bits::{is_normal, lemma_nan_constant, spec_is_normal, NAN};
use crate::settings::TradeSettings;
use crate::trade::structs::{Order, Position, TradeCell};

verus! {

/// `v` where `c` holds, NaN elsewhere.
pub open spec fn or_nan(c: bool, v: u64) -> u64 {
    if c {
        v
    } else {
        NAN
    }
}

/// Every row holds a normal number at position `i`.
pub open spec fn all_normal_at(rows: Seq<Seq<u64>>, i: int) -> bool {
    forall|k: int| 0 <= k < rows.len() ==> spec_is_normal(#[trigger] rows[k][i])
}

/// Position `i` of every row, in row order.
pub open spec fn column(rows: Seq<Seq<u64>>, i: int) -> Seq<u64> {
    Seq::new(rows.len(), |k: int| rows[k][i])
}

/// The first normal number of `s`, NaN when it has none.
pub open spec fn first_normal_or_nan(s: Seq<u64>) -> u64
    decreases s.len(),
{
    if s.len() == 0 {
        NAN
    } else if spec_is_normal(s[0]) {
        s[0]
    } else {
        first_normal_or_nan(s.drop_first())
    }
}

/// The rows of `values` all reach at least as far as the first one.
pub open spec fn rows_cover_first(values: Seq<Vec<u64>>) -> bool {
    &&& values.len() > 0
    &&& forall|k: int| 0 <= k < values.len() ==> values[0].len() <= (#[trigger] values[k]).len()
}

/// Which orders or positions of a step a series looks at.
#[derive(PartialEq, Eq, Structural, Clone, Copy, Debug)]
pub enum CellCollection {
    MarketOrders,
    LimitOrders,
    TriggerOrders,
    Positions,
}

/// Which value of a position a series reports.
#[derive(PartialEq, Eq, Structural, Clone, Copy, Debug)]
pub enum PositionValue {
    Qty,
    Leverage,
    AvgOpenPrice,
}

pub open spec fn orders_of(c: TradeCell, w: CellCollection) -> Seq<Order> {
    match w {
        CellCollection::MarketOrders => c.market_orders@,
        CellCollection::LimitOrders => c.limit_orders@,
        _ => c.trigger_orders@,
    }
}

/// Some order of `v` is active.
pub open spec fn any_active_order(v: Seq<Order>) -> bool {
    exists|k: int| 0 <= k < v.len() && (#[trigger] v[k]).is_active
}

/// Some order of `v` is inactive.
pub open spec fn any_inactive_order(v: Seq<Order>) -> bool {
    exists|k: int| 0 <= k < v.len() && !(#[trigger] v[k]).is_active
}

pub open spec fn any_active_position(v: Seq<Position>) -> bool {
    exists|k: int| 0 <= k < v.len() && (#[trigger] v[k]).is_active
}

pub open spec fn any_inactive_position(v: Seq<Position>) -> bool {
    exists|k: int| 0 <= k < v.len() && !(#[trigger] v[k]).is_active
}

/// The number of orders or positions in the collection `w` of `c`.
pub open spec fn collection_len(c: TradeCell, w: CellCollection) -> nat {
    match w {
        CellCollection::Positions => c.positions@.len(),
        _ => orders_of(c, w).len(),
    }
}

/// Some order or position in the collection `w` of `c` is active.
pub open spec fn collection_any_active(c: TradeCell, w: CellCollection) -> bool {
    match w {
        CellCollection::Positions => any_active_position(c.positions@),
        _ => any_active_order(orders_of(c, w)),
    }
}

/// The open price of the step where the collection counts, NaN elsewhere:
/// with `include_inactive` it counts when one of its members is active,
/// without it when it is not empty.
pub open spec fn some_at(c: TradeCell, w: CellCollection, include_inactive: bool) -> u64 {
    or_nan(
        if include_inactive {
            collection_any_active(c, w)
        } else {
            collection_len(c, w) > 0
        },
        c.src@[1],
    )
}

/// The entry price of a step: its open price when a market order is active
/// or a limit order inactive, and a position is active; NaN otherwise (or
/// when the open price is not a normal number).
pub open spec fn entry_at(c: TradeCell) -> u64 {
    let orders = first_normal_or_nan(
        seq![
            some_at(c, CellCollection::MarketOrders, true),
            or_nan(any_inactive_order(c.limit_orders@), c.src@[1]),
        ],
    );
    let positions = some_at(c, CellCollection::Positions, true);
    or_nan(spec_is_normal(orders) && spec_is_normal(positions), orders)
}

/// The exit price of a step: its open price when a position is inactive
/// (it was closed at the step), NaN otherwise.
pub open spec fn exit_at(c: TradeCell) -> u64 {
    or_nan(any_inactive_position(c.positions@), c.src@[1])
}

/// The entry price of a step if it is normal, else its exit price if that
/// is normal, else NaN.
pub open spec fn entry_and_exit_at(c: TradeCell) -> u64 {
    first_normal_or_nan(seq![entry_at(c), exit_at(c)])
}

/// Where the step holds positions and enters or exits, the entry (or exit)
/// price; NaN elsewhere.
pub open spec fn positions_entry_exit_at(c: TradeCell) -> u64 {
    let p = some_at(c, CellCollection::Positions, false);
    let e = entry_and_exit_at(c);
    or_nan(spec_is_normal(p) && spec_is_normal(e), p)
}

pub open spec fn position_value(p: Position, v: PositionValue) -> u64 {
    match v {
        PositionValue::Qty => p.qty,
        PositionValue::Leverage => p.leverage,
        PositionValue::AvgOpenPrice => p.avg_open_price,
    }
}

/// The chosen value of the first position of a step where the step enters
/// or exits; NaN elsewhere.
pub open spec fn value_positions_at(c: TradeCell, v: PositionValue) -> u64 {
    let p = if c.positions@.len() > 0 {
        position_value(c.positions@[0], v)
    } else {
        NAN
    };
    let e = entry_and_exit_at(c);
    or_nan(spec_is_normal(p) && spec_is_normal(e), p)
}

/// The steps whose candle reaches the open price.
pub open spec fn cells_have_open(cells: Seq<TradeCell>) -> bool {
    forall|c: int| 0 <= c < cells.len() ==> (#[trigger] cells[c]).src@.len() > 1
}

/// The pairs `(i, s[i])` of the normal numbers of `s`, in order.
pub open spec fn normal_points(s: Seq<u64>) -> Seq<(usize, u64)>
    decreases s.len(),
{
    if s.len() == 0 {
        Seq::empty()
    } else {
        let rest = normal_points(s.drop_last());
        if spec_is_normal(s.last()) {
            rest.push(((s.len() - 1) as usize, s.last()))
        } else {
            rest
        }
    }
}

fn any_active_orders(v: &Vec<Order>) -> (r: bool)
    ensures
        r == any_active_order(v@),
{
    let mut k: usize = 0;
    while k < v.len()
        invariant
            k <= v.len(),
            forall|x: int| 0 <= x < k ==> !(#[trigger] v@[x]).is_active,
        decreases v.len() - k,
    {
        if v[k].is_active {
            return true;
        }
        k = k + 1;
    }
    false
}

fn any_inactive_orders(v: &Vec<Order>) -> (r: bool)
    ensures
        r == any_inactive_order(v@),
{
    let mut k: usize = 0;
    while k < v.len()
        invariant
            k <= v.len(),
            forall|x: int| 0 <= x < k ==> (#[trigger] v@[x]).is_active,
        decreases v.len() - k,
    {
        if !v[k].is_active {
            return true;
        }
        k = k + 1;
    }
    false
}

fn any_active_positions(v: &Vec<Position>) -> (r: bool)
    ensures
        r == any_active_position(v@),
{
    let mut k: usize = 0;
    while k < v.len()
        invariant
            k <= v.len(),
            forall|x: int| 0 <= x < k ==> !(#[trigger] v@[x]).is_active,
        decreases v.len() - k,
    {
        if v[k].is_active {
            return true;
        }
        k = k + 1;
    }
    false
}

fn any_inactive_positions(v: &Vec<Position>) -> (r: bool)
    ensures
        r == any_inactive_position(v@),
{
    let mut k: usize = 0;
    while k < v.len()
        invariant
            k <= v.len(),
            forall|x: int| 0 <= x < k ==> (#[trigger] v@[x]).is_active,
        decreases v.len() - k,
    {
        if !v[k].is_active {
            return true;
        }
        k = k + 1;
    }
    false
}

fn first_normal_of_two(a: u64, b: u64) -> (r: u64)
    ensures
        r == first_normal_or_nan(seq![a, b]),
{
    assert(seq![a, b].drop_first() =~= seq![b]);
    assert(seq![b].drop_first() =~= Seq::<u64>::empty());
    proof {
        reveal_with_fuel(first_normal_or_nan, 3);
    }
    if is_normal(a) {
        a
    } else if is_normal(b) {
        b
    } else {
        NAN
    }
}

fn both_normal_or_nan(a: u64, b: u64) -> (r: u64)
    ensures
        r == or_nan(spec_is_normal(a) && spec_is_normal(b), a),
{
    if is_normal(a) && is_normal(b) {
        a
    } else {
        NAN
    }
}

pub struct StatCollector<'a> {
    pub symbol: String,
    pub cells: Vec<TradeCell>,
    pub s: &'a TradeSettings,
}

impl<'a> StatCollector<'a> {
    pub fn new(symbol: String, s: &'a TradeSettings) -> (r: Self)
        ensures
            r.symbol == symbol,
            r.cells@.len() == 0,
            r.s == s,
    {
        StatCollector { symbol, cells: Vec::new(), s }
    }

    /// Records one more step.
    pub fn push(&mut self, cell: TradeCell)
        ensures
            final(self).cells@ == old(self).cells@.push(cell),
            final(self).symbol == old(self).symbol,
            final(self).s == old(self).s,
    {
        self.cells.push(cell);
    }
}

impl StatCollector<'_> {
    /// At each position of the first row: the first row's value where every
    /// row holds a normal number, NaN elsewhere.
    pub fn to_all(values: &[Vec<u64>]) -> (r: Vec<u64>)
        requires
            rows_cover_first(values@),
        ensures
            r@.len() == values@[0].len(),
            forall|i: int|
                0 <= i < r@.len() ==> #[trigger] r@[i] == or_nan(
                    all_normal_at(rows_view(values@), i),
                    values@[0]@[i],
                ),
    {
        let first = &values[0];
        let n = first.len();
        let mut r: Vec<u64> = Vec::new();
        let mut i: usize = 0;
        while i < n
            invariant
                i <= n,
                n == values@[0].len(),
                first == &values@[0],
                rows_cover_first(values@),
                r@.len() == i,
                forall|x: int|
                    0 <= x < i ==> #[trigger] r@[x] == or_nan(
                        all_normal_at(rows_view(values@), x),
                        values@[0]@[x],
                    ),
            decreases n - i,
        {
            let mut all = true;
            let mut k: usize = 0;
            while k < values.len()
                invariant
                    k <= values@.len(),
                    i < n,
                    n == values@[0].len(),
                    rows_cover_first(values@),
                    all == (forall|y: int| 0 <= y < k ==> spec_is_normal(#[trigger] values@[y]@[i as int])),
                decreases values@.len() - k,
            {
                all = all && is_normal(values[k][i]);
                k = k + 1;
            }
            proof {
                let rows = rows_view(values@);
                assert forall|y: int| 0 <= y < rows.len() implies #[trigger] rows[y][i as int]
                    == values@[y]@[i as int] by {}
                if all {
                    assert forall|y: int| 0 <= y < rows.len() implies spec_is_normal(
                        #[trigger] rows[y][i as int],
                    ) by {
                        assert(rows[y][i as int] == values@[y]@[i as int]);
                    }
                } else {
                    let y = choose|y: int| 0 <= y < k && !spec_is_normal(#[trigger] values@[y]@[i as int]);
                    assert(rows[y][i as int] == values@[y]@[i as int]);
                }
                assert(all == all_normal_at(rows, i as int));
            }
            r.push(if all { first[i] } else { NAN });
            i = i + 1;
        }
        r
    }

    /// At each position of the first row: the first normal number found
    /// there going through the rows in order, NaN when there is none.
    pub fn to_any(values: &[Vec<u64>]) -> (r: Vec<u64>)
        requires
            rows_cover_first(values@),
        ensures
            r@.len() == values@[0].len(),
            forall|i: int|
                0 <= i < r@.len() ==> #[trigger] r@[i] == first_normal_or_nan(
                    column(rows_view(values@), i),
                ),
    {
        let n = values[0].len();
        let mut r: Vec<u64> = Vec::new();
        let mut i: usize = 0;
        while i < n
            invariant
                i <= n,
                n == values@[0].len(),
                rows_cover_first(values@),
                r@.len() == i,
                forall|x: int|
                    0 <= x < i ==> #[trigger] r@[x] == first_normal_or_nan(
                        column(rows_view(values@), x),
                    ),
            decreases n - i,
        {
            let ghost col = column(rows_view(values@), i as int);
            let mut found = NAN;
            let mut done = false;
            let mut k: usize = 0;
            assert(col.skip(0) =~= col);
            while k < values.len() && !done
                invariant
                    k <= values@.len(),
                    i < n,
                    n == values@[0].len(),
                    rows_cover_first(values@),
                    col == column(rows_view(values@), i as int),
                    col.len() == values@.len(),
                    done ==> found == first_normal_or_nan(col),
                    !done ==> found == NAN,
                    !done ==> first_normal_or_nan(col) == first_normal_or_nan(col.skip(k as int)),
                decreases values@.len() - k + (if done { 0int } else { 1int }),
            {
                assert(col[k as int] == values@[k as int]@[i as int]);
                assert(col.skip(k as int)[0] == col[k as int]);
                if is_normal(values[k][i]) {
                    found = values[k][i];
                    done = true;
                } else {
                    assert(col.skip(k as int).drop_first() =~= col.skip(k + 1));
                    k = k + 1;
                }
            }
            proof {
                if !done {
                    assert(col.skip(k as int).len() == 0);
                    assert(first_normal_or_nan(col.skip(k as int)) == NAN);
                }
                assert(found == first_normal_or_nan(col));
            }
            r.push(found);
            i = i + 1;
        }
        r
    }

    /// The open price of each step whose collection `w` counts: with
    /// `include_inactive`, when one of its members is active; without it,
    /// when it is not empty. NaN at the other steps.
    pub fn to_some(&self, w: CellCollection, include_inactive: bool) -> (r: Vec<u64>)
        requires
            cells_have_open(self.cells@),
        ensures
            r@.len() == self.cells@.len(),
            forall|c: int|
                0 <= c < r@.len() ==> #[trigger] r@[c] == some_at(
                    self.cells@[c],
                    w,
                    include_inactive,
                ),
    {
        let mut r: Vec<u64> = Vec::new();
        let mut c: usize = 0;
        while c < self.cells.len()
            invariant
                c <= self.cells@.len(),
                cells_have_open(self.cells@),
                r@.len() == c,
                forall|x: int|
                    0 <= x < c ==> #[trigger] r@[x] == some_at(self.cells@[x], w, include_inactive),
            decreases self.cells@.len() - c,
        {
            let cell = &self.cells[c];
            let counts = if include_inactive {
                match w {
                    CellCollection::MarketOrders => any_active_orders(&cell.market_orders),
                    CellCollection::LimitOrders => any_active_orders(&cell.limit_orders),
                    CellCollection::TriggerOrders => any_active_orders(&cell.trigger_orders),
                    CellCollection::Positions => any_active_positions(&cell.positions),
                }
            } else {
                match w {
                    CellCollection::MarketOrders => cell.market_orders.len() > 0,
                    CellCollection::LimitOrders => cell.limit_orders.len() > 0,
                    CellCollection::TriggerOrders => cell.trigger_orders.len() > 0,
                    CellCollection::Positions => cell.positions.len() > 0,
                }
            };
            r.push(if counts { cell.src[1] } else { NAN });
            c = c + 1;
        }
        r
    }

    /// The capital of each step.
    pub fn to_capital(&self) -> (r: Vec<u64>)
        ensures
            r@.len() == self.cells@.len(),
            forall|c: int| 0 <= c < r@.len() ==> #[trigger] r@[c] == self.cells@[c].capital,
    {
        let mut r: Vec<u64> = Vec::new();
        let mut c: usize = 0;
        while c < self.cells.len()
            invariant
                c <= self.cells@.len(),
                r@.len() == c,
                forall|x: int| 0 <= x < c ==> #[trigger] r@[x] == self.cells@[x].capital,
            decreases self.cells@.len() - c,
        {
            r.push(self.cells[c].capital);
            c = c + 1;
        }
        r
    }

    /// The exit series: at each step where a position is inactive the step's
    /// open price (index 1 of the candle), NaN elsewhere.
    pub fn to_exit(&self) -> (r: Vec<u64>)
        requires
            cells_have_open(self.cells@),
        ensures
            r@.len() == self.cells@.len(),
            forall|c: int| 0 <= c < r@.len() ==> #[trigger] r@[c] == exit_at(self.cells@[c]),
    {
        let mut r: Vec<u64> = Vec::new();
        let mut c: usize = 0;
        while c < self.cells.len()
            invariant
                c <= self.cells@.len(),
                cells_have_open(self.cells@),
                r@.len() == c,
                forall|x: int| 0 <= x < c ==> #[trigger] r@[x] == exit_at(self.cells@[x]),
            decreases self.cells@.len() - c,
        {
            let cell = &self.cells[c];
            r.push(if any_inactive_positions(&cell.positions) { cell.src[1] } else { NAN });
            c = c + 1;
        }
        r
    }

    /// Open prices of the steps with an active market order.
    pub fn to_market_orders(&self) -> (r: Vec<u64>)
        requires
            cells_have_open(self.cells@),
        ensures
            r@.len() == self.cells@.len(),
            forall|c: int|
                0 <= c < r@.len() ==> #[trigger] r@[c] == some_at(
                    self.cells@[c],
                    CellCollection::MarketOrders,
                    true,
                ),
    {
        self.to_some(CellCollection::MarketOrders, true)
    }

    /// Open prices of the steps with an active limit order.
    pub fn to_limit_orders(&self) -> (r: Vec<u64>)
        requires
            cells_have_open(self.cells@),
        ensures
            r@.len() == self.cells@.len(),
            forall|c: int|
                0 <= c < r@.len() ==> #[trigger] r@[c] == some_at(
                    self.cells@[c],
                    CellCollection::LimitOrders,
                    true,
                ),
    {
        self.to_some(CellCollection::LimitOrders, true)
    }

    fn limit_inactive_series(&self) -> (r: Vec<u64>)
        requires
            cells_have_open(self.cells@),
        ensures
            r@.len() == self.cells@.len(),
            forall|c: int|
                0 <= c < r@.len() ==> #[trigger] r@[c] == or_nan(
                    any_inactive_order(self.cells@[c].limit_orders@),
                    self.cells@[c].src@[1],
                ),
    {
        let mut r: Vec<u64> = Vec::new();
        let mut c: usize = 0;
        while c < self.cells.len()
            invariant
                c <= self.cells@.len(),
                cells_have_open(self.cells@),
                r@.len() == c,
                forall|x: int|
                    0 <= x < c ==> #[trigger] r@[x] == or_nan(
                        any_inactive_order(self.cells@[x].limit_orders@),
                        self.cells@[x].src@[1],
                    ),
            decreases self.cells@.len() - c,
        {
            let cell = &self.cells[c];
            r.push(if any_inactive_orders(&cell.limit_orders) { cell.src[1] } else { NAN });
            c = c + 1;
        }
        r
    }

    /// The entry series: see [`entry_at`].
    pub fn to_entry(&self) -> (r: Vec<u64>)
        requires
            cells_have_open(self.cells@),
        ensures
            r@.len() == self.cells@.len(),
            forall|c: int| 0 <= c < r@.len() ==> #[trigger] r@[c] == entry_at(self.cells@[c]),
    {
        let market = self.to_some(CellCollection::MarketOrders, true);
        let limit = self.limit_inactive_series();
        let orders_in = vec![market, limit];
        let orders = Self::to_any(orders_in.as_slice());
        let positions = self.to_some(CellCollection::Positions, true);
        let ghost orders_v = orders@;
        let ghost positions_v = positions@;
        let both = vec![orders, positions];
        let r = Self::to_all(both.as_slice());
        assert forall|c: int| 0 <= c < r@.len() implies #[trigger] r@[c] == entry_at(
            self.cells@[c],
        ) by {
            let rows_o = rows_view(orders_in@);
            assert(column(rows_o, c) =~= seq![
                some_at(self.cells@[c], CellCollection::MarketOrders, true),
                or_nan(any_inactive_order(self.cells@[c].limit_orders@), self.cells@[c].src@[1]),
            ]);
            let rows_b = rows_view(both@);
            assert(rows_b[0][c] == orders_v[c]);
            assert(rows_b[1][c] == positions_v[c]);
            assert(all_normal_at(rows_b, c) == (spec_is_normal(orders_v[c]) && spec_is_normal(
                positions_v[c],
            )));
        }
        r
    }

    /// The series of [`entry_and_exit_at`].
    pub fn to_entry_and_exit(&self) -> (r: Vec<u64>)
        requires
            cells_have_open(self.cells@),
        ensures
            r@.len() == self.cells@.len(),
            forall|c: int|
                0 <= c < r@.len() ==> #[trigger] r@[c] == entry_and_exit_at(self.cells@[c]),
    {
        let entry = self.to_entry();
        let exit = self.to_exit();
        let mut r: Vec<u64> = Vec::new();
        let mut i: usize = 0;
        while i < entry.len()
            invariant
                i <= entry@.len(),
                entry@.len() == self.cells@.len(),
                exit@.len() == self.cells@.len(),
                forall|c: int| 0 <= c < entry@.len() ==> #[trigger] entry@[c] == entry_at(self.cells@[c]),
                forall|c: int| 0 <= c < exit@.len() ==> #[trigger] exit@[c] == exit_at(self.cells@[c]),
                r@.len() == i,
                forall|c: int|
                    0 <= c < i ==> #[trigger] r@[c] == entry_and_exit_at(self.cells@[c]),
            decreases entry@.len() - i,
        {
            r.push(first_normal_of_two(entry[i], exit[i]));
            i = i + 1;
        }
        r
    }

    /// The series of [`positions_entry_exit_at`].
    pub fn to_positions_entry_exit(&self) -> (r: Vec<u64>)
        requires
            cells_have_open(self.cells@),
        ensures
            r@.len() == self.cells@.len(),
            forall|c: int|
                0 <= c < r@.len() ==> #[trigger] r@[c] == positions_entry_exit_at(self.cells@[c]),
    {
        let p = self.to_some(CellCollection::Positions, false);
        let e = self.to_entry_and_exit();
        let ghost pv = p@;
        let ghost ev = e@;
        let both = vec![p, e];
        let r = Self::to_all(both.as_slice());
        assert forall|c: int| 0 <= c < r@.len() implies #[trigger] r@[c]
            == positions_entry_exit_at(self.cells@[c]) by {
            let rows_b = rows_view(both@);
            assert(rows_b[0][c] == pv[c]);
            assert(rows_b[1][c] == ev[c]);
            assert(all_normal_at(rows_b, c) == (spec_is_normal(pv[c]) && spec_is_normal(ev[c])));
        }
        r
    }

    /// The series of [`value_positions_at`] for the position value `v`.
    pub fn to_value_positions(&self, v: PositionValue) -> (r: Vec<u64>)
        requires
            cells_have_open(self.cells@),
        ensures
            r@.len() == self.cells@.len(),
            forall|c: int|
                0 <= c < r@.len() ==> #[trigger] r@[c] == value_positions_at(self.cells@[c], v),
    {
        let mut values: Vec<u64> = Vec::new();
        let mut c: usize = 0;
        while c < self.cells.len()
            invariant
                c <= self.cells@.len(),
                values@.len() == c,
                forall|x: int|
                    0 <= x < c ==> #[trigger] values@[x] == (if self.cells@[x].positions@.len() > 0 {
                        position_value(self.cells@[x].positions@[0], v)
                    } else {
                        NAN
                    }),
            decreases self.cells@.len() - c,
        {
            let cell = &self.cells[c];
            values.push(
                if cell.positions.len() > 0 {
                    let p = &cell.positions[0];
                    match v {
                        PositionValue::Qty => p.qty,
                        PositionValue::Leverage => p.leverage,
                        PositionValue::AvgOpenPrice => p.avg_open_price,
                    }
                } else {
                    NAN
                },
            );
            c = c + 1;
        }
        let e = self.to_entry_and_exit();
        let ghost vv = values@;
        let ghost ev = e@;
        let both = vec![values, e];
        let r = Self::to_all(both.as_slice());
        assert forall|c: int| 0 <= c < r@.len() implies #[trigger] r@[c] == value_positions_at(
            self.cells@[c],
            v,
        ) by {
            let rows_b = rows_view(both@);
            assert(rows_b[0][c] == vv[c]);
            assert(rows_b[1][c] == ev[c]);
            assert(all_normal_at(rows_b, c) == (spec_is_normal(vv[c]) && spec_is_normal(ev[c])));
        }
        r
    }
}

/// Dropping the steps that are not normal numbers from a series.
pub trait NumsExt {
    /// The pairs of position and value of the normal numbers of the series,
    /// in order. `sep` bounds how many non-normal values in a row are let
    /// through the scan before it resets; none of them reaches the result.
    fn del_nan(self, sep: usize) -> Vec<(usize, u64)>;
}

impl NumsExt for Vec<u64> {
    fn del_nan(self, sep: usize) -> (r: Vec<(usize, u64)>)
        ensures
            r@ == normal_points(self@),
    {
        proof {
            lemma_nan_constant();
        }
        let mut r: Vec<(usize, u64)> = Vec::new();
        let mut num: usize = 0;
        let mut i: usize = 0;
        while i < self.len()
            invariant
                i <= self@.len(),
                !spec_is_normal(NAN),
                r@ == normal_points(self@.subrange(0, i as int)),
            decreases self@.len() - i,
        {
            let x = self[i];
            let scanned: (usize, u64) = if is_normal(x) {
                (i, x)
            } else {
                num = if num < usize::MAX { num + 1 } else { num };
                if num <= sep {
                    (i, x)
                } else {
                    num = 0;
                    (0, NAN)
                }
            };
            if is_normal(scanned.1) {
                r.push(scanned);
            }
            proof {
                let pre = self@.subrange(0, i + 1);
                assert(pre.drop_last() =~= self@.subrange(0, i as int));
                assert(pre.last() == x);
            }
            i = i + 1;
        }
        assert(self@.subrange(0, i as int) =~= self@);
        r
    }
}

/// The points kept by dropping non-normal values are exactly the normal
/// values with their positions, whatever the separation count: a position
/// appears in the result if and only if its value is normal.
pub proof fn lemma_normal_points_exact(s: Seq<u64>, i: int)
    requires
        0 <= i < s.len(),
        s.len() <= usize::MAX,
    ensures
        spec_is_normal(s[i]) <==> normal_points(s).contains((i as usize, s[i])),
    decreases s.len(),
{
    let rest = normal_points(s.drop_last());
    if i < s.len() - 1 {
        lemma_normal_points_exact(s.drop_last(), i);
        assert(s.drop_last()[i] == s[i]);
        lemma_normal_points_positions_below(s.drop_last());
        if spec_is_normal(s.last()) {
            let r = rest.push(((s.len() - 1) as usize, s.last()));
            if rest.contains((i as usize, s[i])) {
                let k = choose|k: int| 0 <= k < rest.len() && rest[k] == (i as usize, s[i]);
                assert(r[k] == (i as usize, s[i]));
            }
            if r.contains((i as usize, s[i])) {
                let k = choose|k: int| 0 <= k < r.len() && r[k] == (i as usize, s[i]);
                if k == r.len() - 1 {
                    assert((s.len() - 1) as usize == i as usize);
                    assert(false);
                } else {
                    assert(rest[k] == (i as usize, s[i]));
                }
            }
        }
    } else {
        lemma_normal_points_positions_below(s.drop_last());
        if spec_is_normal(s.last()) {
            let r = rest.push(((s.len() - 1) as usize, s.last()));
            assert(r[r.len() - 1] == (i as usize, s[i]));
        } else {
            if rest.contains((i as usize, s[i])) {
                let k = choose|k: int| 0 <= k < rest.len() && rest[k] == (i as usize, s[i]);
                assert(rest[k].0 < s.len() - 1);
            }
        }
    }
}

/// Every position recorded by [`normal_points`] lies inside the series.
pub proof fn lemma_normal_points_positions_below(s: Seq<u64>)
    ensures
        forall|k: int|
            0 <= k < normal_points(s).len() ==> (#[trigger] normal_points(s)[k]).0 < s.len(),
        normal_points(s).len() <= s.len(),
    decreases s.len(),
{
    if s.len() > 0 {
        lemma_normal_points_positions_below(s.drop_last());
    }
}

/// Series grouped into tables: each table is a list of named columns, in
/// the order they were added.
pub struct StatData(pub Vec<Vec<(String, Vec<u64>)>>);

pub open spec fn table_view(t: Seq<(String, Vec<u64>)>) -> Seq<(Seq<char>, Seq<u64>)> {
    t.map_values(|c: (String, Vec<u64>)| (c.0@, c.1@))
}

impl View for StatData {
    type V = Seq<Seq<(Seq<char>, Seq<u64>)>>;

    open spec fn view(&self) -> Seq<Seq<(Seq<char>, Seq<u64>)>> {
        self.0@.map_values(|t: Vec<(String, Vec<u64>)>| table_view(t@))
    }
}

impl StatData {
    /// The columns of each table, without their names.
    pub fn to_vec(&self) -> (r: Vec<Vec<Vec<u64>>>)
        ensures
            r@.len() == self@.len(),
            forall|t: int|
                0 <= t < r@.len() ==> rows_view((#[trigger] r@[t])@) == self@[t].map_values(
                    |c: (Seq<char>, Seq<u64>)| c.1,
                ),
    {
        let mut r: Vec<Vec<Vec<u64>>> = Vec::new();
        let mut t: usize = 0;
        while t < self.0.len()
            invariant
                t <= self.0@.len(),
                r@.len() == t,
                forall|x: int|
                    0 <= x < t ==> rows_view((#[trigger] r@[x])@) == self@[x].map_values(
                        |c: (Seq<char>, Seq<u64>)| c.1,
                    ),
            decreases self.0@.len() - t,
        {
            let table = &self.0[t];
            let mut cols: Vec<Vec<u64>> = Vec::new();
            let mut k: usize = 0;
            while k < table.len()
                invariant
                    k <= table@.len(),
                    cols@.len() == k,
                    forall|y: int| 0 <= y < k ==> (#[trigger] cols@[y])@ == table@[y].1@,
                decreases table@.len() - k,
            {
                cols.push(table[k].1.clone());
                k = k + 1;
            }
            proof {
                assert(rows_view(cols@) =~= self@[t as int].map_values(|c: (Seq<char>, Seq<u64>)| c.1));
            }
            r.push(cols);
            t = t + 1;
        }
        r
    }
}

/// Value `idx` of every step's candle.
pub open spec fn candle_column(cells: Seq<TradeCell>, idx: int) -> Seq<u64> {
    Seq::new(cells.len(), |c: int| cells[c].src@[idx])
}

pub open spec fn series_of(cells: Seq<TradeCell>, f: spec_fn(TradeCell) -> u64) -> Seq<u64> {
    Seq::new(cells.len(), |c: int| f(cells[c]))
}

/// The steps' candles reach the turnover (index 6).
pub open spec fn cells_have_candles(cells: Seq<TradeCell>) -> bool {
    forall|c: int| 0 <= c < cells.len() ==> (#[trigger] cells[c]).src@.len() > 6
}

/// The table of per-step series: the time values given, the candle's open,
/// high, low, close, volume and turnover, the capital, the entry and exit
/// series, the given profit-and-loss values where the step exits, and the
/// quantity of the first position where the step enters or exits.
pub open spec fn spec_step_table(cells: Seq<TradeCell>, time: Seq<u64>, pnl: Seq<u64>) -> Seq<
    (Seq<char>, Seq<u64>),
> {
    seq![
        ("time"@, time),
        ("open"@, candle_column(cells, 1)),
        ("high"@, candle_column(cells, 2)),
        ("low"@, candle_column(cells, 3)),
        ("close"@, candle_column(cells, 4)),
        ("volume"@, candle_column(cells, 5)),
        ("turnover"@, candle_column(cells, 6)),
        ("capital"@, series_of(cells, |c: TradeCell| c.capital)),
        ("entry"@, series_of(cells, |c: TradeCell| entry_at(c))),
        ("exit"@, series_of(cells, |c: TradeCell| exit_at(c))),
        ("pnl"@, Seq::new(cells.len(), |c: int| or_nan(spec_is_normal(pnl[c]) && spec_is_normal(exit_at(cells[c])), pnl[c]))),
        ("qty"@, series_of(cells, |c: TradeCell| value_positions_at(c, PositionValue::Qty))),
    ]
}

/// The table of the points where positions are entered or exited: their
/// time values and prices.
pub open spec fn spec_points_table(cells: Seq<TradeCell>, time: Seq<u64>) -> Seq<
    (Seq<char>, Seq<u64>),
> {
    let pts = normal_points(series_of(cells, |c: TradeCell| positions_entry_exit_at(c)));
    seq![
        ("time"@, pts.map_values(|p: (usize, u64)| time[p.0 as int])),
        ("positions_entry_exit"@, pts.map_values(|p: (usize, u64)| p.1)),
    ]
}

fn candle_values(cells: &Vec<TradeCell>, idx: usize) -> (r: Vec<u64>)
    requires
        cells_have_candles(cells@),
        idx <= 6,
    ensures
        r@ == candle_column(cells@, idx as int),
{
    let mut r: Vec<u64> = Vec::new();
    let mut c: usize = 0;
    while c < cells.len()
        invariant
            c <= cells@.len(),
            idx <= 6,
            cells_have_candles(cells@),
            r@ == candle_column(cells@, idx as int).subrange(0, c as int),
        decreases cells@.len() - c,
    {
        r.push(cells[c].src[idx]);
        c = c + 1;
        assert(r@ =~= candle_column(cells@, idx as int).subrange(0, c as int));
    }
    assert(r@ =~= candle_column(cells@, idx as int));
    r
}

impl StatCollector<'_> {
    /// The statistics of the run as two tables: [`spec_step_table`] and
    /// [`spec_points_table`]. `time` holds the time value of each step and
    /// `pnl` the profit and loss of each step's first position.
    pub fn to_data(&self, time: &Vec<u64>, pnl: &Vec<u64>) -> (r: StatData)
        requires
            cells_have_candles(self.cells@),
            time@.len() == self.cells@.len(),
            pnl@.len() == self.cells@.len(),
            normal_points(series_of(self.cells@, |c: TradeCell| positions_entry_exit_at(c))).len()
                > 0,
        ensures
            r@ == seq![
                spec_step_table(self.cells@, time@, pnl@),
                spec_points_table(self.cells@, time@),
            ],
    {
        let cells = &self.cells;
        proof {
            assert forall|c: int| 0 <= c < cells@.len() implies (#[trigger] cells@[c]).src@.len() > 1 by {
                assert(cells@[c].src@.len() > 6);
            }
        }
        let exit = self.to_exit();
        let ghost exit_v = exit@;
        let ghost pnl_v = pnl@;
        let pnl_in = vec![copy_u64s(pnl), exit];
        let pnl_col = Self::to_all(pnl_in.as_slice());
        let entry = self.to_entry();
        let exit2 = self.to_exit();
        let qty = self.to_value_positions(PositionValue::Qty);
        let capital = self.to_capital();
        let mut table: Vec<(String, Vec<u64>)> = Vec::new();
        table.push((String::from_str("time"), copy_u64s(time)));
        table.push((String::from_str("open"), candle_values(cells, 1)));
        table.push((String::from_str("high"), candle_values(cells, 2)));
        table.push((String::from_str("low"), candle_values(cells, 3)));
        table.push((String::from_str("close"), candle_values(cells, 4)));
        table.push((String::from_str("volume"), candle_values(cells, 5)));
        table.push((String::from_str("turnover"), candle_values(cells, 6)));
        table.push((String::from_str("capital"), capital));
        table.push((String::from_str("entry"), entry));
        table.push((String::from_str("exit"), exit2));
        table.push((String::from_str("pnl"), pnl_col));
        table.push((String::from_str("qty"), qty));
        let ghost tv = table_view(table@);
        proof {
            let st = spec_step_table(self.cells@, time@, pnl@);
            assert(tv[7].1 =~= st[7].1);
            assert(tv[8].1 =~= st[8].1);
            assert(tv[9].1 =~= st[9].1);
            assert forall|c: int| 0 <= c < cells@.len() implies #[trigger] tv[10].1[c] == st[10].1[c] by {
                let rows_p = rows_view(pnl_in@);
                assert(rows_p[0][c] == pnl_v[c]);
                assert(rows_p[1][c] == exit_v[c]);
                assert(all_normal_at(rows_p, c) == (spec_is_normal(pnl_v[c]) && spec_is_normal(exit_v[c])));
            }
            assert(tv[10].1 =~= st[10].1);
            assert(tv[11].1 =~= st[11].1);
            assert(tv =~= st);
        }
        let pe = self.to_positions_entry_exit();
        let ghost pe_v = pe@;
        let points = pe.del_nan(1);
        proof {
            assert(pe_v =~= series_of(self.cells@, |c: TradeCell| positions_entry_exit_at(c)));
            lemma_normal_points_positions_below(pe_v);
        }
        let mut times: Vec<u64> = Vec::new();
        let mut values: Vec<u64> = Vec::new();
        let mut k: usize = 0;
        while k < points.len()
            invariant
                k <= points@.len(),
                points@ == normal_points(pe_v),
                pe_v.len() == time@.len(),
                forall|x: int| 0 <= x < points@.len() ==> (#[trigger] points@[x]).0 < pe_v.len(),
                times@ == points@.subrange(0, k as int).map_values(|p: (usize, u64)| time@[p.0 as int]),
                values@ == points@.subrange(0, k as int).map_values(|p: (usize, u64)| p.1),
            decreases points@.len() - k,
        {
            let (i, v) = points[k];
            times.push(time[i]);
            values.push(v);
            k = k + 1;
            assert(times@ =~= points@.subrange(0, k as int).map_values(|p: (usize, u64)| time@[p.0 as int]));
            assert(values@ =~= points@.subrange(0, k as int).map_values(|p: (usize, u64)| p.1));
        }
        assert(points@.subrange(0, k as int) =~= points@);
        let mut points_table: Vec<(String, Vec<u64>)> = Vec::new();
        points_table.push((String::from_str("time"), times));
        points_table.push((String::from_str("positions_entry_exit"), values));
        let ghost pv = table_view(points_table@);
        assert(pv =~= spec_points_table(self.cells@, time@));
        let mut tables: Vec<Vec<(String, Vec<u64>)>> = Vec::new();
        tables.push(table);
        tables.push(points_table);
        let r = StatData(tables);
        assert(r@ =~= seq![spec_step_table(self.cells@, time@, pnl@), spec_points_table(self.cells@, time@)]);
        r
    }
}

fn copy_u64s(v: &Vec<u64>) -> (r: Vec<u64>)
    ensures
        r@ == v@,
{
    v.clone()
}

/// A step is an exit as soon as one of its positions was closed at it,
/// whatever the other positions do: its exit value is then the step's open
/// price; with every position still open (or none held) it is NaN.
pub proof fn lemma_exit_on_any_closed_position(c: TradeCell)
    ensures
        (exists|k: int| 0 <= k < c.positions@.len() && !(#[trigger] c.positions@[k]).is_active) ==> exit_at(c)
            == c.src@[1],
        (forall|k: int| 0 <= k < c.positions@.len() ==> (#[trigger] c.positions@[k]).is_active) ==> exit_at(c)
            == NAN,
{
}

/// Closing one position of a step while another stays open makes the step
/// an exit.
pub proof fn lemma_exit_with_open_position(c: TradeCell, closed: int, open: int)
    requires
        0 <= closed < c.positions@.len(),
        0 <= open < c.positions@.len(),
        !c.positions@[closed].is_active,
        c.positions@[open].is_active,
    ensures
        exit_at(c) == c.src@[1],
{
    assert(!c.positions@[closed].is_active);
}

} // verus!
