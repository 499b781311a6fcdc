use bc_constructor::settings::TradeSettings;
use bc_constructor::symbol_filters::{FilterInputs, SymbolFilter, SymbolFiltersGateway, ORDERING};
use bc_constructor::trade::orders_collector::{OrderCollector, CLEAR};
use bc_constructor::trade::statistics::{CellCollection, NumsExt, PositionValue, StatCollector};
use bc_constructor::trade::structs::{Order, Position, Signal, TradeCell};
use bc_constructor::trade::utils_cell::{
    commission_rate, modify_positions, modify_positions_or_not, order_create, orders_market_extern, position_change,
    position_idx, price_crossed, price_is_real_time, PositionChange,
    price_with_type, tp_sl_above_entry, tp_sl_orders, trigger_direction, OrderKind, OrderRequest,
};

fn b(x: f64) -> u64 {
    x.to_bits()
}

fn bits(v: &[f64]) -> Vec<u64> {
    v.iter().map(|x| x.to_bits()).collect()
}

fn nums(v: &[u64]) -> Vec<f64> {
    v.iter().map(|x| f64::from_bits(*x)).collect()
}

/// NaN replaced by `z`, so that series with NaN can be compared.
fn nz(v: &[f64], z: f64) -> Vec<f64> {
    v.iter().map(|x| if x.is_nan() { z } else { *x }).collect()
}

fn settings() -> TradeSettings {
    TradeSettings {
        category: String::new(),
        account_type: String::new(),
        klines_qty: 0,
        timeframe: String::new(),
        leverage: b(10.),
        mode_trade: String::new(),
        hedge_mode: false,
        symbols_time_update_ms: 0,
        symbols: vec![],
        symbols_black_list: vec![],
        coins: vec![],
        coins_black_list: vec![],
        slippage_tolerance_type: String::new(),
        time_in_force: String::new(),
        signal_hold: b(0.),
        signal_short: b(-1.),
        signal_long: b(1.),
        commission_market: b(0.00055),
        commission_limit: b(0.0002),
        capital: b(100.),
        percent_of_capital: b(0.01),
        amount_of_capital: b(0.),
        max_entry: 0,
        max_exit: 0,
        market_mult_of_probability_qty: b(0.),
        limit_mult_of_probability_qty: b(0.),
        market_entry_orders_signals: vec![],
        market_exit_orders_signals: vec![],
        trigger_by: String::new(),
        work_in_real_time: false,
        limit_entry_orders_signals: vec![],
        limit_exit_orders_signals: vec![],
        trigger_market_entry_orders_signals: vec![],
        trigger_market_exit_orders_signals: vec![],
        trigger_limit_entry_orders_signals: vec![],
        trigger_limit_exit_orders_signals: vec![],
        takeprofit: vec![],
        stoploss: vec![(b(1.), b(0.), b(0.5))],
        has_symbols_filter: false,
    }
}

#[test]
fn to_all_res_1() {
    assert_eq!(
        vec![1., 0.],
        nz(
            &nums(&StatCollector::to_all(&[bits(&[1., f64::NAN]), bits(&[1., 2.])])),
            0.
        )
    );
}

#[test]
fn to_any_res_1() {
    assert_eq!(
        vec![1., 2.],
        nums(&StatCollector::to_any(&[bits(&[1., f64::NAN]), bits(&[1., 2.])]))
    );
}

#[test]
fn del_nan_res_1() {
    let got: Vec<(usize, f64)> = bits(&[1., f64::NAN])
        .del_nan(0)
        .into_iter()
        .map(|(i, x)| (i, f64::from_bits(x)))
        .collect();
    assert_eq!(vec![(0usize, 1.)], got);
}

#[test]
fn symbol_filter_res_1() {
    assert_eq!(
        ORDERING::new(b(1.), "less".to_string()).symbol_filter(&[], &[b(0.9)]),
        true
    );
}

#[test]
fn price_in_real_time_res_1() {
    let src = bits(&[1., 1., 2., 2., 3.]);
    assert_eq!(src[4], price_is_real_time(true, &src));
    assert_eq!(src[1], price_is_real_time(false, &src));
}

#[test]
fn price_with_type_res_1() {
    let src = bits(&[1., 1., 2., 2., 3.]);
    assert_eq!(src[1], price_with_type(&settings(), &src, "last"));
}

#[test]
fn position_idx_res_1() {
    let signal = Signal { signal: b(1.0), probability: b(1.0) };
    assert_eq!("1".to_string(), position_idx(&settings(), &signal));
}

#[test]
fn price_crossed_res_1() {
    assert_eq!((true, 1), price_crossed(b(1.3), b(1.2), b(1.22), b(1.18)));
}

#[test]
fn trigger_direction_res_1() {
    assert_eq!(trigger_direction(b(1.), b(0.9)), 2)
}

// Candles (time, open, high, low, close, volume, turnover, index price,
// mark price) of three consecutive steps.
const SRC_EL_L1: [f64; 9] = [1., 1.5, 2.5, 1., 2., 11., 21., 1.5, 1.5];
const SRC_EL_L: [f64; 9] = [2., 2., 3., 1.5, 2.5, 12., 22., 2., 2.];
const SRC_EL: [f64; 9] = [3., 2.5, 3.5, 2., 3., 13., 23., 2.5, 2.5];

const SIGNAL: Signal = Signal { signal: 0x3ff0_0000_0000_0000, probability: 0x3ff0_0000_0000_0000 };

fn new_order(side: &str, qty: f64, price: f64, type_: &str, is_reduce: bool, link: &str) -> Order {
    let s = settings();
    Order {
        symbol: String::new(),
        side: side.to_string(),
        signal: SIGNAL,
        qty: b(qty),
        qty_percent_of_position: b(0.),
        leverage: s.leverage,
        price: b(price),
        type_: type_.to_string(),
        tp: vec![],
        sl: vec![],
        trigger_by: String::new(),
        trigger_price: b(0.),
        trigger_direction: 0,
        is_reduce,
        order_link_id: link.to_string(),
        position_idx: "1".to_string(),
        is_active: true,
    }
}

fn new_position(active: bool) -> Position {
    let s = settings();
    Position {
        symbol: String::new(),
        side: "buy".to_string(),
        qty: b(f64::from_bits(s.capital) * f64::from_bits(s.percent_of_capital)),
        leverage: s.leverage,
        avg_open_price: b(1.7),
        position_idx: "1".to_string(),
        is_active: active,
    }
}

fn st(s: &TradeSettings) -> StatCollector<'_> {
    let qty = f64::from_bits(s.capital) * f64::from_bits(s.percent_of_capital);
    let mut bind = StatCollector::new(String::new(), s);
    let mut c0 = TradeCell::new(b(100.), bits(&SRC_EL_L), bits(&SRC_EL_L1));
    c0.trigger_orders.push(new_order("buy", qty, 3., "limit", false, ""));
    c0.positions.push(new_position(true));
    c0.market_orders.push(new_order("", qty, 0., "market", false, "1"));
    bind.push(c0);
    let mut c1 = TradeCell::new(b(100.), bits(&SRC_EL), bits(&SRC_EL_L));
    c1.positions.push(new_position(false));
    c1.market_orders.push(new_order("", qty, 0., "market", true, "1"));
    bind.push(c1);
    bind
}

#[test]
fn to_some_res_1() {
    let s = settings();
    assert_eq!(
        vec![SRC_EL_L[1], 0.0],
        nz(&nums(&st(&s).to_some(CellCollection::TriggerOrders, true)), 0.)
    );
}

#[test]
fn to_capital_res_1() {
    let s = settings();
    assert_eq!(vec![100., 100.], nums(&st(&s).to_capital()));
}

#[test]
fn to_entry_res_1() {
    let s = settings();
    assert_eq!(vec![SRC_EL_L[1], 0.], nz(&nums(&st(&s).to_entry()), 0.));
}

#[test]
fn to_exit_res_1() {
    let s = settings();
    assert_eq!(vec![0., SRC_EL[1]], nz(&nums(&st(&s).to_exit()), 0.));
}

#[test]
fn to_market_orders_res_1() {
    let s = settings();
    assert_eq!(
        st(&s).to_some(CellCollection::MarketOrders, true),
        st(&s).to_market_orders()
    );
}

#[test]
fn to_limit_orders_res_1() {
    let s = settings();
    assert_eq!(
        nz(&nums(&st(&s).to_some(CellCollection::LimitOrders, true)), 0.),
        nz(&nums(&st(&s).to_limit_orders()), 0.)
    );
}

#[test]
fn to_entry_and_exit_res_1() {
    let s = settings();
    assert_eq!(vec![SRC_EL_L[1], SRC_EL[1]], nums(&st(&s).to_entry_and_exit()));
}

#[test]
fn to_positions_entry_exit_res_1() {
    let s = settings();
    assert_eq!(vec![SRC_EL_L[1], SRC_EL[1]], nums(&st(&s).to_positions_entry_exit()));
}

#[test]
fn to_value_positions_res_1() {
    let s = settings();
    let qty = f64::from_bits(s.capital) * f64::from_bits(s.percent_of_capital);
    assert_eq!(vec![qty; 2], nums(&st(&s).to_value_positions(PositionValue::Qty)));
}

/// Profit and loss of a position of `qty` opened at `avg_open_price`, at `price`.
fn qty_pnl(leverage: f64, qty: f64, avg_open_price: f64, price: f64, position_idx: &str) -> f64 {
    let res = (price - avg_open_price) / avg_open_price * qty * leverage;
    if position_idx == "1" {
        res
    } else {
        -res
    }
}

#[test]
fn to_data_res_1() {
    let s = settings();
    let stat = st(&s);
    let qty = f64::from_bits(s.capital) * f64::from_bits(s.percent_of_capital);
    let lev = f64::from_bits(s.leverage);
    let pnl = vec![qty_pnl(lev, qty, 1.7, SRC_EL_L[1], "1"), qty_pnl(lev, qty, 1.7, SRC_EL[1], "1")];
    let data = stat.to_data(&bits(&[0., 1.]), &bits(&pnl));
    let col = |t: usize, name: &str| -> Vec<f64> {
        nums(&data.0[t].iter().find(|c| c.0 == name).expect("column").1)
    };
    let names: Vec<&str> = data.0[0].iter().map(|c| c.0.as_str()).collect();
    assert_eq!(
        names,
        vec!["time", "open", "high", "low", "close", "volume", "turnover", "capital", "entry", "exit", "pnl", "qty"]
    );
    assert_eq!(col(0, "time"), vec![0., 1.]);
    for (i, name) in ["open", "high", "low", "close", "volume", "turnover"].iter().enumerate() {
        assert_eq!(col(0, name), vec![SRC_EL_L[i + 1], SRC_EL[i + 1]]);
    }
    assert_eq!(col(0, "capital"), nums(&stat.to_capital()));
    assert_eq!(nz(&col(0, "entry"), 0.), vec![SRC_EL_L[1], 0.]);
    assert_eq!(nz(&col(0, "exit"), 0.), vec![0., SRC_EL[1]]);
    assert_eq!(
        nz(&col(0, "pnl"), 0.),
        nz(&nums(&StatCollector::to_all(&[bits(&pnl), stat.to_exit()])), 0.)
    );
    assert_eq!(col(0, "qty"), nums(&stat.to_value_positions(PositionValue::Qty)));
    let names: Vec<&str> = data.0[1].iter().map(|c| c.0.as_str()).collect();
    assert_eq!(names, vec!["time", "positions_entry_exit"]);
    assert_eq!(col(1, "time"), vec![0., 1.]);
    assert_eq!(col(1, "positions_entry_exit"), vec![SRC_EL_L[1], SRC_EL[1]]);
}

fn blank_links(o: &mut Order) {
    o.order_link_id = String::new();
    for tp in o.tp.iter_mut() {
        blank_links(tp);
    }
    for sl in o.sl.iter_mut() {
        blank_links(sl);
    }
}

fn shown(mut o: Order) -> String {
    blank_links(&mut o);
    format!("{:?}", o)
}

/// The trigger prices of the levels for an entry at `price`.
fn stop_prices(tp_or_sl: &str, levels: &[(u64, u64, u64)], price: f64, idx: &str) -> Vec<u64> {
    let sign = if tp_sl_above_entry(tp_or_sl, idx) { 1. } else { -1. };
    levels.iter().map(|l| b(price * (1. + f64::from_bits(l.2) * sign))).collect()
}

#[test]
fn tp_sl_orders_res_1() {
    let s = settings();
    let got = tp_sl_orders(&s.stoploss, &s, "", "buy", &stop_prices("sl", &s.stoploss, 1.1, "1"), &SIGNAL, "1", 2);
    let mut expected = new_order("buy", 0., 0., "market", true, "");
    expected.qty_percent_of_position = b(1.0);
    expected.trigger_by = "last".to_string();
    expected.trigger_price = b(1.1 * 0.5);
    expected.trigger_direction = 2;
    assert_eq!(got.into_iter().map(shown).collect::<Vec<_>>(), vec![shown(expected)]);
}

#[test]
fn order_create_res_1() {
    let s = settings();
    let qty = f64::from_bits(s.amount_of_capital) + f64::from_bits(s.percent_of_capital) * 100.;
    let got = order_create(
        &s,
        &TradeCell::new(b(100.), bits(&SRC_EL_L), bits(&SRC_EL_L1)),
        "",
        b(1.7),
        b(1.75),
        &SIGNAL,
        &bits(&SRC_EL),
        "limit",
        false,
        b(qty),
        &stop_prices("tp", &s.takeprofit, SRC_EL[1], "1"),
        &stop_prices("sl", &s.stoploss, SRC_EL[1], "1"),
    );
    let mut expected = new_order("buy", qty, 1.7, "limit", false, "");
    expected.sl = tp_sl_orders(&s.stoploss, &s, "", "buy", &stop_prices("sl", &s.stoploss, SRC_EL[1], "1"), &SIGNAL, "1", 2);
    expected.trigger_by = s.trigger_by.clone();
    expected.trigger_price = b(1.75);
    expected.trigger_direction = 2;
    assert_eq!(shown(got), shown(expected));
}

#[test]
fn orders_market_extern_res_1() {
    let mut s = settings();
    s.market_entry_orders_signals = vec!["th_1".to_string()];
    let signal = Signal { signal: b(1.), probability: b(1.) };
    let mut vec = vec![];
    orders_market_extern(&mut vec, &s, &vec![("th_1".to_string(), signal)]);
    assert_eq!(
        vec,
        vec![OrderRequest { signal, price_limit: 0, price_trigger: 0, kind: OrderKind::Market, is_reduce: false }]
    );
    let cell = TradeCell::new(b(100.), bits(&SRC_EL_L), bits(&SRC_EL_L1));
    let qty = 100. * f64::from_bits(s.percent_of_capital);
    let got = order_create(
        &s, &cell, "", vec[0].price_limit, vec[0].price_trigger, &vec[0].signal, &bits(&SRC_EL), "market",
        vec[0].is_reduce, b(qty), &stop_prices("tp", &s.takeprofit, SRC_EL[1], "1"),
        &stop_prices("sl", &s.stoploss, SRC_EL[1], "1"),
    );
    let mut expected = new_order("buy", qty, 0., "market", false, "");
    expected.signal = signal;
    expected.sl = tp_sl_orders(&s.stoploss, &s, "", "buy", &stop_prices("sl", &s.stoploss, SRC_EL[1], "1"), &SIGNAL, "1", 2);
    assert_eq!(shown(got), shown(expected));
}

/// One "ordering" filter with threshold 1 that reads the statistic value
/// "value".
fn filters_gw() -> SymbolFiltersGateway<ORDERING> {
    SymbolFiltersGateway::new(vec![(
        ORDERING::new(b(1.), "less".to_string()),
        FilterInputs {
            used_src: vec![],
            used_ind: vec![],
            used_ind_stat_columns: vec![],
            used_ind_stat_values: vec!["value".to_string()],
        },
    )])
}

fn src_columns() -> Vec<Vec<u64>> {
    (0..9).map(|i| bits(&[SRC_EL_L1[i], SRC_EL_L[i], SRC_EL[i]])).collect()
}

#[test]
fn symbol_filters_res_1() {
    assert_eq!(
        filters_gw().symbol_filters(&src_columns(), &vec![], &vec![], &vec![("value".to_string(), b(0.9))]),
        true
    );
}

type Named<T> = Vec<(String, T)>;

fn per_symbol() -> (Named<Vec<Vec<u64>>>, Named<Named<Vec<u64>>>, Named<Named<Vec<u64>>>, Named<Named<u64>>) {
    let names = ["1", "2"];
    (
        names.iter().map(|n| (n.to_string(), vec![])).collect(),
        names.iter().map(|n| (n.to_string(), vec![])).collect(),
        names.iter().map(|n| (n.to_string(), vec![])).collect(),
        names.iter().map(|n| (n.to_string(), vec![("value".to_string(), b(0.9))])).collect(),
    )
}

#[test]
fn symbols_filters_res_1() {
    let (src, ind, ind_columns, ind_values) = per_symbol();
    assert_eq!(vec![true, true], filters_gw().symbols_filters(&src, &ind, &ind_columns, &ind_values));
}

#[test]
fn symbol_filters_added_res_1() {
    assert_eq!(
        filters_gw().symbol_filters_added(
            &src_columns(),
            &vec![],
            &vec![],
            &vec![("value".to_string(), b(0.9))],
            "1",
        ),
        Some("1".to_string())
    );
}

#[test]
fn symbols_filters_added_res_1() {
    let (src, ind, ind_columns, ind_values) = per_symbol();
    assert_eq!(
        vec!["1".to_string(), "2".to_string()],
        filters_gw().symbols_filters_added(&src, &ind, &ind_columns, &ind_values)
    );
}

/// Settings whose amounts are exact in binary: buying takes the full
/// share of capital, commissions are powers of two.
fn settings_exact() -> TradeSettings {
    let mut s = settings();
    s.leverage = b(2.);
    s.commission_market = b(0.0625);
    s.commission_limit = b(0.03125);
    s.market_mult_of_probability_qty = b(1.);
    s.limit_mult_of_probability_qty = b(1.);
    s
}

fn f(x: u64) -> f64 {
    f64::from_bits(x)
}

/// Quantity and commission of an order opening a position.
fn qty_and_commission(s: &TradeSettings, capital: f64, signal: &Signal, type_: &str) -> (f64, f64) {
    let base = capital * f(s.percent_of_capital) + f(s.amount_of_capital);
    let (mult, rate) = if type_ == "market" {
        (f(s.market_mult_of_probability_qty), f(s.commission_market))
    } else {
        (f(s.limit_mult_of_probability_qty), f(s.commission_limit))
    };
    let q = base * (mult * f(signal.probability));
    (q, rate * q * f(s.leverage))
}

/// Applies `order` as a trading step does: the amounts computed here, the
/// position found, opened or changed by the library.
fn apply(s: &TradeSettings, cell: &mut TradeCell, order: &Order) {
    let slot = cell.positions.iter().position(|p| p.position_idx == order.position_idx);
    match slot {
        None => {
            let (q, commission) = qty_and_commission(s, f(cell.capital), &order.signal, &order.type_);
            let capital = f(cell.capital) - (commission + f(order.qty));
            modify_positions(s, cell, order, b(q), order.price, b(capital));
        }
        Some(i) => {
            let p = &cell.positions[i];
            assert_eq!(position_change(s, order, Some(p)), PositionChange::Increase);
            let oq = f(order.qty) + f(p.qty) * f(order.qty_percent_of_position);
            let rate = if order.type_ == "market" { f(s.commission_market) } else { f(s.commission_limit) };
            let capital = f(cell.capital) - oq * rate * f(s.leverage) - f(order.qty);
            let (qty, avg) = (f(p.qty) + f(order.qty), (f(order.price) + f(p.avg_open_price)) / 2.0);
            modify_positions(s, cell, order, b(qty), b(avg), b(capital));
        }
    }
}

fn new_cell(s: &TradeSettings) -> TradeCell {
    TradeCell::new(s.capital, bits(&SRC_EL), bits(&SRC_EL_L))
}

fn shown_cell(c: &TradeCell) -> String {
    format!("{:?}", c)
}

#[test]
fn modify_positions_res_1() {
    let s = settings_exact();
    let price = SRC_EL[1];
    let mut res = new_cell(&s);
    let (qty, commission) = qty_and_commission(&s, f(res.capital), &SIGNAL, "market");
    res.positions.push(Position {
        symbol: String::new(),
        side: "buy".to_string(),
        qty: b(qty),
        leverage: s.leverage,
        avg_open_price: b(price),
        position_idx: "1".to_string(),
        is_active: true,
    });
    res.capital = b(f(res.capital) - (qty + commission));
    let mut cell = new_cell(&s);
    let mut order = new_order("buy", qty, 0., "market", false, "1203");
    order.leverage = s.leverage;
    apply(&s, &mut cell, &order);
    assert_eq!(shown_cell(&cell), shown_cell(&res));
}

#[test]
fn modify_positions_or_not_res_1() {
    let s = settings_exact();
    let price = SRC_EL[1];
    let mut res = new_cell(&s);
    let (qty, commission) = qty_and_commission(&s, f(res.capital), &SIGNAL, "market");
    let (_, commission_limit) = qty_and_commission(&s, f(res.capital), &SIGNAL, "limit");
    res.positions.push(Position {
        symbol: String::new(),
        side: "buy".to_string(),
        qty: b(qty * 2.),
        leverage: s.leverage,
        avg_open_price: b(price),
        position_idx: "1".to_string(),
        is_active: true,
    });
    res.capital = b(f(res.capital) - (qty * 2. + commission + commission_limit));
    let mut cell = new_cell(&s);
    let mut market = new_order("buy", qty, 0., "market", false, "1203");
    market.leverage = s.leverage;
    apply(&s, &mut cell, &market);
    let mut limit = new_order("buy", qty, price, "limit", false, "124241");
    limit.leverage = s.leverage;
    limit.trigger_by = "last".to_string();
    limit.trigger_price = b(price);
    limit.trigger_direction = 1;
    if let Some(executed) = modify_positions_or_not(&s, &mut cell, limit) {
        apply(&s, &mut cell, &executed);
    }
    assert_eq!(shown_cell(&cell), shown_cell(&res));
}

/// Candles of five steps (time, open, high, low, close, ...): the open
/// rises up to the fourth and falls back at the fifth.
fn step_candles() -> Vec<Vec<u64>> {
    vec![
        bits(&[0., 1., 1.5, 0.5, 1.25, 10., 20., 1., 1.]),
        bits(&[1., 2., 2.5, 1.5, 2.5, 11., 21., 2., 2.]),
        bits(&[2., 3., 3.5, 2.5, 3., 12., 22., 3., 3.]),
        bits(&[3., 4., 4.5, 3.5, 3.5, 13., 23., 4., 4.]),
        bits(&[4., 3.5, 4., 3., 3.25, 14., 24., 3.5, 3.5]),
    ]
}

fn step_order(
    s: &TradeSettings,
    qty: f64,
    qty_percent_of_position: f64,
    price: f64,
    trigger_price: f64,
    trigger_direction: usize,
    is_reduce: bool,
    link: &str,
) -> Order {
    Order {
        symbol: "symbol".to_string(),
        side: "buy".to_string(),
        signal: SIGNAL,
        qty: b(qty),
        qty_percent_of_position: b(qty_percent_of_position),
        leverage: s.leverage,
        price: b(price),
        type_: "market".to_string(),
        tp: vec![],
        sl: vec![],
        trigger_by: if trigger_price == 0. { String::new() } else { "last".to_string() },
        trigger_price: b(trigger_price),
        trigger_direction,
        is_reduce,
        order_link_id: link.to_string(),
        position_idx: "1".to_string(),
        is_active: true,
    }
}

/// Reducing market triggers at the opens of the third, fourth and fifth
/// candles.
fn step_triggers(s: &TradeSettings, src: &[Vec<u64>]) -> Vec<Order> {
    vec![
        step_order(s, 0., 0.3, 0., f(src[2][1]), 1, true, "sdlfsdkl2312"),
        step_order(s, 0., 0.8, 0., f(src[3][1]), 1, true, "sdlfsdkl22"),
        step_order(s, 0., 1., 0., f(src[4][1]), 2, true, "wesdlfsdkl2312"),
    ]
}

/// The amounts of an order on the position of its slot: new quantity,
/// average open price and capital.
fn step_amounts(s: &TradeSettings, c: &TradeCell, o: &Order) -> (u64, u64, u64) {
    match c.positions.iter().position(|p| p.position_idx == o.position_idx) {
        None => {
            let (q, commission) = qty_and_commission(s, f(c.capital), &o.signal, &o.type_);
            (b(q), o.price, b(f(c.capital) - (commission + f(o.qty))))
        }
        Some(i) => {
            let p = &c.positions[i];
            let oq = f(o.qty) + f(p.qty) * f(o.qty_percent_of_position);
            let mut capital = f(c.capital) - oq * f(commission_rate(s, o)) * f(s.leverage);
            if position_change(s, o, Some(p)) == PositionChange::Reduce {
                let pnl = qty_pnl(f(s.leverage), oq, f(p.avg_open_price), f(c.src[4]), &p.position_idx);
                capital += oq;
                capital += pnl;
                (b(f(p.qty) - oq), p.avg_open_price, b(capital))
            } else {
                capital -= f(o.qty);
                (b(f(p.qty) + f(o.qty)), b((f(o.price) + f(p.avg_open_price)) / 2.0), b(capital))
            }
        }
    }
}

/// The first position reduced by `pct` of its quantity at `close`.
fn reduce_first(s: &TradeSettings, res: &mut TradeCell, pct: f64, close: f64) {
    let p = &mut res.positions[0];
    let qty_sub = f(p.qty) * pct;
    p.qty = b(f(p.qty) - qty_sub);
    let mut capital = f(res.capital);
    capital -= qty_sub * f(s.commission_market) * f(s.leverage);
    capital += qty_sub;
    capital += qty_pnl(f(s.leverage), qty_sub, f(p.avg_open_price), close, &p.position_idx);
    res.capital = b(capital);
}

#[test]
fn trade_cell_step_res_1() {
    let s = settings_exact();
    let src = step_candles();
    let collectors: Vec<Box<dyn OrderCollector>> = vec![Box::new(CLEAR {})];
    let amounts = |c: &TradeCell, o: &Order| -> (u64, u64, u64) { step_amounts(&s, c, o) };
    let mut cell = TradeCell::new(s.capital, src[1].clone(), src[0].clone());
    let (qty_market, commission_market) = qty_and_commission(&s, f(cell.capital), &SIGNAL, "market");
    let mut entry = step_order(&s, qty_market, 0., f(src[1][1]), 0., 0, false, "sdlfsdkl2312");
    entry.tp = step_triggers(&s, &src).into_iter().take(2).collect();
    entry.sl = step_triggers(&s, &src).into_iter().skip(1).collect();
    cell.step(src[1].clone(), src[0].clone(), vec![entry], &s, &amounts, &collectors, &mut Vec::new(), false);
    let mut res = TradeCell::new(b(f(s.capital) - commission_market - qty_market), src[1].clone(), src[0].clone());
    res.positions.push(Position {
        symbol: "symbol".to_string(),
        side: "buy".to_string(),
        qty: b(qty_market),
        leverage: s.leverage,
        avg_open_price: src[1][1],
        position_idx: "1".to_string(),
        is_active: true,
    });
    // the stop-loss levels are filed first, then the take-profit ones
    let mut triggers = step_triggers(&s, &src);
    let t0 = triggers.remove(0);
    res.trigger_orders = triggers;
    res.trigger_orders.push(t0);
    assert_eq!(shown_cell(&cell), shown_cell(&res));

    let mut records = Vec::new();
    cell.step(src[2].clone(), src[1].clone(), vec![], &s, &amounts, &collectors, &mut records, true);
    assert_eq!(records.len(), 1);
    reduce_first(&s, &mut res, 0.3, f(src[2][4]));
    res.trigger_orders.retain(|o| o.order_link_id != "sdlfsdkl2312");
    res.src = src[2].clone();
    res.src_l = src[1].clone();
    assert_eq!(shown_cell(&cell), shown_cell(&res));

    cell.step(src[3].clone(), src[2].clone(), vec![], &s, &amounts, &collectors, &mut Vec::new(), false);
    res.trigger_orders.retain(|o| o.order_link_id != "sdlfsdkl22");
    reduce_first(&s, &mut res, 0.8, f(src[3][4]));
    res.src = src[3].clone();
    res.src_l = src[2].clone();
    assert_eq!(shown_cell(&cell), shown_cell(&res));

    cell.step(src[4].clone(), src[3].clone(), vec![], &s, &amounts, &collectors, &mut Vec::new(), false);
    res.trigger_orders.retain(|o| o.order_link_id != "wesdlfsdkl2312");
    reduce_first(&s, &mut res, 1., f(src[4][4]));
    res.positions.clear();
    res.src = src[4].clone();
    res.src_l = src[3].clone();
    assert_eq!(shown_cell(&cell), shown_cell(&res));
}
