use bc_constructor::buffer::Buffer;
use bc_constructor::cli::{AdditionFlags, Cli, Paths, Trade};
use bc_constructor::file_wr::{
    data_columns_text, data_values_text, get_backtest_dir, join_strings, parse_data_columns,
    parse_data_values, read_tables, split_str, split_tables, u64_to_decimal,
};
use bc_constructor::indicators::{
    align_rows, get_w_max, last_values, reorder, signal_inputs, used_src_columns, UsedSrc,
};
use bc_constructor::num_bits::{eq, is_nan, is_normal, le, lt, NAN};
use bc_constructor::settings::{
    check_addition_args, check_addition_flags, settings_cli_sync, FilesPathSettings, Settings,
    TradeSettings,
};
use bc_constructor::symbol_filters::{get_src, get_values, FilterInputs, SymbolFiltersGateway, UsedKey, ORDERING};
use bc_constructor::symbols::{backtest_symbols, str_contains, symbols};
use bc_constructor::trade::orders_collector::{OrderCollector, CLEAR};
use bc_constructor::trade::statistics::{NumsExt, PositionValue, StatCollector};
use bc_constructor::trade::step::copy_cell;
use bc_constructor::trade::structs::{copy_order, Order, Position, Signal, TradeCell};
use bc_constructor::trade::utils_cell::{
    commission_rate, deactivate_order, insert_order, modify_positions_or_not, order_create, orders_create,
    position_change, position_closed, side_signal, tp_sl_above_entry, trigger_action, OrderKind,
    OrderRequest, PositionChange, TriggerAction,
};

fn b(x: f64) -> u64 {
    x.to_bits()
}

fn bits(v: &[f64]) -> Vec<u64> {
    v.iter().map(|x| x.to_bits()).collect()
}

fn strs(v: &[&str]) -> Vec<String> {
    v.iter().map(|s| s.to_string()).collect()
}

fn settings() -> TradeSettings {
    TradeSettings {
        category: "linear".to_string(),
        account_type: String::new(),
        klines_qty: 10,
        timeframe: "1".to_string(),
        leverage: b(10.),
        mode_trade: String::new(),
        hedge_mode: false,
        symbols_time_update_ms: 0,
        symbols: vec![],
        symbols_black_list: vec![],
        coins: vec![],
        coins_black_list: vec![],
        slippage_tolerance_type: String::new(),
        time_in_force: String::new(),
        signal_hold: b(0.),
        signal_short: b(-1.),
        signal_long: b(1.),
        commission_market: b(0.00055),
        commission_limit: b(0.0002),
        capital: b(100.),
        percent_of_capital: b(0.01),
        amount_of_capital: b(0.),
        max_entry: 0,
        max_exit: 0,
        market_mult_of_probability_qty: b(0.),
        limit_mult_of_probability_qty: b(0.),
        market_entry_orders_signals: vec![],
        market_exit_orders_signals: vec![],
        trigger_by: String::new(),
        work_in_real_time: false,
        limit_entry_orders_signals: vec![],
        limit_exit_orders_signals: vec![],
        trigger_market_entry_orders_signals: vec![],
        trigger_market_exit_orders_signals: vec![],
        trigger_limit_entry_orders_signals: vec![],
        trigger_limit_exit_orders_signals: vec![],
        takeprofit: vec![],
        stoploss: vec![],
        has_symbols_filter: false,
    }
}

fn no_overrides() -> Trade {
    Trade {
        category: None,
        account_type: None,
        klines_qty: None,
        timeframe: None,
        leverage: None,
        mode_trade: None,
        hedge_mode: None,
        symbols_time_update_ms: None,
        symbols: None,
        symbols_black_list: None,
        coins: None,
        coins_black_list: None,
        slippage_tolerance_type: None,
        time_in_force: None,
        signal_hold: None,
        signal_short: None,
        signal_long: None,
        commission_market: None,
        commission_limit: None,
        capital: None,
        percent_of_capital: None,
        amount_of_capital: None,
        max_entry: None,
        max_exit: None,
        market_mult_of_probability_qty: None,
        limit_mult_of_probability_qty: None,
        market_entry_orders_signals: None,
        market_exit_orders_signals: None,
        trigger_by: None,
        work_in_real_time: None,
    }
}

fn files_path() -> FilesPathSettings {
    FilesPathSettings {
        script_backtest: "bt.py".to_string(),
        script_stat: "stat.py".to_string(),
        backtest: "old_bt".to_string(),
        src_data: "src.bin".to_string(),
        train_model: "old_model".to_string(),
    }
}

fn paths() -> Paths {
    Paths {
        settings: "settings.json".to_string(),
        backtest: "new_bt".to_string(),
        train_model: "new_model".to_string(),
        script_backtest: None,
        script_stat: Some("other_stat.py".to_string()),
        src_data: None,
    }
}

fn order(link: &str, type_: &str, price: f64, trigger_price: f64, direction: usize) -> Order {
    Order {
        symbol: "BTCUSDT".to_string(),
        side: "buy".to_string(),
        signal: Signal { signal: b(1.), probability: b(1.) },
        qty: b(1.),
        qty_percent_of_position: b(0.),
        leverage: b(10.),
        price: b(price),
        type_: type_.to_string(),
        tp: vec![],
        sl: vec![],
        trigger_by: String::new(),
        trigger_price: b(trigger_price),
        trigger_direction: direction,
        is_reduce: false,
        order_link_id: link.to_string(),
        position_idx: "1".to_string(),
        is_active: true,
    }
}

fn position(side: &str, qty: f64, active: bool) -> Position {
    Position {
        symbol: "BTCUSDT".to_string(),
        side: side.to_string(),
        qty: b(qty),
        leverage: b(10.),
        avg_open_price: b(10.),
        position_idx: "1".to_string(),
        is_active: active,
    }
}

/// time, open, high, low, close, volume, turnover, index price, mark price
fn candle(time: f64, open: f64, high: f64, low: f64) -> Vec<u64> {
    bits(&[time, open, high, low, open, 1., 2., open, open])
}

fn links(v: &[Order]) -> Vec<(String, bool)> {
    v.iter().map(|o| (o.order_link_id.clone(), o.is_active)).collect()
}

#[test]
fn backtest_dir_exact() {
    assert_eq!(get_backtest_dir("bt", "BTCUSDT", 1700000000), "bt/1700000000/BTCUSDT");
    assert_eq!(u64_to_decimal(0), "0");
    assert_eq!(u64_to_decimal(u64::MAX), "18446744073709551615");
}

#[test]
fn join_and_split() {
    assert_eq!(join_strings(&strs(&["a", "b", "c"]), ", "), "a, b, c");
    assert_eq!(join_strings(&vec![], " "), "");
    assert_eq!(split_str("a,,b", ','), strs(&["a", "", "b"]));
    assert_eq!(split_str("", ','), strs(&[""]));
    assert_eq!(split_str("abc", ','), strs(&["abc"]));
}

#[test]
fn data_columns_layout() {
    let tables = vec![
        vec![
            ("x".to_string(), strs(&["1", "2"])),
            ("y".to_string(), strs(&["3", "4"])),
        ],
        vec![("z".to_string(), strs(&["5"]))],
    ];
    assert_eq!(data_columns_text(&tables), "x y\n1 3\n2 4\n\n\n\nz\n5\n\n\n\n");
}

#[test]
fn data_file_read_back() {
    let tables = vec![
        vec![
            ("x".to_string(), strs(&["1", "2"])),
            ("y".to_string(), strs(&["3", "4"])),
        ],
        vec![("z".to_string(), strs(&["5"]))],
    ];
    let text = data_columns_text(&tables);
    let pieces = split_tables(&text);
    assert_eq!(pieces, strs(&["x y\n1 3\n2 4", "", "z\n5", "", ""]));
    assert_eq!(parse_data_columns(&pieces[0]), Some(tables[0].clone()));
    assert_eq!(parse_data_columns(&pieces[2]), Some(tables[1].clone()));
    assert_eq!(parse_data_columns(""), Some(vec![(String::new(), vec![])]));
    assert_eq!(parse_data_columns("a b\n1"), None);
    assert_eq!(read_tables(&text), Some(tables.clone()));
    assert_eq!(read_tables("a b\n1\n\n\n\n"), None);
    assert_eq!(split_tables("\n\n\n"), strs(&["", "\n"]));
    assert_eq!(split_tables("a\nb"), strs(&["a\nb"]));
}

#[test]
fn data_values_written_and_read() {
    let pairs = vec![
        ("a".to_string(), "1".to_string()),
        ("b".to_string(), "2.5".to_string()),
    ];
    let text = data_values_text(&pairs);
    assert_eq!(text, "a 1\nb 2.5\n");
    assert_eq!(parse_data_values(&text), Some(pairs.clone()));
    assert_eq!(parse_data_values(text.trim_end_matches('\n')), Some(pairs));
    assert_eq!(parse_data_values(""), Some(vec![]));
    assert_eq!(parse_data_values("a 1\n\n"), None);
    assert_eq!(
        parse_data_values("a 1 x"),
        Some(vec![("a".to_string(), "1".to_string())])
    );
    assert_eq!(parse_data_values("a1"), None);
}

#[test]
fn symbols_selection() {
    let response = strs(&["BTCUSDT", "ETHUSDT", "XRPUSDT", "BTCUSDC", "DOGEUSDT"]);
    assert_eq!(
        symbols(&response, &vec![], &strs(&["XRPUSDT"]), &strs(&["USDT"]), &strs(&["DOGE"])),
        strs(&["BTCUSDT", "ETHUSDT"])
    );
    assert_eq!(
        symbols(&response, &strs(&["BTCUSDC", "ETHUSDT"]), &vec![], &vec![], &vec![]),
        strs(&["ETHUSDT", "BTCUSDC"])
    );
    assert_eq!(symbols(&response, &vec![], &vec![], &vec![], &vec![]), response);
    assert_eq!(
        backtest_symbols(&response, &vec![], &strs(&["USDC"]), &vec![], false),
        strs(&["BTCUSDC"])
    );
    assert!(backtest_symbols(&response, &vec![], &vec![], &vec![], true).is_empty());
    assert!(str_contains("BTCUSDT", "USDT"));
    assert!(!str_contains("BTCUSDT", "ETH"));
    assert!(str_contains("BTCUSDT", ""));
}

#[test]
fn cli_overrides_settings() {
    let mut t = no_overrides();
    t.capital = Some(b(500.));
    t.coins = Some(strs(&["USDT"]));
    t.timeframe = Some("5".to_string());
    let cli = Cli {
        addition_args: None,
        addition_flugs: None,
        trade: Some(t),
        paths: paths(),
        commands: None,
    };
    let r = settings_cli_sync(Settings { trade: settings(), files_path: files_path() }, &cli);
    assert_eq!(r.trade.capital, b(500.));
    assert_eq!(r.trade.coins, strs(&["USDT"]));
    assert_eq!(r.trade.timeframe, "5");
    assert_eq!(r.trade.category, "linear");
    assert_eq!(r.trade.klines_qty, 10);
    assert_eq!(r.trade.leverage, b(10.));
    assert_eq!(r.files_path.script_backtest, "bt.py");
    assert_eq!(r.files_path.script_stat, "other_stat.py");
    assert_eq!(r.files_path.backtest, "new_bt");
    assert_eq!(r.files_path.src_data, "src.bin");
    assert_eq!(r.files_path.train_model, "new_model");
}

#[test]
fn cli_without_trade_keeps_settings() {
    let cli = Cli { addition_args: None, addition_flugs: None, trade: None, paths: paths(), commands: None };
    let r = settings_cli_sync(Settings { trade: settings(), files_path: files_path() }, &cli);
    assert_eq!(r.trade.capital, b(100.));
    assert_eq!(r.trade.timeframe, "1");
    assert_eq!(r.files_path.backtest, "new_bt");
}

#[test]
fn cli_override_twice_is_once() {
    let mut t = no_overrides();
    t.max_entry = Some(3);
    let cli = Cli { addition_args: None, addition_flugs: None, trade: Some(t), paths: paths(), commands: None };
    let once = settings_cli_sync(Settings { trade: settings(), files_path: files_path() }, &cli);
    let twice = settings_cli_sync(
        Settings {
            trade: settings_cli_sync(Settings { trade: settings(), files_path: files_path() }, &cli).trade,
            files_path: files_path(),
        },
        &cli,
    );
    assert_eq!(once.trade.max_entry, 3);
    assert_eq!(twice.trade.max_entry, once.trade.max_entry);
    assert_eq!(twice.trade.capital, once.trade.capital);
}

#[test]
fn addition_flags_and_args() {
    assert_eq!(check_addition_args(&None), Ok(()));
    let a = check_addition_flags(&Some(AdditionFlags { save_data: true, clear: false }));
    assert!(a.save_data && !a.clear_backtests);
    let n = check_addition_flags(&None);
    assert!(!n.save_data && !n.clear_backtests);
}

fn sig(v: f64) -> Signal {
    Signal { signal: b(v), probability: b(0.5) }
}

#[test]
fn order_requests_in_order() {
    let mut s = settings();
    s.market_entry_orders_signals = strs(&["s1"]);
    s.market_exit_orders_signals = strs(&["s2"]);
    s.limit_entry_orders_signals = vec![("s3".to_string(), "p3".to_string())];
    s.trigger_market_exit_orders_signals = vec![("s5".to_string(), "t5".to_string())];
    s.trigger_limit_exit_orders_signals =
        vec![("s4".to_string(), "p4".to_string(), "t4".to_string())];
    let signals = vec![
        ("s1".to_string(), sig(1.)),
        ("s2".to_string(), sig(-1.)),
        ("s3".to_string(), sig(1.)),
        ("s4".to_string(), sig(-1.)),
        ("s5".to_string(), sig(1.)),
        ("s1".to_string(), sig(0.)),
    ];
    let indications = vec![
        ("p3".to_string(), b(9.)),
        ("t5".to_string(), b(11.)),
        ("p4".to_string(), b(12.)),
        ("t4".to_string(), b(13.)),
    ];
    let req = |signal, price_limit, price_trigger, kind, is_reduce| OrderRequest {
        signal,
        price_limit,
        price_trigger,
        kind,
        is_reduce,
    };
    assert_eq!(
        orders_create(&s, &indications, &signals),
        vec![
            req(sig(1.), 0, 0, OrderKind::Market, false),
            req(sig(-1.), 0, 0, OrderKind::Market, true),
            req(sig(1.), b(9.), 0, OrderKind::Limit, false),
            req(sig(1.), 0, b(11.), OrderKind::Market, true),
            req(sig(-1.), b(12.), b(13.), OrderKind::Limit, false),
        ]
    );
    assert!(orders_create(&settings(), &vec![], &vec![]).is_empty());
}

fn link_id_ok(id: &str) -> bool {
    let c: Vec<char> = id.chars().collect();
    c.len() == 36 && c[8] == '-' && c[13] == '-' && c[18] == '-' && c[23] == '-'
}

#[test]
fn order_for_new_and_held_slot() {
    let mut s = settings();
    s.takeprofit = vec![(b(0.5), b(0.), b(0.1))];
    s.stoploss = vec![(b(1.), b(0.), b(0.05))];
    s.trigger_by = "mark".to_string();
    let mut cell = TradeCell::new(b(100.), candle(1., 10., 11., 9.), candle(0., 9., 9., 9.));
    let src = candle(1., 10., 11., 9.);
    let o = order_create(
        &s, &cell, "BTCUSDT", b(0.), b(11.), &sig(1.), &src, "market", false, b(3.),
        &vec![b(11.)], &vec![b(9.5)],
    );
    assert_eq!((o.symbol.as_str(), o.side.as_str(), o.position_idx.as_str()), ("BTCUSDT", "buy", "1"));
    assert_eq!((o.qty, o.qty_percent_of_position, o.leverage, o.price), (b(3.), 0, b(10.), b(0.)));
    assert_eq!((o.type_.as_str(), o.trigger_by.as_str(), o.trigger_price), ("market", "mark", b(11.)));
    assert_eq!(o.trigger_direction, 1);
    assert!(o.is_active && !o.is_reduce && link_id_ok(&o.order_link_id));
    assert_eq!(o.tp.len(), 1);
    let tp = &o.tp[0];
    assert_eq!((tp.qty, tp.qty_percent_of_position, tp.trigger_price), (b(0.), b(0.5), b(11.)));
    assert_eq!((tp.trigger_direction, tp.type_.as_str(), tp.trigger_by.as_str()), (1, "market", "last"));
    assert!(tp.is_reduce && tp.is_active && tp.tp.is_empty() && link_id_ok(&tp.order_link_id));
    assert_eq!((tp.side.as_str(), tp.position_idx.as_str()), ("buy", "1"));
    assert_ne!(tp.order_link_id, o.order_link_id);
    assert_eq!(o.sl.len(), 1);
    assert_eq!((o.sl[0].trigger_direction, o.sl[0].trigger_price, o.sl[0].qty_percent_of_position), (2, b(9.5), b(1.)));

    let short = order_create(
        &s, &cell, "BTCUSDT", b(9.), b(8.), &sig(-1.), &src, "limit", true, b(2.),
        &vec![b(9.)], &vec![b(10.5)],
    );
    assert_eq!((short.side.as_str(), short.position_idx.as_str(), short.trigger_direction), ("sell", "2", 2));
    assert_eq!(short.tp.len(), 1);

    cell.positions.push(position("buy", 1., true));
    let held = order_create(
        &s, &cell, "BTCUSDT", b(0.), b(0.), &sig(1.), &src, "market", false, b(3.),
        &vec![b(11.)], &vec![b(9.5)],
    );
    assert!(held.tp.is_empty() && held.sl.is_empty());
    assert_eq!((held.trigger_direction, held.trigger_by.as_str()), (0, ""));
}

#[test]
fn insert_replaces_by_link_id() {
    let mut v = vec![];
    insert_order(&mut v, order("a", "limit", 9., 0., 0));
    insert_order(&mut v, order("b", "limit", 8., 0., 0));
    insert_order(&mut v, order("a", "limit", 7., 0., 0));
    assert_eq!(links(&v), vec![("a".to_string(), true), ("b".to_string(), true)]);
    assert_eq!(v[0].price, b(7.));
    deactivate_order(&mut v, "b");
    assert_eq!(links(&v), vec![("a".to_string(), true), ("b".to_string(), false)]);
    deactivate_order(&mut v, "c");
    assert_eq!(links(&v), vec![("a".to_string(), true), ("b".to_string(), false)]);
}

#[test]
fn trigger_checks() {
    let s = settings();
    let src = candle(1., 12., 12., 10.);
    let src_l = candle(0., 10., 10., 9.);
    // a market order waiting for the price to rise through 11
    assert_eq!(trigger_action(&s, &src, &src_l, &order("m", "market", 0., 11., 1)), TriggerAction::Execute);
    // waiting for a fall: not fired
    assert_eq!(trigger_action(&s, &src, &src_l, &order("m", "market", 0., 11., 2)), TriggerAction::NotFired);
    // trigger price out of reach
    assert_eq!(trigger_action(&s, &src, &src_l, &order("m", "market", 0., 20., 1)), TriggerAction::NotFired);
    // a limit order whose price differs from its trigger price is placed
    assert_eq!(trigger_action(&s, &src, &src_l, &order("l", "limit", 11.5, 11., 1)), TriggerAction::PlaceLimit);
    // a limit order at its trigger price is executed
    assert_eq!(trigger_action(&s, &src, &src_l, &order("l", "limit", 11., 11., 1)), TriggerAction::Execute);
    // a fired order that is neither market nor limit is dropped
    assert_eq!(trigger_action(&s, &src, &src_l, &order("x", "other", 11.5, 11., 1)), TriggerAction::Drop);
}

#[test]
fn pending_order_step() {
    let s = settings();
    let mut cell = TradeCell::new(b(100.), candle(1., 12., 12., 10.), candle(0., 10., 10., 9.));
    cell.trigger_orders.push(order("m", "market", 0., 11., 1));
    cell.trigger_orders.push(order("l", "limit", 11.5, 11., 1));
    cell.trigger_orders.push(order("n", "market", 0., 20., 1));

    let r = modify_positions_or_not(&s, &mut cell, order("m", "market", 0., 11., 1));
    assert_eq!(r.map(|o| o.order_link_id), Some("m".to_string()));
    assert!(!cell.trigger_orders[0].is_active);

    let r = modify_positions_or_not(&s, &mut cell, order("l", "limit", 11.5, 11., 1));
    assert!(r.is_none());
    assert_eq!(links(&cell.limit_orders), vec![("l".to_string(), true)]);
    assert!(!cell.trigger_orders[1].is_active);

    let r = modify_positions_or_not(&s, &mut cell, order("n", "market", 0., 20., 1));
    assert!(r.is_none());
    assert!(cell.trigger_orders[2].is_active);
    assert_eq!(cell.limit_orders.len(), 1);
    assert_eq!(cell.capital, b(100.));
}

#[test]
fn finish_step_keeps_active() {
    let mut cell = TradeCell::new(b(100.), candle(1., 12., 12., 10.), candle(0., 10., 10., 9.));
    cell.market_orders.push(order("m", "market", 0., 0., 0));
    cell.limit_orders.push(order("a", "limit", 1., 0., 0));
    let mut inactive = order("b", "limit", 1., 0., 0);
    inactive.is_active = false;
    cell.limit_orders.push(inactive);
    cell.positions.push(position("buy", 1., false));
    cell.positions.push(position("sell", 2., true));
    cell.finish_step();
    assert!(cell.market_orders.is_empty());
    assert_eq!(links(&cell.limit_orders), vec![("a".to_string(), true)]);
    assert_eq!(cell.positions.len(), 1);
    assert_eq!(cell.positions[0].side, "sell");
    cell.finish_step();
    assert_eq!(links(&cell.limit_orders), vec![("a".to_string(), true)]);
    assert_eq!(cell.positions.len(), 1);
}

#[test]
fn clear_collector() {
    let mut orders = vec![order("a", "limit", 1., 0., 0)];
    CLEAR {}.collect_orders(&mut orders, &vec![position("buy", 1., true)]);
    assert_eq!(orders.len(), 1);
    CLEAR {}.collect_orders(&mut orders, &vec![]);
    assert!(orders.is_empty());
}

#[test]
fn order_and_position_rules() {
    let mut s = settings();
    let o = order("a", "market", 0., 0., 0);
    assert_eq!(commission_rate(&s, &o), b(0.00055));
    assert_eq!(commission_rate(&s, &order("a", "limit", 1., 0., 0)), b(0.0002));
    assert!(o.is_market() && !o.is_limit() && !o.is_trigger());
    assert!(order("a", "market", 0., 5., 1).is_trigger());
    assert_eq!(position_change(&s, &o, None), PositionChange::Open);
    assert_eq!(position_change(&s, &o, Some(&position("buy", 1., true))), PositionChange::Increase);
    assert_eq!(position_change(&s, &o, Some(&position("sell", 1., true))), PositionChange::Reduce);
    s.hedge_mode = true;
    assert_eq!(position_change(&s, &o, Some(&position("sell", 1., true))), PositionChange::Increase);
    let mut reducing = order("a", "market", 0., 0., 0);
    reducing.is_reduce = true;
    assert_eq!(position_change(&s, &reducing, Some(&position("buy", 1., true))), PositionChange::Reduce);
    assert!(position_closed(b(0.)));
    assert!(position_closed(b(-0.5)));
    assert!(!position_closed(b(0.5)));
    assert_eq!(side_signal(&s, b(1.)), "buy");
    assert_eq!(side_signal(&s, b(-1.)), "sell");
    assert_eq!(side_signal(&s, b(0.)), "");
    assert!(tp_sl_above_entry("tp", "1"));
    assert!(tp_sl_above_entry("sl", "2"));
    assert!(!tp_sl_above_entry("sl", "1"));
    assert!(!tp_sl_above_entry("tp", "2"));
}

#[test]
fn float_bits_compare() {
    assert!(eq(b(0.), b(-0.)));
    assert!(!eq(NAN, NAN));
    assert!(lt(b(-2.), b(1.)));
    assert!(lt(b(-2.), b(-1.)));
    assert!(!lt(b(1.), NAN) && !lt(NAN, b(1.)));
    assert!(le(b(1.), b(1.)));
    assert!(is_nan(NAN) && !is_nan(b(1.)));
    assert!(is_normal(b(1.)) && !is_normal(b(0.)) && !is_normal(NAN) && !is_normal(b(f64::INFINITY)));
    assert!(!is_normal(b(f64::MIN_POSITIVE / 2.)));
}

fn inputs(values: &[&str]) -> FilterInputs {
    FilterInputs { used_src: vec![], used_ind: vec![], used_ind_stat_columns: vec![], used_ind_stat_values: strs(values) }
}

#[test]
fn filters_verdicts() {
    let gw = SymbolFiltersGateway::new(vec![
        (ORDERING::new(b(1.), "less".to_string()), inputs(&["a"])),
        (ORDERING::new(b(2.), "equal".to_string()), inputs(&["b", "a"])),
    ]);
    let values = vec![("a".to_string(), b(0.5)), ("b".to_string(), b(2.))];
    assert!(gw.symbol_filters(&vec![], &vec![], &vec![], &values));
    assert_eq!(gw.symbol_filters_added(&vec![], &vec![], &vec![], &values, "X"), Some("X".to_string()));
    let values = vec![("a".to_string(), b(1.5)), ("b".to_string(), b(2.))];
    assert!(!gw.symbol_filters(&vec![], &vec![], &vec![], &values));
    // the second filter is not run once the first rejects: its value may be missing
    assert!(!gw.symbol_filters(&vec![], &vec![], &vec![], &vec![("a".to_string(), b(1.5))]));
    assert_eq!(gw.symbol_filters_added(&vec![], &vec![], &vec![], &values, "X"), None);
    let all = SymbolFiltersGateway::<ORDERING>::new(vec![]);
    assert!(all.symbol_filters(&vec![], &vec![], &vec![], &vec![]));
}

#[test]
fn filter_inputs() {
    let src = vec![vec![1u64, 2, 3, 4], vec![10, 20, 30, 40]];
    let ind = vec![("rsi".to_string(), vec![5u64, 6, 7]), ("rma".to_string(), vec![8u64, 9, 10])];
    let s = FilterInputs {
        used_src: vec![UsedSrc { index: 1, sub_from_last_i: 1 }],
        used_ind: vec![UsedKey { key: "rma".to_string(), sub_from_last_i: 0 }],
        used_ind_stat_columns: vec![],
        used_ind_stat_values: strs(&["x", "y"]),
    };
    // price column 1 cut to the first column's length less one: 10 20 30; rma: 8 9 10
    assert_eq!(get_src(&s, &src, &ind, &vec![]), vec![vec![10, 8], vec![20, 9], vec![30, 10]]);
    let values = vec![("y".to_string(), 2u64), ("x".to_string(), 1u64)];
    assert_eq!(get_values(&s, &values), vec![1, 2]);
    assert!(get_src(&inputs(&[]), &src, &ind, &vec![]).is_empty());
}

#[test]
fn indicator_inputs() {
    let src = vec![vec![1u64, 2, 3, 4], vec![10, 20, 30], vec![7]];
    let used = vec![UsedSrc { index: 1, sub_from_last_i: 1 }, UsedSrc { index: 0, sub_from_last_i: 0 }];
    assert_eq!(used_src_columns(&used, &src), vec![vec![10, 20], vec![1, 2, 3, 4]]);
    assert_eq!(last_values(&used, &src), vec![20, 4]);
    assert_eq!(reorder(vec![5, 6, 7], &vec![2, 0]), vec![7, 5]);
    assert_eq!(reorder(vec![5, 6, 7], &vec![]), vec![5, 6, 7]);
    assert_eq!(align_rows(&src), vec![vec![4, 30, 7]]);
    assert_eq!(align_rows(&vec![vec![1u64, 2, 3], vec![10, 20]]), vec![vec![2, 10], vec![3, 20]]);
    assert!(align_rows::<u64>(&vec![]).is_empty());
    assert_eq!(get_w_max(&vec![3, 14, 7]), 14);
}

#[test]
fn signal_inputs_assembly() {
    let src = vec![vec![1u64, 2, 3, 4], vec![10, 20, 30], vec![7]];
    let used = vec![UsedSrc { index: 1, sub_from_last_i: 1 }, UsedSrc { index: 0, sub_from_last_i: 0 }];
    let used_ind = vec!["rsi".to_string(), "ema".to_string()];
    let indications = vec![("ema".to_string(), 5u64), ("rsi".to_string(), 6u64), ("ema".to_string(), 9u64)];
    // price values 20 4, then the indications by name: rsi 6, ema 5
    assert_eq!(signal_inputs(&used, &used_ind, &vec![], &vec![], &src, &indications), vec![20, 4, 6, 5]);
    assert_eq!(signal_inputs(&used, &used_ind, &vec![3, 0, 2], &vec![], &src, &indications), vec![5, 20, 6]);
    assert_eq!(signal_inputs(&used, &used_ind, &vec![3, 0, 2], &vec![1, 2], &src, &indications), vec![20, 6]);
    assert_eq!(signal_inputs(&vec![], &vec![], &vec![], &vec![], &src, &vec![]), Vec::<u64>::new());
}

#[test]
fn buffer_transpose_and_window() {
    let bf = Buffer::new(vec![vec![1, 2, 3], vec![4, 5, 6]]);
    assert_eq!(bf.transpose().0, vec![vec![1, 4], vec![2, 5], vec![3, 6]]);
    let mut w = Buffer::new(vec![vec![1], vec![2], vec![3]]);
    w.update(vec![4]);
    assert_eq!(w.len(), 3);
    assert_eq!(w.0, vec![vec![2], vec![3], vec![4]]);
    w.update_extend(&[vec![5]]);
    assert_eq!(w.0, vec![vec![3], vec![4], vec![5]]);
    assert_eq!(w.first(), Some(&vec![3]));
    assert_eq!(w.last(), Some(&vec![5]));
    w.extend(vec![vec![6]]);
    assert_eq!(w.len(), 4);
}

#[test]
fn statistics_series() {
    let s = settings();
    let mut st = StatCollector::new("BTCUSDT".to_string(), &s);
    let mut c0 = TradeCell::new(b(100.), candle(1., 10., 11., 9.), candle(0., 9., 9., 9.));
    c0.market_orders.push(order("m", "market", 0., 0., 0));
    c0.positions.push(position("buy", 1., true));
    st.push(c0);
    let mut c1 = TradeCell::new(b(101.), candle(2., 12., 13., 11.), candle(1., 10., 11., 9.));
    c1.positions.push(position("buy", 1., false));
    st.push(c1);
    let c2 = TradeCell::new(b(102.), candle(3., 13., 14., 12.), candle(2., 12., 13., 11.));
    st.push(c2);

    assert_eq!(st.to_capital(), bits(&[100., 101., 102.]));
    let entry = st.to_entry();
    assert_eq!(entry[0], b(10.));
    assert!(f64::from_bits(entry[1]).is_nan() && f64::from_bits(entry[2]).is_nan());
    let exit = st.to_exit();
    assert!(f64::from_bits(exit[0]).is_nan());
    assert_eq!(exit[1], b(12.));
    assert!(f64::from_bits(exit[2]).is_nan());
    let ee = st.to_entry_and_exit();
    assert_eq!((ee[0], ee[1]), (b(10.), b(12.)));
    let pee = st.to_positions_entry_exit();
    assert_eq!((pee[0], pee[1]), (b(10.), b(12.)));
    assert!(f64::from_bits(pee[2]).is_nan());
    let qty = st.to_value_positions(PositionValue::Qty);
    assert_eq!((qty[0], qty[1]), (b(1.), b(1.)));
    assert!(f64::from_bits(qty[2]).is_nan());

    let data = st.to_data(&bits(&[0., 1., 2.]), &bits(&[0.5, 0.7, 0.9]));
    assert_eq!(data.0.len(), 2);
    let names: Vec<&str> = data.0[0].iter().map(|c| c.0.as_str()).collect();
    assert_eq!(
        names,
        vec!["time", "open", "high", "low", "close", "volume", "turnover", "capital", "entry", "exit", "pnl", "qty"]
    );
    let pnl = &data.0[0][10].1;
    assert!(f64::from_bits(pnl[0]).is_nan());
    assert_eq!(pnl[1], b(0.7));
    assert_eq!(data.0[1][0].1, bits(&[0., 1.]));
    assert_eq!(data.0[1][1].1, bits(&[10., 12.]));
    assert_eq!(data.to_vec()[1], vec![bits(&[0., 1.]), bits(&[10., 12.])]);
    assert_eq!(
        st.to_positions_entry_exit().del_nan(1),
        vec![(0usize, b(10.)), (1usize, b(12.))]
    );
}

#[test]
fn plot_script_names_symbol() {
    let script = bc_constructor::visual::bt_script("BTCUSDT");
    assert!(script.starts_with("\n    set datafile separator whitespace\n"));
    assert!(script.contains("with candlesticks linecolor rgb \"#7D2AD4\" title \"BTCUSDT\", \\\n"));
    assert!(script.ends_with("with labels boxed offset 0,2 title \"qty\"\n    "));
    assert_eq!(script.matches("BTCUSDT").count(), 1);
}

#[test]
fn filing_new_orders() {
    let mut cell = TradeCell::new(b(100.), vec![], vec![]);
    cell.limit_orders.push(order("old", "limit", 1., 0., 0));
    let mut entry = order("e", "market", 0., 0., 0);
    entry.tp.push(order("tp", "market", 0., 12., 1));
    entry.sl.push(order("sl", "market", 0., 8., 2));
    let orders = vec![
        entry,
        order("l", "limit", 9., 0., 0),
        order("t", "market", 0., 11., 1),
        order("old", "limit", 2., 0., 0),
    ];
    cell.file_orders(candle(1., 10., 11., 9.), candle(0., 9., 9., 9.), orders);
    assert_eq!(cell.src, candle(1., 10., 11., 9.));
    assert_eq!(links(&cell.trigger_orders), vec![("sl".to_string(), true), ("tp".to_string(), true), ("t".to_string(), true)]);
    assert_eq!(links(&cell.limit_orders), vec![("old".to_string(), true), ("l".to_string(), true)]);
    assert_eq!(cell.limit_orders[0].price, b(2.));
    assert_eq!(links(&cell.market_orders), vec![("e".to_string(), true)]);
    assert_eq!(cell.market_orders[0].tp.len(), 1);
    assert_eq!(cell.capital, b(100.));
    let c = copy_order(&cell.market_orders[0]);
    assert_eq!((c.order_link_id.as_str(), c.tp[0].order_link_id.as_str(), c.sl[0].trigger_price), ("e", "tp", b(8.)));
}

#[test]
fn checking_pending_orders() {
    let s = settings();
    let mut cell = TradeCell::new(b(100.), candle(1., 12., 12., 10.), candle(0., 10., 10., 9.));
    cell.trigger_orders.push(order("m", "market", 0., 11., 1));
    cell.trigger_orders.push(order("l", "limit", 11.5, 11., 1));
    cell.trigger_orders.push(order("n", "market", 0., 20., 1));
    let fired = cell.check_trigger_orders(&s);
    assert_eq!(fired.iter().map(|o| o.order_link_id.as_str()).collect::<Vec<_>>(), vec!["m"]);
    assert_eq!(
        links(&cell.trigger_orders),
        vec![("m".to_string(), false), ("l".to_string(), false), ("n".to_string(), true)]
    );
    assert_eq!(links(&cell.limit_orders), vec![("l".to_string(), true)]);
    // the placed limit order fires again on its trigger, and is placed again
    let fired = cell.check_limit_orders(&s);
    assert!(fired.is_empty());
    assert_eq!(links(&cell.limit_orders), vec![("l".to_string(), true)]);
    let copy = copy_cell(&cell);
    assert_eq!(links(&copy.trigger_orders), links(&cell.trigger_orders));
    assert_eq!((copy.capital, copy.src.clone()), (cell.capital, cell.src.clone()));
}
