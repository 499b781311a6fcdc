//! Settings as plain values, their override by the command line, and the
//! checks of the extra command-line flags and arguments.

use vstd::prelude::*;

use crate::cli::{AdditionArgs, AdditionFlags, Cli, Paths, Trade};
use crate::symbols::strings_view;

verus! {

/// Trade settings. Amounts, prices, ratios and signal values are IEEE-754
/// binary64 bit patterns; the signal lists name signals and indications
/// (entry, exit, limit-price and trigger-price keys).
pub struct TradeSettings {
    pub category: String,
    pub account_type: String,
    pub klines_qty: usize,
    pub timeframe: String,
    pub leverage: u64,
    pub mode_trade: String,
    pub hedge_mode: bool,
    pub symbols_time_update_ms: usize,
    pub symbols: Vec<String>,
    pub symbols_black_list: Vec<String>,
    pub coins: Vec<String>,
    pub coins_black_list: Vec<String>,
    pub slippage_tolerance_type: String,
    pub time_in_force: String,
    pub signal_hold: u64,
    pub signal_short: u64,
    pub signal_long: u64,
    pub commission_market: u64,
    pub commission_limit: u64,
    pub capital: u64,
    pub percent_of_capital: u64,
    pub amount_of_capital: u64,
    pub max_entry: usize,
    pub max_exit: usize,
    pub market_mult_of_probability_qty: u64,
    pub limit_mult_of_probability_qty: u64,
    pub market_entry_orders_signals: Vec<String>,
    pub market_exit_orders_signals: Vec<String>,
    pub trigger_by: String,
    pub work_in_real_time: bool,
    pub limit_entry_orders_signals: Vec<(String, String)>,
    pub limit_exit_orders_signals: Vec<(String, String)>,
    pub trigger_market_entry_orders_signals: Vec<(String, String)>,
    pub trigger_market_exit_orders_signals: Vec<(String, String)>,
    pub trigger_limit_entry_orders_signals: Vec<(String, String, String)>,
    pub trigger_limit_exit_orders_signals: Vec<(String, String, String)>,
    pub takeprofit: Vec<(u64, u64, u64)>,
    pub stoploss: Vec<(u64, u64, u64)>,
    pub has_symbols_filter: bool,
}

/// Locations of the files that a run reads and writes.
pub struct FilesPathSettings {
    pub script_backtest: String,
    pub script_stat: String,
    pub backtest: String,
    pub src_data: String,
    pub train_model: String,
}

/// The parts of the settings that the command line can override.
pub struct Settings {
    pub trade: TradeSettings,
    pub files_path: FilesPathSettings,
}

/// The value an override leaves: the given one, else the configured one.
pub open spec fn pick<T>(o: Option<T>, d: T) -> T {
    match o {
        Some(v) => v,
        None => d,
    }
}

pub open spec fn pick_str(o: Option<String>, d: Seq<char>) -> Seq<char> {
    match o {
        Some(v) => v@,
        None => d,
    }
}

pub open spec fn pick_strs(o: Option<Vec<String>>, d: Seq<Seq<char>>) -> Seq<Seq<char>> {
    match o {
        Some(v) => strings_view(v@),
        None => d,
    }
}

/// Every overridable field of `r` is the override of `t`, where given, and
/// that of `old` otherwise.
pub open spec fn trade_overridden(r: TradeSettings, old: TradeSettings, t: Trade) -> bool {
    &&& r.category@ == pick_str(t.category, old.category@)
    &&& r.account_type@ == pick_str(t.account_type, old.account_type@)
    &&& r.klines_qty == pick(t.klines_qty, old.klines_qty)
    &&& r.timeframe@ == pick_str(t.timeframe, old.timeframe@)
    &&& r.leverage == pick(t.leverage, old.leverage)
    &&& r.mode_trade@ == pick_str(t.mode_trade, old.mode_trade@)
    &&& r.hedge_mode == pick(t.hedge_mode, old.hedge_mode)
    &&& r.symbols_time_update_ms == pick(t.symbols_time_update_ms, old.symbols_time_update_ms)
    &&& strings_view(r.symbols@) == pick_strs(t.symbols, strings_view(old.symbols@))
    &&& strings_view(r.symbols_black_list@) == pick_strs(t.symbols_black_list, strings_view(old.symbols_black_list@))
    &&& strings_view(r.coins@) == pick_strs(t.coins, strings_view(old.coins@))
    &&& strings_view(r.coins_black_list@) == pick_strs(t.coins_black_list, strings_view(old.coins_black_list@))
    &&& r.slippage_tolerance_type@ == pick_str(t.slippage_tolerance_type, old.slippage_tolerance_type@)
    &&& r.time_in_force@ == pick_str(t.time_in_force, old.time_in_force@)
    &&& r.signal_hold == pick(t.signal_hold, old.signal_hold)
    &&& r.signal_short == pick(t.signal_short, old.signal_short)
    &&& r.signal_long == pick(t.signal_long, old.signal_long)
    &&& r.commission_market == pick(t.commission_market, old.commission_market)
    &&& r.commission_limit == pick(t.commission_limit, old.commission_limit)
    &&& r.capital == pick(t.capital, old.capital)
    &&& r.percent_of_capital == pick(t.percent_of_capital, old.percent_of_capital)
    &&& r.amount_of_capital == pick(t.amount_of_capital, old.amount_of_capital)
    &&& r.max_entry == pick(t.max_entry, old.max_entry)
    &&& r.max_exit == pick(t.max_exit, old.max_exit)
    &&& r.market_mult_of_probability_qty == pick(t.market_mult_of_probability_qty, old.market_mult_of_probability_qty)
    &&& r.limit_mult_of_probability_qty == pick(t.limit_mult_of_probability_qty, old.limit_mult_of_probability_qty)
    &&& strings_view(r.market_entry_orders_signals@) == pick_strs(t.market_entry_orders_signals, strings_view(old.market_entry_orders_signals@))
    &&& strings_view(r.market_exit_orders_signals@) == pick_strs(t.market_exit_orders_signals, strings_view(old.market_exit_orders_signals@))
    &&& r.trigger_by@ == pick_str(t.trigger_by, old.trigger_by@)
    &&& r.work_in_real_time == pick(t.work_in_real_time, old.work_in_real_time)
}

/// Every overridable field of `r` has the value of that of `old`.
pub open spec fn trade_kept(r: TradeSettings, old: TradeSettings) -> bool {
    &&& r.category@ == old.category@
    &&& r.account_type@ == old.account_type@
    &&& r.klines_qty == old.klines_qty
    &&& r.timeframe@ == old.timeframe@
    &&& r.leverage == old.leverage
    &&& r.mode_trade@ == old.mode_trade@
    &&& r.hedge_mode == old.hedge_mode
    &&& r.symbols_time_update_ms == old.symbols_time_update_ms
    &&& strings_view(r.symbols@) == strings_view(old.symbols@)
    &&& strings_view(r.symbols_black_list@) == strings_view(old.symbols_black_list@)
    &&& strings_view(r.coins@) == strings_view(old.coins@)
    &&& strings_view(r.coins_black_list@) == strings_view(old.coins_black_list@)
    &&& r.slippage_tolerance_type@ == old.slippage_tolerance_type@
    &&& r.time_in_force@ == old.time_in_force@
    &&& r.signal_hold == old.signal_hold
    &&& r.signal_short == old.signal_short
    &&& r.signal_long == old.signal_long
    &&& r.commission_market == old.commission_market
    &&& r.commission_limit == old.commission_limit
    &&& r.capital == old.capital
    &&& r.percent_of_capital == old.percent_of_capital
    &&& r.amount_of_capital == old.amount_of_capital
    &&& r.max_entry == old.max_entry
    &&& r.max_exit == old.max_exit
    &&& r.market_mult_of_probability_qty == old.market_mult_of_probability_qty
    &&& r.limit_mult_of_probability_qty == old.limit_mult_of_probability_qty
    &&& strings_view(r.market_entry_orders_signals@) == strings_view(old.market_entry_orders_signals@)
    &&& strings_view(r.market_exit_orders_signals@) == strings_view(old.market_exit_orders_signals@)
    &&& r.trigger_by@ == old.trigger_by@
    &&& r.work_in_real_time == old.work_in_real_time
}

/// The fields that the command line never touches are moved over unchanged.
pub open spec fn trade_rest_unchanged(r: TradeSettings, old: TradeSettings) -> bool {
    &&& r.limit_entry_orders_signals == old.limit_entry_orders_signals
    &&& r.limit_exit_orders_signals == old.limit_exit_orders_signals
    &&& r.trigger_market_entry_orders_signals == old.trigger_market_entry_orders_signals
    &&& r.trigger_market_exit_orders_signals == old.trigger_market_exit_orders_signals
    &&& r.trigger_limit_entry_orders_signals == old.trigger_limit_entry_orders_signals
    &&& r.trigger_limit_exit_orders_signals == old.trigger_limit_exit_orders_signals
    &&& r.takeprofit == old.takeprofit
    &&& r.stoploss == old.stoploss
    &&& r.has_symbols_filter == old.has_symbols_filter
}

/// Copies a list of strings.
pub fn clone_strings(v: &Vec<String>) -> (r: Vec<String>)
    ensures
        strings_view(r@) == strings_view(v@),
{
    let mut r: Vec<String> = Vec::new();
    let mut i: usize = 0;
    while i < v.len()
        invariant
            i <= v.len(),
            strings_view(r@) == strings_view(v@.subrange(0, i as int)),
        decreases v.len() - i,
    {
        let ghost before = r@;
        r.push(v[i].clone());
        assert(strings_view(r@) =~= strings_view(before).push(v@[i as int]@));
        i = i + 1;
        assert(strings_view(v@.subrange(0, i as int)) =~= strings_view(v@.subrange(0, i - 1)).push(v@[i - 1]@));
    }
    assert(v@.subrange(0, i as int) =~= v@);
    r
}

fn or_string(o: &Option<String>, d: String) -> (r: String)
    ensures
        r@ == pick_str(*o, d@),
{
    match o {
        Some(v) => v.clone(),
        None => d,
    }
}

fn or_strings(o: &Option<Vec<String>>, d: Vec<String>) -> (r: Vec<String>)
    ensures
        strings_view(r@) == pick_strs(*o, strings_view(d@)),
{
    match o {
        Some(v) => clone_strings(v),
        None => d,
    }
}

fn or_copy<T: Copy>(o: &Option<T>, d: T) -> (r: T)
    ensures
        r == pick(*o, d),
{
    match o {
        Some(v) => *v,
        None => d,
    }
}

/// Applies the trade overrides of `t` to `s`.
pub fn trade_sync(s: TradeSettings, t: &Trade) -> (r: TradeSettings)
    ensures
        trade_overridden(r, s, *t),
        trade_rest_unchanged(r, s),
{
    let mut s = s;
    let ghost old_s = s;
    s.category = or_string(&t.category, s.category);
    s.account_type = or_string(&t.account_type, s.account_type);
    s.klines_qty = or_copy(&t.klines_qty, s.klines_qty);
    s.timeframe = or_string(&t.timeframe, s.timeframe);
    s.leverage = or_copy(&t.leverage, s.leverage);
    s.mode_trade = or_string(&t.mode_trade, s.mode_trade);
    s.hedge_mode = or_copy(&t.hedge_mode, s.hedge_mode);
    s.symbols_time_update_ms = or_copy(&t.symbols_time_update_ms, s.symbols_time_update_ms);
    s.symbols = or_strings(&t.symbols, s.symbols);
    s.symbols_black_list = or_strings(&t.symbols_black_list, s.symbols_black_list);
    s.coins = or_strings(&t.coins, s.coins);
    s.coins_black_list = or_strings(&t.coins_black_list, s.coins_black_list);
    s.slippage_tolerance_type = or_string(&t.slippage_tolerance_type, s.slippage_tolerance_type);
    s.time_in_force = or_string(&t.time_in_force, s.time_in_force);
    s.signal_hold = or_copy(&t.signal_hold, s.signal_hold);
    s.signal_short = or_copy(&t.signal_short, s.signal_short);
    s.signal_long = or_copy(&t.signal_long, s.signal_long);
    s.commission_market = or_copy(&t.commission_market, s.commission_market);
    s.commission_limit = or_copy(&t.commission_limit, s.commission_limit);
    s.capital = or_copy(&t.capital, s.capital);
    s.percent_of_capital = or_copy(&t.percent_of_capital, s.percent_of_capital);
    s.amount_of_capital = or_copy(&t.amount_of_capital, s.amount_of_capital);
    s.max_entry = or_copy(&t.max_entry, s.max_entry);
    s.max_exit = or_copy(&t.max_exit, s.max_exit);
    s.market_mult_of_probability_qty = or_copy(&t.market_mult_of_probability_qty, s.market_mult_of_probability_qty);
    s.limit_mult_of_probability_qty = or_copy(&t.limit_mult_of_probability_qty, s.limit_mult_of_probability_qty);
    s.market_entry_orders_signals = or_strings(&t.market_entry_orders_signals, s.market_entry_orders_signals);
    s.market_exit_orders_signals = or_strings(&t.market_exit_orders_signals, s.market_exit_orders_signals);
    s.trigger_by = or_string(&t.trigger_by, s.trigger_by);
    s.work_in_real_time = or_copy(&t.work_in_real_time, s.work_in_real_time);
    s
}

/// Applies the command line to the settings: each trade override that is
/// given replaces the configured value; the script and source-data paths
/// are replaced where given; the back-test and train-model directories are
/// always those of the command line. Everything else is kept.
pub fn settings_cli_sync(settings: Settings, cli: &Cli) -> (r: Settings)
    ensures
        match cli.trade {
            Some(t) => trade_overridden(r.trade, settings.trade, t),
            None => trade_kept(r.trade, settings.trade),
        },
        trade_rest_unchanged(r.trade, settings.trade),
        r.files_path.script_backtest@ == pick_str(
            cli.paths.script_backtest,
            settings.files_path.script_backtest@,
        ),
        r.files_path.script_stat@ == pick_str(cli.paths.script_stat, settings.files_path.script_stat@),
        r.files_path.backtest@ == cli.paths.backtest@,
        r.files_path.src_data@ == pick_str(cli.paths.src_data, settings.files_path.src_data@),
        r.files_path.train_model@ == cli.paths.train_model@,
{
    let Settings { trade, files_path } = settings;
    let trade = match &cli.trade {
        Some(t) => trade_sync(trade, t),
        None => trade,
    };
    let paths = &cli.paths;
    let FilesPathSettings { script_backtest, script_stat, backtest: _, src_data, train_model: _ } =
        files_path;
    let files_path = FilesPathSettings {
        script_backtest: or_string(&paths.script_backtest, script_backtest),
        script_stat: or_string(&paths.script_stat, script_stat),
        backtest: paths.backtest.clone(),
        src_data: or_string(&paths.src_data, src_data),
        train_model: paths.train_model.clone(),
    };
    Settings { trade, files_path }
}

/// Checks the extra command-line arguments; none are defined, so every
/// value passes.
pub fn check_addition_args(_addition_args: &Option<AdditionArgs>) -> (r: Result<(), ()>)
    ensures
        r is Ok,
{
    Ok(())
}

/// What the extra command-line flags ask for before a back-test: whether the
/// source data is to be saved, and whether earlier back-test results are to
/// be deleted.
#[derive(PartialEq, Eq, Structural, Clone, Copy, Debug)]
pub struct FlagActions {
    pub save_data: bool,
    pub clear_backtests: bool,
}

/// Without flags nothing is done; with flags, `save_data` asks for the data
/// to be saved and `clear` for the back-tests to be deleted.
pub fn check_addition_flags(addition_flags: &Option<AdditionFlags>) -> (r: FlagActions)
    ensures
        r.save_data == (addition_flags matches Some(f) && f.save_data),
        r.clear_backtests == (addition_flags matches Some(f) && f.clear),
{
    match addition_flags {
        Some(f) => FlagActions { save_data: f.save_data, clear_backtests: f.clear },
        None => FlagActions { save_data: false, clear_backtests: false },
    }
}

/// Applying the same command line twice gives what applying it once gave:
/// a settings value that already carries the overrides is kept as it is.
pub proof fn lemma_trade_override_idempotent(
    once: TradeSettings,
    twice: TradeSettings,
    s: TradeSettings,
    t: Trade,
)
    requires
        trade_overridden(once, s, t),
        trade_overridden(twice, once, t),
    ensures
        trade_kept(twice, once),
{
}

/// A command-line override wins: every overridable field of the synced
/// settings holds the value given on the command line, and keeps the
/// configured value where none is given.
pub proof fn lemma_override_wins(r: TradeSettings, old: TradeSettings, t: Trade)
    requires
        trade_overridden(r, old, t),
    ensures
        t.category matches Some(x) ==> r.category@ == x@,
        t.category is None ==> r.category@ == old.category@,
        t.account_type matches Some(x) ==> r.account_type@ == x@,
        t.account_type is None ==> r.account_type@ == old.account_type@,
        t.klines_qty matches Some(x) ==> r.klines_qty == x,
        t.klines_qty is None ==> r.klines_qty == old.klines_qty,
        t.timeframe matches Some(x) ==> r.timeframe@ == x@,
        t.timeframe is None ==> r.timeframe@ == old.timeframe@,
        t.leverage matches Some(x) ==> r.leverage == x,
        t.leverage is None ==> r.leverage == old.leverage,
        t.mode_trade matches Some(x) ==> r.mode_trade@ == x@,
        t.mode_trade is None ==> r.mode_trade@ == old.mode_trade@,
        t.hedge_mode matches Some(x) ==> r.hedge_mode == x,
        t.hedge_mode is None ==> r.hedge_mode == old.hedge_mode,
        t.symbols_time_update_ms matches Some(x) ==> r.symbols_time_update_ms == x,
        t.symbols_time_update_ms is None ==> r.symbols_time_update_ms == old.symbols_time_update_ms,
        t.symbols matches Some(x) ==> strings_view(r.symbols@) == strings_view(x@),
        t.symbols is None ==> strings_view(r.symbols@) == strings_view(old.symbols@),
        t.symbols_black_list matches Some(x) ==> strings_view(r.symbols_black_list@) == strings_view(x@),
        t.symbols_black_list is None ==> strings_view(r.symbols_black_list@) == strings_view(old.symbols_black_list@),
        t.coins matches Some(x) ==> strings_view(r.coins@) == strings_view(x@),
        t.coins is None ==> strings_view(r.coins@) == strings_view(old.coins@),
        t.coins_black_list matches Some(x) ==> strings_view(r.coins_black_list@) == strings_view(x@),
        t.coins_black_list is None ==> strings_view(r.coins_black_list@) == strings_view(old.coins_black_list@),
        t.slippage_tolerance_type matches Some(x) ==> r.slippage_tolerance_type@ == x@,
        t.slippage_tolerance_type is None ==> r.slippage_tolerance_type@ == old.slippage_tolerance_type@,
        t.time_in_force matches Some(x) ==> r.time_in_force@ == x@,
        t.time_in_force is None ==> r.time_in_force@ == old.time_in_force@,
        t.signal_hold matches Some(x) ==> r.signal_hold == x,
        t.signal_hold is None ==> r.signal_hold == old.signal_hold,
        t.signal_short matches Some(x) ==> r.signal_short == x,
        t.signal_short is None ==> r.signal_short == old.signal_short,
        t.signal_long matches Some(x) ==> r.signal_long == x,
        t.signal_long is None ==> r.signal_long == old.signal_long,
        t.commission_market matches Some(x) ==> r.commission_market == x,
        t.commission_market is None ==> r.commission_market == old.commission_market,
        t.commission_limit matches Some(x) ==> r.commission_limit == x,
        t.commission_limit is None ==> r.commission_limit == old.commission_limit,
        t.capital matches Some(x) ==> r.capital == x,
        t.capital is None ==> r.capital == old.capital,
        t.percent_of_capital matches Some(x) ==> r.percent_of_capital == x,
        t.percent_of_capital is None ==> r.percent_of_capital == old.percent_of_capital,
        t.amount_of_capital matches Some(x) ==> r.amount_of_capital == x,
        t.amount_of_capital is None ==> r.amount_of_capital == old.amount_of_capital,
        t.max_entry matches Some(x) ==> r.max_entry == x,
        t.max_entry is None ==> r.max_entry == old.max_entry,
        t.max_exit matches Some(x) ==> r.max_exit == x,
        t.max_exit is None ==> r.max_exit == old.max_exit,
        t.market_mult_of_probability_qty matches Some(x) ==> r.market_mult_of_probability_qty == x,
        t.market_mult_of_probability_qty is None ==> r.market_mult_of_probability_qty == old.market_mult_of_probability_qty,
        t.limit_mult_of_probability_qty matches Some(x) ==> r.limit_mult_of_probability_qty == x,
        t.limit_mult_of_probability_qty is None ==> r.limit_mult_of_probability_qty == old.limit_mult_of_probability_qty,
        t.market_entry_orders_signals matches Some(x) ==> strings_view(r.market_entry_orders_signals@) == strings_view(x@),
        t.market_entry_orders_signals is None ==> strings_view(r.market_entry_orders_signals@) == strings_view(old.market_entry_orders_signals@),
        t.market_exit_orders_signals matches Some(x) ==> strings_view(r.market_exit_orders_signals@) == strings_view(x@),
        t.market_exit_orders_signals is None ==> strings_view(r.market_exit_orders_signals@) == strings_view(old.market_exit_orders_signals@),
        t.trigger_by matches Some(x) ==> r.trigger_by@ == x@,
        t.trigger_by is None ==> r.trigger_by@ == old.trigger_by@,
        t.work_in_real_time matches Some(x) ==> r.work_in_real_time == x,
        t.work_in_real_time is None ==> r.work_in_real_time == old.work_in_real_time,
{
}

} // verus!
