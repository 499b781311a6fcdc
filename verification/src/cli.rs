//! The command line as plain values: what was asked for, and which
//! settings the command line overrides.

use vstd::prelude::*;

verus! {

pub struct Cli {
    pub addition_args: Option<AdditionArgs>,
    pub addition_flugs: Option<AdditionFlags>,
    pub trade: Option<Trade>,
    pub paths: Paths,
    pub commands: Option<Commands>,
}

#[derive(PartialEq, Eq, Structural, Clone, Copy, Debug)]
pub enum Commands {
    Run,
    Update,
    Backtest,
    Bench,
}

#[derive(PartialEq, Eq, Structural, Clone, Copy, Debug)]
pub struct AdditionFlags {
    pub save_data: bool,
    pub clear: bool,
}

#[derive(PartialEq, Eq, Structural, Clone, Copy, Debug)]
pub struct AdditionArgs {}

/// Overrides of the trade settings; `None` keeps the configured value.
/// Amounts, prices and ratios are IEEE-754 binary64 bit patterns.
pub struct Trade {
    pub category: Option<String>,
    pub account_type: Option<String>,
    pub klines_qty: Option<usize>,
    pub timeframe: Option<String>,
    pub leverage: Option<u64>,
    pub mode_trade: Option<String>,
    pub hedge_mode: Option<bool>,
    pub symbols_time_update_ms: Option<usize>,
    pub symbols: Option<Vec<String>>,
    pub symbols_black_list: Option<Vec<String>>,
    pub coins: Option<Vec<String>>,
    pub coins_black_list: Option<Vec<String>>,
    pub slippage_tolerance_type: Option<String>,
    pub time_in_force: Option<String>,
    pub signal_hold: Option<u64>,
    pub signal_short: Option<u64>,
    pub signal_long: Option<u64>,
    pub commission_market: Option<u64>,
    pub commission_limit: Option<u64>,
    pub capital: Option<u64>,
    pub percent_of_capital: Option<u64>,
    pub amount_of_capital: Option<u64>,
    pub max_entry: Option<usize>,
    pub max_exit: Option<usize>,
    pub market_mult_of_probability_qty: Option<u64>,
    pub limit_mult_of_probability_qty: Option<u64>,
    pub market_entry_orders_signals: Option<Vec<String>>,
    pub market_exit_orders_signals: Option<Vec<String>>,
    pub trigger_by: Option<String>,
    pub work_in_real_time: Option<bool>,
}

/// File locations given on the command line.
pub struct Paths {
    pub settings: String,
    pub backtest: String,
    pub train_model: String,
    pub script_backtest: Option<String>,
    pub script_stat: Option<String>,
    pub src_data: Option<String>,
}

} // verus!
