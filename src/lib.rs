//! Short-side momentum backtesting over daily price/volume bars: an RSI
//! indicator, a volume-breakout signal, and a single-position trade simulator
//! gated by an IPO lock-up calendar.
//!
//! Prices are integer ticks (the instrument's smallest price increment) and
//! volumes are integer share counts. Wilder's RSI averages are kept in
//! millionths of a tick, so the RSI does not depend on the price scale, and
//! the strategy's RSI thresholds are tested exactly on those averages. Every
//! ledger entry and total is exact.

mod calendar;
mod indicators;
mod strategy;

pub use calendar::{
    bar_date, date_format, date_valid, date_of, epoch, ipo_lockup_screener_stub, parsed_date, Date, IpoInfo,
    LockupCalendar, StubLockupCalendar,
};
pub use indicators::{
    averages_in_range, averages_series, avg_bound, breakout_series, compute_rsi, exceeds_window,
    move_at, move_bound, rsi_at, rsi_defined, rsi_series, rsi_value, seed_sum,
    volume_relative_high, wilder_averages, wilder_avg, AVG_SCALE, RSI_SCALE,
};
pub use strategy::{
    accounted, backtest, closed, closes_of, enters, exits, ledger, lemma_entry_opens_short, lemma_forced_close_at_end, lemma_ledger_one_at_a_time,
    lemma_take_profit_closes,
    lemma_wins_and_losses, loss_count, one_at_a_time, opened, pnl, replay, rsi_exceeds, rsi_under, run_strategy, simulate,
    total_pnl, volumes_of, win_count, window_series, BacktestResult, Ohlcv, Trade, ENTRY_RSI,
    EXIT_RSI, RSI_PERIOD, VOLUME_WINDOW,
};
