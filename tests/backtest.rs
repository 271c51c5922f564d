use lockup_backtest::{
    bar_date, compute_rsi, ipo_lockup_screener_stub, run_strategy, simulate,
    volume_relative_high, wilder_averages, BacktestResult, Date, LockupCalendar, Ohlcv, StubLockupCalendar,
    RSI_SCALE,
};

fn bars(closes: &[u32], volumes: &[u64]) -> Vec<Ohlcv> {
    closes
        .iter()
        .zip(volumes.iter())
        .enumerate()
        .map(|(i, (c, v))| Ohlcv {
            date: format!("2024-01-{:02}", (i % 28) + 1),
            open: *c,
            high: *c,
            low: *c,
            close: *c,
            volume: *v,
        })
        .collect()
}

/// Closes rising by 100 ticks a bar up to 12000 at bar 20, where volume breaks out.
fn rising_then(rest: &[u32]) -> (Vec<u32>, Vec<u64>) {
    let mut closes: Vec<u32> = (0..21).map(|i| 10000 + 100 * i).collect();
    closes.extend_from_slice(rest);
    let mut volumes: Vec<u64> = vec![1000; 20];
    volumes.push(5000);
    volumes.extend(std::iter::repeat(1000).take(rest.len()));
    (closes, volumes)
}

#[test]
fn rsi_all_absent_when_series_too_short() {
    let closes = [10, 11, 12, 11, 10, 9, 8, 14];
    let r = compute_rsi(&closes, 14);
    assert_eq!(r.len(), 8);
    assert!(r.iter().all(|x| x.is_none()));
}

#[test]
fn rsi_all_absent_for_zero_period() {
    let r = compute_rsi(&[10, 11, 12], 0);
    assert_eq!(r, vec![None, None, None]);
}

#[test]
fn rsi_empty_input() {
    assert!(compute_rsi(&[], 14).is_empty());
}

#[test]
fn rsi_exact_values_period_one() {
    assert_eq!(compute_rsi(&[10, 12, 11], 1), vec![None, Some(10000), Some(0)]);
}

#[test]
fn rsi_exact_values_period_two() {
    // Seed: gain 2 and loss 1 over the first two moves, then a rise of 2.
    assert_eq!(compute_rsi(&[10, 12, 11, 13], 2), vec![None, None, Some(6666), Some(8571)]);
}

#[test]
fn rsi_does_not_depend_on_price_scale() {
    // Seed averages 0.5 and 0.5 give 50; then 0.75 against 0.25 gives 75.
    assert_eq!(compute_rsi(&[1, 2, 1, 2], 2), vec![None, None, Some(5000), Some(7500)]);
    assert_eq!(compute_rsi(&[100, 200, 100, 200], 2), vec![None, None, Some(5000), Some(7500)]);
}

#[test]
fn wilder_averages_in_millionths_of_a_tick() {
    let a = wilder_averages(&[1, 2, 1, 2], 2);
    assert_eq!(a, vec![None, None, Some((500000, 500000)), Some((750000, 250000))]);
}

#[test]
fn rsi_saturates_without_losses() {
    let r = compute_rsi(&[5, 5, 5, 6], 2);
    assert_eq!(r, vec![None, None, Some(RSI_SCALE), Some(RSI_SCALE)]);
}

#[test]
fn rsi_length_warmup_and_range() {
    let closes: Vec<u32> = (0..60).map(|i| 1000 + ((i * 37) % 23) * 10).collect();
    for period in [1usize, 3, 14, 59, 60, 100] {
        let r = compute_rsi(&closes, period);
        assert_eq!(r.len(), closes.len());
        for (i, x) in r.iter().enumerate() {
            if i < period || period >= closes.len() {
                assert!(x.is_none());
            } else {
                let v = x.expect("defined after warm-up");
                assert!(v <= RSI_SCALE);
            }
        }
    }
}

#[test]
fn volume_high_strict_over_window() {
    let r = volume_relative_high(&[1, 2, 3, 3, 1, 5], 2);
    assert_eq!(r, vec![false, false, true, false, false, true]);
}

#[test]
fn volume_high_empty_and_zero_window() {
    assert!(volume_relative_high(&[], 3).is_empty());
    assert_eq!(volume_relative_high(&[1, 2, 3], 0), vec![false, false, false]);
}

#[test]
fn volume_high_window_longer_than_series() {
    assert_eq!(volume_relative_high(&[1, 2, 3], 5), vec![false, false, false]);
}

#[test]
fn dates_parse_or_fall_back() {
    assert_eq!(bar_date("2024-03-15"), Date { year: 2024, month: 3, day: 15 });
    let epoch = Date { year: 1970, month: 1, day: 1 };
    assert_eq!(bar_date("not a date"), epoch);
    assert_eq!(bar_date("2024-02-30"), epoch);
}

#[test]
fn stub_screener_lists_demo() {
    let today = Date { year: 2024, month: 5, day: 1 };
    let ipos = ipo_lockup_screener_stub(today);
    assert_eq!(ipos.len(), 1);
    assert_eq!(ipos[0].symbol, "DEMO");
    assert_eq!(ipos[0].lockup_expiration_date, today);
    assert!(StubLockupCalendar.is_within_lockup_window("ANY", today));
}

#[test]
fn empty_input_gives_zeroed_result() {
    let r = run_strategy(&[], "DEMO", &StubLockupCalendar);
    assert!(r.trades.is_empty());
    assert_eq!(r.total_pnl, 0);
    assert_eq!(r.wins, 0);
    assert_eq!(r.losses, 0);
    let d = BacktestResult::default();
    assert!(d.trades.is_empty() && d.total_pnl == 0 && d.wins == 0 && d.losses == 0);
}

#[test]
fn short_opens_at_volume_breakout() {
    let (closes, volumes) = rising_then(&[12000]);
    let r = run_strategy(&bars(&closes, &volumes), "DEMO", &StubLockupCalendar);
    assert_eq!(r.trades.len(), 1);
    assert_eq!(r.trades[0].entry_index, 20);
    assert_eq!(r.trades[0].entry_price, 12000);
    assert_eq!(r.trades[0].quantity, 1);
}

#[test]
fn take_profit_closes_with_gain() {
    // 11640 is exactly 3% below the entry at 12000.
    let (closes, volumes) = rising_then(&[11640, 11640, 11640]);
    let r = run_strategy(&bars(&closes, &volumes), "DEMO", &StubLockupCalendar);
    assert_eq!(r.trades.len(), 1);
    let t = r.trades[0];
    assert_eq!(t.exit_index, Some(21));
    assert_eq!(t.exit_price, Some(11640));
    assert_eq!(r.total_pnl, 360);
    assert_eq!((r.wins, r.losses), (1, 0));
}

#[test]
fn stop_loss_closes_with_loss() {
    let (closes, volumes) = rising_then(&[12360, 12360]);
    let r = run_strategy(&bars(&closes, &volumes), "DEMO", &StubLockupCalendar);
    assert_eq!(r.trades.len(), 1);
    assert_eq!(r.trades[0].exit_index, Some(21));
    assert_eq!(r.total_pnl, -360);
    assert_eq!((r.wins, r.losses), (0, 1));
}

#[test]
fn rsi_exit_closes_before_take_profit() {
    let mut closes: Vec<u32> = vec![100000];
    for i in 1..21u32 {
        let last = *closes.last().unwrap();
        closes.push(if i % 2 == 1 { last + 400 } else { last - 200 });
    }
    let last = *closes.last().unwrap();
    closes.extend_from_slice(&[last - 600, last - 1000, last - 1200]);
    let mut volumes: Vec<u64> = vec![1000; 20];
    volumes.extend_from_slice(&[5000, 1000, 1000, 1000]);
    let rsi = compute_rsi(&closes, 14);
    assert_eq!(rsi[20], Some(6607));
    assert_eq!(rsi[22], Some(5221));
    let r = run_strategy(&bars(&closes, &volumes), "DEMO", &StubLockupCalendar);
    assert_eq!(r.trades.len(), 1);
    let t = r.trades[0];
    assert_eq!((t.entry_index, t.entry_price), (20, 102000));
    assert_eq!((t.exit_index, t.exit_price), (Some(22), Some(101000)));
    assert_eq!(r.total_pnl, 1000);
    assert_eq!((r.wins, r.losses), (1, 0));
}

#[test]
fn open_position_forced_closed_at_last_bar() {
    let (closes, volumes) = rising_then(&[12000, 12050, 12100]);
    let r = run_strategy(&bars(&closes, &volumes), "DEMO", &StubLockupCalendar);
    assert_eq!(r.trades.len(), 1);
    let t = r.trades[0];
    assert_eq!(t.exit_index, Some(closes.len() - 1));
    assert_eq!(t.exit_price, Some(12100));
    assert!(r.trades.iter().all(|t| t.exit_price.is_some() && t.exit_index.is_some()));
    assert_eq!(r.wins + r.losses, r.trades.len());
    assert_eq!(r.total_pnl, -100);
    assert_eq!(r.losses, 1);
}

#[test]
fn closed_lockup_window_blocks_entry() {
    let (closes, volumes) = rising_then(&[11640]);
    let avgs = wilder_averages(&closes, 14);
    let vol_high = volume_relative_high(&volumes, 20);
    let open = vec![true; closes.len()];
    assert_eq!(simulate(&closes, &avgs, &vol_high, &open).trades.len(), 1);
    let shut = vec![false; closes.len()];
    let r = simulate(&closes, &avgs, &vol_high, &shut);
    assert!(r.trades.is_empty());
    assert_eq!(r.total_pnl, 0);
}

#[test]
fn simulate_pnl_is_sum_over_trades() {
    // Two entries and two exits, with a breakout flag on bars 0 and 3.
    let closes = [100, 90, 95, 100, 110];
    // Average gain 70 against average loss 30: an RSI of 70 on every bar.
    let avgs = [Some((70, 30)); 5];
    let vol_high = [true, false, false, true, false];
    let in_window = [true; 5];
    let r = simulate(&closes, &avgs, &vol_high, &in_window);
    assert_eq!(r.trades.len(), 2);
    assert_eq!((r.trades[0].entry_index, r.trades[0].exit_index), (0, Some(1)));
    assert_eq!((r.trades[1].entry_index, r.trades[1].exit_index), (3, Some(4)));
    assert!(r.trades[0].exit_index.unwrap() < r.trades[1].entry_index);
    let sum: i128 = r
        .trades
        .iter()
        .map(|t| (t.entry_price as i128 - t.exit_price.unwrap() as i128) * t.quantity as i128)
        .sum();
    assert_eq!(r.total_pnl, sum);
    assert_eq!(r.total_pnl, 10 - 10);
    assert_eq!((r.wins, r.losses), (1, 1));
}

#[test]
fn simulate_ignores_entry_without_rsi() {
    let r = simulate(&[100, 100], &[None, None], &[true, true], &[true, true]);
    assert!(r.trades.is_empty());
}

#[test]
fn entry_threshold_is_exact() {
    // RSI 65.00001: above 65, though it rounds down to 6500 hundredths.
    let just_above = Some((6_500_001u128, 3_499_999u128));
    let r = simulate(&[100, 100], &[just_above, just_above], &[true, false], &[true, true]);
    assert_eq!(r.trades.len(), 1);
    assert_eq!(r.trades[0].entry_index, 0);
    // RSI exactly 65 does not open a short.
    let at = Some((65u128, 35u128));
    let r = simulate(&[100, 100], &[at, at], &[true, true], &[true, true]);
    assert!(r.trades.is_empty());
}

#[test]
fn exit_threshold_is_strict() {
    // RSI exactly 55 keeps the short open; 54.9 closes it.
    let open = Some((70u128, 30u128));
    let at = Some((55u128, 45u128));
    let below = Some((549u128, 451u128));
    let r = simulate(&[100, 100, 100], &[open, at, below], &[true, false, false], &[true; 3]);
    assert_eq!(r.trades.len(), 1);
    assert_eq!(r.trades[0].exit_index, Some(2));
}
