use vstd::prelude::*;
use crate::calendar::{bar_date, date_of, LockupCalendar};
use crate::indicators::{
    averages_in_range, averages_series, breakout_series, move_bound, volume_relative_high,
    wilder_averages,
};

verus! {

/// Look-back of the RSI the strategy reads.
pub const RSI_PERIOD: usize = 14;

/// Number of earlier bars whose volume a breakout must exceed.
pub const VOLUME_WINDOW: usize = 20;

/// A short opens only while the RSI is above this many points.
pub const ENTRY_RSI: u128 = 65;

/// An open short closes once the RSI falls below this many points.
pub const EXIT_RSI: u128 = 55;

/// One daily bar. Prices are in ticks, volume in shares.
#[derive(Clone, Debug)]
pub struct Ohlcv {
    pub date: String,
    pub open: u32,
    pub high: u32,
    pub low: u32,
    pub close: u32,
    pub volume: u64,
}

/// A short trade: opened at `entry_index`, closed at `exit_index`.
#[derive(Clone, Copy, Debug, PartialEq, Eq, Structural)]
pub struct Trade {
    pub entry_price: u32,
    pub exit_price: Option<u32>,
    pub quantity: u32,
    pub entry_index: usize,
    pub exit_index: Option<usize>,
}

/// The closed trades of a run with their combined profit and loss in ticks.
#[derive(Clone, Debug)]
pub struct BacktestResult {
    pub trades: Vec<Trade>,
    pub total_pnl: i128,
    pub wins: usize,
    pub losses: usize,
}

impl Default for BacktestResult {
    fn default() -> (r: BacktestResult)
        ensures
            r.trades@.len() == 0,
            r.total_pnl == 0,
            r.wins == 0,
            r.losses == 0,
    {
        BacktestResult { trades: Vec::new(), total_pnl: 0, wins: 0, losses: 0 }
    }
}

/// Profit of a closed short: `(entry - exit) * quantity`; zero while open.
pub open spec fn pnl(t: Trade) -> int {
    match t.exit_price {
        Some(x) => (t.entry_price - x) * t.quantity,
        None => 0,
    }
}

/// Sum of the profits of `ts`.
pub open spec fn total_pnl(ts: Seq<Trade>) -> int
    decreases ts.len(),
{
    if ts.len() == 0 { 0 } else { total_pnl(ts.drop_last()) + pnl(ts.last()) }
}

/// Number of trades in `ts` with a profit of zero or more.
pub open spec fn win_count(ts: Seq<Trade>) -> int
    decreases ts.len(),
{
    if ts.len() == 0 {
        0
    } else {
        win_count(ts.drop_last()) + if pnl(ts.last()) >= 0 { 1int } else { 0 }
    }
}

/// Number of trades in `ts` with a loss.
pub open spec fn loss_count(ts: Seq<Trade>) -> int
    decreases ts.len(),
{
    if ts.len() == 0 {
        0
    } else {
        loss_count(ts.drop_last()) + if pnl(ts.last()) < 0 { 1int } else { 0 }
    }
}

/// The totals of `r` agree with its trades.
pub open spec fn accounted(r: BacktestResult) -> bool {
    &&& r.total_pnl == total_pnl(r.trades@)
    &&& r.wins == win_count(r.trades@)
    &&& r.losses == loss_count(r.trades@)
}

/// With `RS = gain / loss`, `RSI = 100 - 100 / (1 + RS) = 100 * gain / (gain + loss)`,
/// and 100 when the loss is zero. So this is exactly `RSI > level`.
pub open spec fn rsi_exceeds(gain: int, loss: int, level: int) -> bool {
    loss == 0 || 100 * gain > level * (gain + loss)
}

/// Exactly `RSI < level`, on the same terms as `rsi_exceeds`.
pub open spec fn rsi_under(gain: int, loss: int, level: int) -> bool {
    loss != 0 && 100 * gain < level * (gain + loss)
}

/// Entry rule at bar `i`, on the smoothed (gain, loss) averages: RSI above 65,
/// a volume breakout, and the lock-up window.
pub open spec fn enters(
    avgs: Seq<Option<(u128, u128)>>,
    vol_high: Seq<bool>,
    in_window: Seq<bool>,
    i: int,
) -> bool {
    &&& avgs[i] is Some
    &&& rsi_exceeds((avgs[i]->0).0 as int, (avgs[i]->0).1 as int, ENTRY_RSI as int)
    &&& vol_high[i]
    &&& in_window[i]
}

/// Exit rule at bar `i` for a short entered at `entry`: RSI below 55, or the
/// close 3% or more below the entry (take-profit), or 3% or more above it
/// (stop-loss).
pub open spec fn exits(closes: Seq<u32>, avgs: Seq<Option<(u128, u128)>>, entry: u32, i: int) -> bool {
    ||| avgs[i] is Some && rsi_under((avgs[i]->0).0 as int, (avgs[i]->0).1 as int, EXIT_RSI as int)
    ||| 100 * closes[i] <= 97 * entry
    ||| 100 * closes[i] >= 103 * entry
}

/// A one-unit short opened at bar `i` at price `price`.
pub open spec fn opened(price: u32, i: int) -> Trade {
    Trade { entry_price: price, exit_price: None, quantity: 1, entry_index: i as usize, exit_index: None }
}

/// `t` closed at bar `i` at price `price`.
pub open spec fn closed(t: Trade, price: u32, i: int) -> Trade {
    Trade { exit_price: Some(price), exit_index: Some(i as usize), ..t }
}

/// The closed trades and the open position after bars `0..n`: each bar first
/// checks the entry rule while flat, then the exit rule while short.
pub open spec fn replay(
    closes: Seq<u32>,
    avgs: Seq<Option<(u128, u128)>>,
    vol_high: Seq<bool>,
    in_window: Seq<bool>,
    n: int,
) -> (Seq<Trade>, Option<Trade>)
    decreases n,
{
    if n <= 0 {
        (Seq::empty(), None)
    } else {
        let (ts, open) = replay(closes, avgs, vol_high, in_window, n - 1);
        let i = n - 1;
        let cur = if open is None && enters(avgs, vol_high, in_window, i) {
            Some(opened(closes[i], i))
        } else {
            open
        };
        match cur {
            Some(t) => if exits(closes, avgs, t.entry_price, i) {
                (ts.push(closed(t, closes[i], i)), None)
            } else {
                (ts, cur)
            },
            None => (ts, None),
        }
    }
}

/// The trade ledger of a whole run: the replay over every bar, with a position
/// still open at the end closed at the last close.
pub open spec fn ledger(
    closes: Seq<u32>,
    avgs: Seq<Option<(u128, u128)>>,
    vol_high: Seq<bool>,
    in_window: Seq<bool>,
) -> Seq<Trade> {
    let n = closes.len() as int;
    let (ts, open) = replay(closes, avgs, vol_high, in_window, n);
    match open {
        Some(t) => ts.push(closed(t, closes[n - 1], n - 1)),
        None => ts,
    }
}

/// Every trade of `ts` is a closed one-unit short within bars `0..n`, and each
/// one is closed before the next one opens: at most one is open at any bar.
pub open spec fn one_at_a_time(ts: Seq<Trade>, n: int) -> bool {
    &&& forall|k: int| 0 <= k < ts.len() ==> {
        &&& #[trigger] ts[k].exit_price is Some
        &&& ts[k].exit_index is Some
        &&& ts[k].quantity == 1
        &&& ts[k].entry_index <= ts[k].exit_index->0 < n
    }
    &&& forall|k: int| 0 <= k < ts.len() - 1 ==> #[trigger] ts[k].exit_index->0 < ts[k + 1].entry_index
}


proof fn lemma_push_accounting(ts: Seq<Trade>, t: Trade)
    ensures
        total_pnl(ts.push(t)) == total_pnl(ts) + pnl(t),
        win_count(ts.push(t)) == win_count(ts) + if pnl(t) >= 0 { 1int } else { 0 },
        loss_count(ts.push(t)) == loss_count(ts) + if pnl(t) < 0 { 1int } else { 0 },
{
    assert(ts.push(t).drop_last() =~= ts);
}

/// Each trade is a win or a loss, never both.
pub proof fn lemma_wins_and_losses(ts: Seq<Trade>)
    ensures
        win_count(ts) + loss_count(ts) == ts.len(),
        win_count(ts) >= 0,
        loss_count(ts) >= 0,
    decreases ts.len(),
{
    if ts.len() > 0 {
        lemma_wins_and_losses(ts.drop_last());
    }
}

proof fn lemma_replay_shape(
    closes: Seq<u32>,
    avgs: Seq<Option<(u128, u128)>>,
    vol_high: Seq<bool>,
    in_window: Seq<bool>,
    n: int,
)
    requires
        0 <= n <= closes.len() <= usize::MAX,
        avgs.len() == closes.len(),
        vol_high.len() == closes.len(),
        in_window.len() == closes.len(),
    ensures
        ({
            let (ts, open) = replay(closes, avgs, vol_high, in_window, n);
            &&& one_at_a_time(ts, n)
            &&& ts.len() <= n
            &&& ts.len() > 0 ==> ts.len() <= ts.last().exit_index->0 + 1
            &&& open is Some ==> {
                let t = open->0;
                &&& t.exit_price is None
                &&& t.exit_index is None
                &&& t.quantity == 1
                &&& t.entry_index < n
                &&& ts.len() <= t.entry_index
                &&& ts.len() > 0 ==> ts.last().exit_index->0 < t.entry_index
            }
        }),
    decreases n,
{
    if n > 0 {
        lemma_replay_shape(closes, avgs, vol_high, in_window, n - 1);
        let (ts, open) = replay(closes, avgs, vol_high, in_window, n - 1);
        let i = n - 1;
        let cur = if open is None && enters(avgs, vol_high, in_window, i) {
            Some(opened(closes[i], i))
        } else {
            open
        };
        if ts.len() > 0 {
            assert(ts[ts.len() - 1].exit_price is Some);
        }
        if cur is Some && exits(closes, avgs, cur->0.entry_price, i) {
            let nt = closed(cur->0, closes[i], i);
            let nts = ts.push(nt);
            assert forall|k: int| 0 <= k < nts.len() - 1 implies #[trigger] nts[k].exit_index->0
                < nts[k + 1].entry_index by {
                if k < ts.len() - 1 {
                    assert(nts[k] == ts[k] && nts[k + 1] == ts[k + 1]);
                } else {
                    assert(nts[k] == ts.last() && nts[k + 1] == nt);
                }
            }
            assert forall|k: int| 0 <= k < nts.len() implies {
                &&& #[trigger] nts[k].exit_price is Some
                &&& nts[k].exit_index is Some
                &&& nts[k].quantity == 1
                &&& nts[k].entry_index <= nts[k].exit_index->0 < n
            } by {
                if k < ts.len() {
                    assert(nts[k] == ts[k]);
                }
            }
        }
    }
}

/// Law of the whole run: every trade in the ledger is closed, within the run,
/// and closed before the next one opens, and there are no more trades than bars.
pub proof fn lemma_ledger_one_at_a_time(
    closes: Seq<u32>,
    avgs: Seq<Option<(u128, u128)>>,
    vol_high: Seq<bool>,
    in_window: Seq<bool>,
)
    requires
        0 < closes.len() <= usize::MAX,
        avgs.len() == closes.len(),
        vol_high.len() == closes.len(),
        in_window.len() == closes.len(),
    ensures
        one_at_a_time(ledger(closes, avgs, vol_high, in_window), closes.len() as int),
        ledger(closes, avgs, vol_high, in_window).len() <= closes.len(),
{
    let n = closes.len() as int;
    lemma_replay_shape(closes, avgs, vol_high, in_window, n);
    let (ts, open) = replay(closes, avgs, vol_high, in_window, n);
    if open is Some {
        let nts = ts.push(closed(open->0, closes[n - 1], n - 1));
        assert forall|k: int| 0 <= k < nts.len() - 1 implies #[trigger] nts[k].exit_index->0
            < nts[k + 1].entry_index by {
            if k < ts.len() - 1 {
                assert(nts[k] == ts[k] && nts[k + 1] == ts[k + 1]);
            }
        }
        assert forall|k: int| 0 <= k < nts.len() implies {
            &&& #[trigger] nts[k].exit_price is Some
            &&& nts[k].exit_index is Some
            &&& nts[k].quantity == 1
            &&& nts[k].entry_index <= nts[k].exit_index->0 < n
        } by {
            if k < ts.len() {
                assert(nts[k] == ts[k]);
            }
        }
    }
}

/// Law of entry: on a bar where the position is flat and the entry rule holds,
/// a one-unit short opens at that bar's close. After the bar it is either
/// still open or, if the exit rule held on the same bar, the last closed trade.
pub proof fn lemma_entry_opens_short(
    closes: Seq<u32>,
    avgs: Seq<Option<(u128, u128)>>,
    vol_high: Seq<bool>,
    in_window: Seq<bool>,
    i: int,
)
    requires
        0 <= i < closes.len() <= usize::MAX,
        avgs.len() == closes.len(),
        vol_high.len() == closes.len(),
        in_window.len() == closes.len(),
        replay(closes, avgs, vol_high, in_window, i).1 is None,
        enters(avgs, vol_high, in_window, i),
    ensures
        ({
            let (ts, open) = replay(closes, avgs, vol_high, in_window, i + 1);
            let t = opened(closes[i], i);
            if exits(closes, avgs, closes[i], i) {
                open is None && ts == replay(closes, avgs, vol_high, in_window, i).0.push(
                    closed(t, closes[i], i),
                )
            } else {
                open == Some(t) && ts == replay(closes, avgs, vol_high, in_window, i).0
            }
        }),
{
}

/// Law of take-profit: an open short whose entry is at least 3% above the
/// bar's close is closed on that bar at the close, with a profit of zero or
/// more (more than zero for a non-zero entry) that counts as a win.
pub proof fn lemma_take_profit_closes(
    closes: Seq<u32>,
    avgs: Seq<Option<(u128, u128)>>,
    vol_high: Seq<bool>,
    in_window: Seq<bool>,
    i: int,
)
    requires
        0 <= i < closes.len() <= usize::MAX,
        avgs.len() == closes.len(),
        vol_high.len() == closes.len(),
        in_window.len() == closes.len(),
        replay(closes, avgs, vol_high, in_window, i).1 is Some,
        100 * closes[i] <= 97 * replay(closes, avgs, vol_high, in_window, i).1->0.entry_price,
    ensures
        ({
            let (ts, open) = replay(closes, avgs, vol_high, in_window, i);
            let t = closed(open->0, closes[i], i);
            let (nts, nopen) = replay(closes, avgs, vol_high, in_window, i + 1);
            &&& nopen is None
            &&& nts == ts.push(t)
            &&& pnl(t) >= 0
            &&& open->0.entry_price > 0 ==> pnl(t) > 0
            &&& win_count(nts) == win_count(ts) + 1
            &&& loss_count(nts) == loss_count(ts)
        }),
{
    lemma_replay_shape(closes, avgs, vol_high, in_window, i);
    let (ts, open) = replay(closes, avgs, vol_high, in_window, i);
    let t = closed(open->0, closes[i], i);
    lemma_push_accounting(ts, t);
    assert(exits(closes, avgs, open->0.entry_price, i));
    assert(replay(closes, avgs, vol_high, in_window, i + 1) == (ts.push(t), None::<Trade>));
    let d: int = open->0.entry_price - closes[i];
    let q: int = t.quantity as int;
    assert(d * q == d) by (nonlinear_arith)
        requires
            q == 1,
    ;
}

/// Law of the forced close: a short still open after the last bar is closed
/// at the last close and ends the ledger.
pub proof fn lemma_forced_close_at_end(
    closes: Seq<u32>,
    avgs: Seq<Option<(u128, u128)>>,
    vol_high: Seq<bool>,
    in_window: Seq<bool>,
)
    requires
        0 < closes.len() <= usize::MAX,
        avgs.len() == closes.len(),
        vol_high.len() == closes.len(),
        in_window.len() == closes.len(),
        replay(closes, avgs, vol_high, in_window, closes.len() as int).1 is Some,
    ensures
        ({
            let n = closes.len() as int;
            let (ts, open) = replay(closes, avgs, vol_high, in_window, n);
            let t = ledger(closes, avgs, vol_high, in_window).last();
            &&& ledger(closes, avgs, vol_high, in_window) == ts.push(t)
            &&& t.entry_index == open->0.entry_index
            &&& t.entry_price == open->0.entry_price
            &&& t.exit_index == Some((n - 1) as usize)
            &&& t.exit_price == Some(closes[n - 1])
            &&& pnl(t) == (open->0.entry_price - closes[n - 1]) * open->0.quantity
        }),
{
}

/// Appends a closed trade to `result`, adding its profit and counting it as a
/// win (profit of zero or more) or a loss.
fn record(result: &mut BacktestResult, t: Trade)
    requires
        accounted(*old(result)),
        old(result).trades@.len() < usize::MAX,
        -(old(result).trades@.len() * move_bound()) <= old(result).total_pnl
            <= old(result).trades@.len() * move_bound(),
        t.exit_price is Some,
        t.quantity == 1,
    ensures
        final(result).trades@ == old(result).trades@.push(t),
        accounted(*final(result)),
        -(final(result).trades@.len() * move_bound()) <= final(result).total_pnl
            <= final(result).trades@.len() * move_bound(),
{
    proof {
        lemma_push_accounting(result.trades@, t);
        lemma_wins_and_losses(result.trades@);
    }
    let exit: u32 = match t.exit_price {
        Some(x) => x,
        None => t.entry_price,
    };
    let pnl: i128 = (t.entry_price as i128 - exit as i128) * t.quantity as i128;
    result.total_pnl = result.total_pnl + pnl;
    if pnl >= 0 {
        result.wins = result.wins + 1;
    } else {
        result.losses = result.losses + 1;
    }
    result.trades.push(t);
}


/// Replays the strategy over precomputed per-bar inputs: closes, the smoothed
/// (gain, loss) averages of `wilder_averages`, volume breakouts and whether the lock-up window is open. A bar first opens a short
/// while flat and the entry rule holds, then closes the open short if the exit
/// rule holds. A short still open after the last bar is closed at its close.
pub fn simulate(
    closes: &[u32],
    avgs: &[Option<(u128, u128)>],
    vol_high: &[bool],
    in_window: &[bool],
) -> (r: BacktestResult)
    requires
        avgs@.len() == closes@.len(),
        averages_in_range(avgs@),
        vol_high@.len() == closes@.len(),
        in_window@.len() == closes@.len(),
    ensures
        r.trades@ == ledger(closes@, avgs@, vol_high@, in_window@),
        accounted(r),
        r.wins + r.losses == r.trades@.len(),
        one_at_a_time(r.trades@, closes@.len() as int),
        closes@.len() == 0 ==> r.trades@.len() == 0 && r.total_pnl == 0 && r.wins == 0
            && r.losses == 0,
{
    let n: usize = closes.len();
    let mut result = BacktestResult::default();
    let mut current: Option<Trade> = None;
    let mut i: usize = 0;
    while i < n
        invariant
            n == closes@.len(),
            avgs@.len() == n,
            averages_in_range(avgs@),
            vol_high@.len() == n,
            in_window@.len() == n,
            i <= n,
            (result.trades@, current) == replay(closes@, avgs@, vol_high@, in_window@, i as int),
            accounted(result),
            -(result.trades@.len() * move_bound()) <= result.total_pnl
                <= result.trades@.len() * move_bound(),
        decreases n - i,
    {
        proof {
            lemma_replay_shape(closes@, avgs@, vol_high@, in_window@, i as int);
        }
        let rsi_high: bool = match avgs[i] {
            Some((g, l)) => {
                assert(avgs@[i as int] is Some);
                l == 0 || 100 * g > ENTRY_RSI * (g + l)
            },
            None => false,
        };
        if current.is_none() && rsi_high && vol_high[i] && in_window[i] {
            current = Some(
                Trade {
                    entry_price: closes[i],
                    exit_price: None,
                    quantity: 1,
                    entry_index: i,
                    exit_index: None,
                },
            );
        }
        match current {
            Some(t) => {
                let price: u32 = closes[i];
                let rsi_low: bool = match avgs[i] {
                    Some((g, l)) => {
                        assert(avgs@[i as int] is Some);
                        l != 0 && 100 * g < EXIT_RSI * (g + l)
                    },
                    None => false,
                };
                let take_profit: bool = 100 * (price as u64) <= 97 * (t.entry_price as u64);
                let stop_loss: bool = 100 * (price as u64) >= 103 * (t.entry_price as u64);
                if rsi_low || take_profit || stop_loss {
                    record(
                        &mut result,
                        Trade { exit_price: Some(price), exit_index: Some(i), ..t },
                    );
                    current = None;
                }
            },
            None => {},
        }
        i = i + 1;
    }
    proof {
        lemma_replay_shape(closes@, avgs@, vol_high@, in_window@, n as int);
    }
    match current {
        Some(t) => {
            let last: usize = n - 1;
            record(&mut result, Trade { exit_price: Some(closes[last]), exit_index: Some(last), ..t });
        },
        None => {},
    }
    proof {
        lemma_wins_and_losses(result.trades@);
    }
    if n > 0 {
        proof {
            lemma_ledger_one_at_a_time(closes@, avgs@, vol_high@, in_window@);
        }
    }
    result
}


/// The close of each bar.
pub open spec fn closes_of(bars: Seq<Ohlcv>) -> Seq<u32> {
    Seq::new(bars.len(), |i: int| bars[i].close)
}

/// The volume of each bar.
pub open spec fn volumes_of(bars: Seq<Ohlcv>) -> Seq<u64> {
    Seq::new(bars.len(), |i: int| bars[i].volume)
}

/// For each bar, whether `calendar` puts `symbol` in its lock-up window on the
/// bar's date.
pub open spec fn window_series<L: LockupCalendar>(
    calendar: L,
    symbol: Seq<char>,
    bars: Seq<Ohlcv>,
) -> Seq<bool> {
    Seq::new(bars.len(), |i: int| calendar.in_window(symbol, date_of(bars[i].date@)))
}

/// The ledger of the strategy on `bars`: RSI over `RSI_PERIOD` bars, volume
/// breakouts over `VOLUME_WINDOW` bars, and `calendar`'s lock-up windows.
pub open spec fn backtest<L: LockupCalendar>(
    bars: Seq<Ohlcv>,
    symbol: Seq<char>,
    calendar: L,
) -> Seq<Trade> {
    let closes = closes_of(bars);
    ledger(
        closes,
        averages_series(closes, RSI_PERIOD as int),
        breakout_series(volumes_of(bars), VOLUME_WINDOW as nat),
        window_series(calendar, symbol, bars),
    )
}

/// Runs the short strategy on `symbol`'s bars, asking `calendar` on each bar's
/// date whether the lock-up window is open.
pub fn run_strategy<L: LockupCalendar>(bars: &[Ohlcv], symbol: &str, calendar: &L) -> (r:
    BacktestResult)
    ensures
        r.trades@ == backtest(bars@, symbol@, *calendar),
        accounted(r),
        r.wins + r.losses == r.trades@.len(),
        one_at_a_time(r.trades@, bars@.len() as int),
        bars@.len() == 0 ==> r.trades@.len() == 0 && r.total_pnl == 0 && r.wins == 0
            && r.losses == 0,
{
    if bars.len() == 0 {
        let empty = BacktestResult::default();
        proof {
            lemma_wins_and_losses(empty.trades@);
        }
        return empty;
    }
    let n: usize = bars.len();
    let mut closes: Vec<u32> = Vec::new();
    let mut volumes: Vec<u64> = Vec::new();
    let mut in_window: Vec<bool> = Vec::new();
    let mut i: usize = 0;
    while i < n
        invariant
            n == bars@.len(),
            i <= n,
            closes@ == closes_of(bars@).take(i as int),
            volumes@ == volumes_of(bars@).take(i as int),
            in_window@ == window_series(*calendar, symbol@, bars@).take(i as int),
        decreases n - i,
    {
        let date = bar_date(&bars[i].date);
        let open: bool = calendar.is_within_lockup_window(symbol, date);
        closes.push(bars[i].close);
        volumes.push(bars[i].volume);
        in_window.push(open);
        i = i + 1;
        proof {
            assert(closes@ =~= closes_of(bars@).take(i as int));
            assert(volumes@ =~= volumes_of(bars@).take(i as int));
            assert(in_window@ =~= window_series(*calendar, symbol@, bars@).take(i as int));
        }
    }
    proof {
        assert(closes@ =~= closes_of(bars@));
        assert(volumes@ =~= volumes_of(bars@));
        assert(in_window@ =~= window_series(*calendar, symbol@, bars@));
    }
    let avgs = wilder_averages(closes.as_slice(), RSI_PERIOD);
    let vol_high = volume_relative_high(volumes.as_slice(), VOLUME_WINDOW);
    proof {
        assert(vol_high@ =~= breakout_series(volumes@, VOLUME_WINDOW as nat));
    }
    simulate(closes.as_slice(), avgs.as_slice(), vol_high.as_slice(), in_window.as_slice())
}

} // verus!
