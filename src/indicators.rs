use vstd::arithmetic::div_mod::{lemma_div_is_ordered, lemma_div_multiples_vanish};
use vstd::arithmetic::mul::lemma_mul_inequality;
use vstd::prelude::*;

verus! {

/// True when `v[i]` is strictly greater than each of the `w` values before it.
/// A window of zero never signals.
pub open spec fn exceeds_window(v: Seq<u64>, w: nat, i: int) -> bool {
    &&& w > 0
    &&& i >= w
    &&& forall|j: int| i - w <= j < i ==> v[j] < v[i]
}

/// For each bar, whether its volume strictly exceeds the largest volume of the
/// `window` bars before it. The first `window` entries are `false`.
pub fn volume_relative_high(volumes: &[u64], window: usize) -> (r: Vec<bool>)
    ensures
        r@.len() == volumes@.len(),
        forall|i: int| 0 <= i < r@.len() ==> r@[i] == exceeds_window(volumes@, window as nat, i),
{
    let n: usize = volumes.len();
    let mut res: Vec<bool> = Vec::new();
    let mut i: usize = 0;
    while i < n
        invariant
            n == volumes@.len(),
            i <= n,
            res@.len() == i,
            forall|k: int| 0 <= k < i ==> res@[k] == exceeds_window(volumes@, window as nat, k),
        decreases n - i,
    {
        if window == 0 || i < window {
            res.push(false);
        } else {
            let mut max_prev: u64 = 0;
            let mut j: usize = i - window;
            while j < i
                invariant
                    n == volumes@.len(),
                    i < n,
                    window <= i,
                    i - window <= j <= i,
                    forall|k: int| (i - window) as int <= k < j ==> volumes@[k] <= max_prev,
                    j > i - window ==> exists|k: int| (i - window) as int <= k < j && volumes@[k] == max_prev,
                decreases i - j,
            {
                if volumes[j] > max_prev || j == i - window {
                    max_prev = volumes[j];
                }
                j = j + 1;
            }
            res.push(volumes[i] > max_prev);
        }
        i = i + 1;
    }
    res
}


/// RSI values are given in hundredths of a point: `RSI_SCALE` stands for 100.
pub const RSI_SCALE: u64 = 10000;

/// Smoothed averages are kept in millionths of a tick: `AVG_SCALE` stands for one tick.
pub const AVG_SCALE: u128 = 1000000;

/// Largest single-bar move in ticks, exclusive: prices are `u32`.
pub open spec fn move_bound() -> int {
    0x1_0000_0000
}

/// Upper bound of every smoothed average, in millionths of a tick.
pub open spec fn avg_bound() -> int {
    move_bound() * AVG_SCALE
}

/// The upward (`up`) or downward move into bar `i`, as a non-negative number.
pub open spec fn move_at(c: Seq<u32>, i: int, up: bool) -> int {
    if up {
        if c[i] >= c[i - 1] { c[i] - c[i - 1] } else { 0 }
    } else {
        if c[i] < c[i - 1] { c[i - 1] - c[i] } else { 0 }
    }
}

/// Sum of the moves into bars `1..=k`: the seed window.
pub open spec fn seed_sum(c: Seq<u32>, k: int, up: bool) -> int
    decreases k,
{
    if k <= 0 { 0 } else { seed_sum(c, k - 1, up) + move_at(c, k, up) }
}

/// Wilder's smoothed average of the upward (`up`) or downward moves with
/// period `p` at bar `i >= p`, in millionths of a tick. At bar `p` it is the
/// mean of the first `p` moves; after that
/// `avg_i = (avg_{i-1} * (p - 1) + move_i) / p`, each step rounded down to a
/// millionth of a tick.
pub open spec fn wilder_avg(c: Seq<u32>, p: int, i: int, up: bool) -> int
    decreases i,
{
    if p <= 0 {
        0
    } else if i <= p {
        seed_sum(c, p, up) * AVG_SCALE / p
    } else {
        (wilder_avg(c, p, i - 1, up) * (p - 1) + move_at(c, i, up) * AVG_SCALE) / p
    }
}

/// `100 - 100 / (1 + gain / loss)` in hundredths, rounded down; a zero loss
/// counts as an infinite ratio, which gives 100.
pub open spec fn rsi_value(gain: int, loss: int) -> int {
    if loss == 0 { RSI_SCALE as int } else { (RSI_SCALE as int * gain) / (gain + loss) }
}

/// The RSI with period `p` at bar `i`.
pub open spec fn rsi_at(c: Seq<u32>, p: int, i: int) -> int {
    rsi_value(wilder_avg(c, p, i, true), wilder_avg(c, p, i, false))
}

/// Whether the RSI with period `p` is defined at bar `i` of `c`.
pub open spec fn rsi_defined(c: Seq<u32>, p: int, i: int) -> bool {
    0 < p < c.len() && p <= i < c.len()
}

/// The smoothed (gain, loss) averages of `c` with period `p`, as
/// `wilder_averages` returns them.
pub open spec fn averages_series(c: Seq<u32>, p: int) -> Seq<Option<(u128, u128)>> {
    Seq::new(
        c.len(),
        |i: int|
            if rsi_defined(c, p, i) {
                Some((wilder_avg(c, p, i, true) as u128, wilder_avg(c, p, i, false) as u128))
            } else {
                None
            },
    )
}

/// Every average in `s` is at most `avg_bound()`.
pub open spec fn averages_in_range(s: Seq<Option<(u128, u128)>>) -> bool {
    forall|i: int|
        0 <= i < s.len() && #[trigger] s[i] is Some ==> (s[i]->0).0 <= avg_bound() && (s[i]->0).1
            <= avg_bound()
}

/// The RSI series of `c` with period `p`, as `compute_rsi` returns it.
pub open spec fn rsi_series(c: Seq<u32>, p: int) -> Seq<Option<u64>> {
    Seq::new(
        c.len(),
        |i: int| if rsi_defined(c, p, i) { Some(rsi_at(c, p, i) as u64) } else { None },
    )
}

/// The breakout series of `v` with window `w`, as `volume_relative_high` returns it.
pub open spec fn breakout_series(v: Seq<u64>, w: nat) -> Seq<bool> {
    Seq::new(v.len(), |i: int| exceeds_window(v, w, i))
}

proof fn lemma_seed_bound(c: Seq<u32>, k: int, up: bool)
    requires
        0 <= k < c.len(),
    ensures
        0 <= seed_sum(c, k, up) <= k * move_bound(),
    decreases k,
{
    if k > 0 {
        lemma_seed_bound(c, k - 1, up);
    }
}

proof fn lemma_avg_bound(c: Seq<u32>, p: int, i: int, up: bool)
    requires
        0 < p <= i < c.len(),
    ensures
        0 <= wilder_avg(c, p, i, up) <= avg_bound(),
    decreases i,
{
    let s = AVG_SCALE as int;
    let b = avg_bound();
    if i == p {
        lemma_seed_bound(c, p, up);
        let seed = seed_sum(c, p, up);
        lemma_mul_inequality(seed, p * move_bound(), s);
        let mb = move_bound();
        assert(p * mb * s == p * b) by (nonlinear_arith)
            requires
                b == mb * s,
        ;
        lemma_div_is_ordered(0, seed * s, p);
        lemma_div_is_ordered(seed * s, p * b, p);
        lemma_div_multiples_vanish(b, p);
    } else {
        lemma_avg_bound(c, p, i - 1, up);
        let prev = wilder_avg(c, p, i - 1, up);
        let m = move_at(c, i, up);
        lemma_mul_inequality(prev, b, p - 1);
        lemma_mul_inequality(m, move_bound(), s);
        assert(b * (p - 1) + b == p * b) by (nonlinear_arith);
        assert(0 <= prev * (p - 1)) by (nonlinear_arith)
            requires
                prev >= 0,
                p >= 1,
        ;
        lemma_div_is_ordered(0, prev * (p - 1) + m * s, p);
        lemma_div_is_ordered(prev * (p - 1) + m * s, p * b, p);
        lemma_div_multiples_vanish(b, p);
    }
}

proof fn lemma_rsi_range(gain: int, loss: int)
    requires
        gain >= 0,
        loss >= 0,
    ensures
        0 <= rsi_value(gain, loss) <= RSI_SCALE,
{
    if loss != 0 {
        let s = RSI_SCALE as int;
        assert(0 <= (s * gain) / (gain + loss) <= s) by (nonlinear_arith)
            requires
                gain >= 0,
                loss > 0,
                s >= 0,
        ;
    }
}

fn rsi_of(gain: u128, loss: u128) -> (r: u64)
    requires
        gain <= avg_bound(),
        loss <= avg_bound(),
    ensures
        r as int == rsi_value(gain as int, loss as int),
        r <= RSI_SCALE,
{
    proof {
        lemma_rsi_range(gain as int, loss as int);
    }
    if loss == 0 {
        RSI_SCALE
    } else {
        ((RSI_SCALE as u128 * gain) / (gain + loss)) as u64
    }
}

/// The upward and the downward move into bar `i`.
fn moves(closes: &[u32], i: usize) -> (r: (u128, u128))
    requires
        0 < i < closes@.len(),
    ensures
        r.0 as int == move_at(closes@, i as int, true),
        r.1 as int == move_at(closes@, i as int, false),
        r.0 < move_bound(),
        r.1 < move_bound(),
{
    let prev = closes[i - 1];
    let cur = closes[i];
    if cur >= prev {
        ((cur - prev) as u128, 0)
    } else {
        (0, (prev - cur) as u128)
    }
}

/// Wilder's smoothed average gain and average loss for each bar, with the
/// given period, in millionths of a tick. Entries before index `period` are
/// `None`; when there are fewer than `period + 1` closes, or `period` is zero,
/// every entry is `None`.
pub fn wilder_averages(closes: &[u32], period: usize) -> (r: Vec<Option<(u128, u128)>>)
    ensures
        r@ == averages_series(closes@, period as int),
        averages_in_range(r@),
{
    let n: usize = closes.len();
    let mut res: Vec<Option<(u128, u128)>> = Vec::new();
    if period == 0 || n <= period {
        let mut i: usize = 0;
        while i < n
            invariant
                n == closes@.len(),
                period == 0 || n <= period,
                i <= n,
                res@ =~= averages_series(closes@, period as int).take(i as int),
            decreases n - i,
        {
            res.push(None);
            i = i + 1;
        }
        return res;
    }
    let mut i: usize = 0;
    while i < period
        invariant
            n == closes@.len(),
            0 < period < n,
            i <= period,
            res@ =~= averages_series(closes@, period as int).take(i as int),
        decreases period - i,
    {
        res.push(None);
        i = i + 1;
    }
    let mut gains: u128 = 0;
    let mut losses: u128 = 0;
    let mut k: usize = 1;
    while k <= period
        invariant
            n == closes@.len(),
            0 < period < n,
            1 <= k <= period + 1,
            gains as int == seed_sum(closes@, k - 1, true),
            losses as int == seed_sum(closes@, k - 1, false),
        decreases period + 1 - k,
    {
        proof {
            lemma_seed_bound(closes@, k - 1, true);
            lemma_seed_bound(closes@, k - 1, false);
        }
        let (up, down) = moves(closes, k);
        gains = gains + up;
        losses = losses + down;
        k = k + 1;
    }
    let p: u128 = period as u128;
    proof {
        lemma_seed_bound(closes@, period as int, true);
        lemma_seed_bound(closes@, period as int, false);
        lemma_avg_bound(closes@, period as int, period as int, true);
        lemma_avg_bound(closes@, period as int, period as int, false);
    }
    let mut avg_gain: u128 = gains * AVG_SCALE / p;
    let mut avg_loss: u128 = losses * AVG_SCALE / p;
    res.push(Some((avg_gain, avg_loss)));
    let mut i: usize = period + 1;
    while i < n
        invariant
            n == closes@.len(),
            0 < period < n,
            p == period,
            period < i <= n,
            avg_gain as int == wilder_avg(closes@, period as int, i - 1, true),
            avg_loss as int == wilder_avg(closes@, period as int, i - 1, false),
            res@ =~= averages_series(closes@, period as int).take(i as int),
        decreases n - i,
    {
        proof {
            lemma_avg_bound(closes@, period as int, i - 1, true);
            lemma_avg_bound(closes@, period as int, i - 1, false);
            lemma_avg_bound(closes@, period as int, i as int, true);
            lemma_avg_bound(closes@, period as int, i as int, false);
            let ab = avg_bound();
            let pp = p as int;
            lemma_mul_inequality(avg_gain as int, ab, pp - 1);
            lemma_mul_inequality(avg_loss as int, ab, pp - 1);
            lemma_mul_inequality(pp - 1, 0x1_0000_0000_0000_0000, ab);
            assert(ab * (pp - 1) == (pp - 1) * ab) by (nonlinear_arith);
        }
        let (up, down) = moves(closes, i);
        proof {
            lemma_mul_inequality(up as int, move_bound(), AVG_SCALE as int);
            lemma_mul_inequality(down as int, move_bound(), AVG_SCALE as int);
        }
        avg_gain = (avg_gain * (p - 1) + up * AVG_SCALE) / p;
        avg_loss = (avg_loss * (p - 1) + down * AVG_SCALE) / p;
        res.push(Some((avg_gain, avg_loss)));
        i = i + 1;
    }
    proof {
        assert(res@ =~= averages_series(closes@, period as int));
        assert forall|j: int| 0 <= j < res@.len() && #[trigger] res@[j] is Some implies (res@[j]->0).0
            <= avg_bound() && (res@[j]->0).1 <= avg_bound() by {
            lemma_avg_bound(closes@, period as int, j, true);
            lemma_avg_bound(closes@, period as int, j, false);
        }
    }
    res
}

/// Relative Strength Index with the given period, in hundredths of a point,
/// from `wilder_averages`. Entries before index `period` are `None`; when
/// there are fewer than `period + 1` closes, or `period` is zero, every entry
/// is `None`.
pub fn compute_rsi(closes: &[u32], period: usize) -> (r: Vec<Option<u64>>)
    ensures
        r@ == rsi_series(closes@, period as int),
        r@.len() == closes@.len(),
        forall|i: int| 0 <= i < r@.len() && i < period ==> r@[i] is None,
        forall|i: int| 0 <= i < r@.len() && r@[i] is Some ==> r@[i]->0 <= RSI_SCALE,
{
    let avgs = wilder_averages(closes, period);
    let n: usize = avgs.len();
    let mut res: Vec<Option<u64>> = Vec::new();
    let mut i: usize = 0;
    while i < n
        invariant
            n == closes@.len(),
            avgs@ == averages_series(closes@, period as int),
            averages_in_range(avgs@),
            i <= n,
            res@ =~= rsi_series(closes@, period as int).take(i as int),
            forall|k: int| 0 <= k < i && res@[k] is Some ==> res@[k]->0 <= RSI_SCALE,
        decreases n - i,
    {
        match avgs[i] {
            Some((g, l)) => {
                assert(avgs@[i as int] is Some);
                proof {
                    lemma_avg_bound(closes@, period as int, i as int, true);
                    lemma_avg_bound(closes@, period as int, i as int, false);
                }
                res.push(Some(rsi_of(g, l)));
            },
            None => {
                res.push(None);
            },
        }
        i = i + 1;
    }
    assert(res@ =~= rsi_series(closes@, period as int));
    res
}

} // verus!
