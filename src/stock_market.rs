//! Daily stock prices of one company: day-over-day change, simple moving
//! averages, stock-split adjustment and the series a candlestick chart draws.
use vstd::prelude::*;

use crate::decimal::{
    checked_add, checked_div, checked_mul, checked_sub, decimal_difference, decimal_product,
    decimal_quotient, decimal_sum, fract_of, opt_view, round_dp, round_half_even, split_whole,
    trunc_of, Dec,
};
use crate::error::MathError;

verus! {

/// Most moving-average lines that one chart holds.
pub const MAX_CHART_WINDOWS: usize = 3;

/// One trading day. The date is in seconds since the Unix epoch, UTC.
pub struct StockData {
    pub date: i64,
    pub high: Dec,
    pub low: Dec,
    pub open: Dec,
    pub close: Dec,
    pub net_change: Option<Dec>,
    pub net_change_percent: Option<Dec>,
}

impl StockData {
    pub open spec fn wf(self) -> bool {
        self.high.wf() && self.low.wf() && self.open.wf() && self.close.wf()
    }

    /// A day whose change is not computed yet.
    pub fn new(date: i64, high: Dec, low: Dec, open: Dec, close: Dec) -> (r: StockData)
        ensures
            r.date == date,
            r.high == high,
            r.low == low,
            r.open == open,
            r.close == close,
            r.net_change is None,
            r.net_change_percent is None,
    {
        StockData { date, high, low, open, close, net_change: None, net_change_percent: None }
    }
}

/// `r` rounded to two digits after the point.
pub open spec fn rounded2(r: Option<(int, int)>) -> Option<(int, int)> {
    match r {
        Some(v) => Some(round_half_even(v, 2)),
        None => None,
    }
}

/// The change from one close to the next, rounded to cents.
pub open spec fn net_change_of(prev: (int, int), cur: (int, int)) -> Option<(int, int)> {
    rounded2(decimal_difference(cur, prev))
}

/// The change from one close to the next as a percentage of the first,
/// rounded to two digits.
pub open spec fn net_change_percent_of(prev: (int, int), cur: (int, int)) -> Option<(int, int)> {
    match decimal_difference(cur, prev) {
        Some(d) => match decimal_quotient(d, prev) {
            Some(q) => rounded2(decimal_product(q, (100, 0))),
            None => None,
        },
        None => None,
    }
}

/// Day `i` of `series` with its change filled in: zero for the first day,
/// otherwise against the day before.
pub open spec fn with_change_at(series: Seq<StockData>, i: int, d: StockData) -> bool {
    let s = series[i];
    &&& d.date == s.date && d.high == s.high && d.low == s.low && d.open == s.open && d.close
        == s.close
    &&& if i == 0 {
        d.net_change == Some(Dec { mantissa: 0, scale: 0 }) && d.net_change_percent == Some(
            Dec { mantissa: 0, scale: 0 },
        )
    } else {
        opt_view(d.net_change) == net_change_of(series[i - 1].close@, s.close@) && opt_view(
            d.net_change_percent,
        ) == net_change_percent_of(series[i - 1].close@, s.close@)
    }
}

/// Index of the first day from `k` on whose date is `date`.
pub open spec fn find_date_from(series: Seq<StockData>, date: i64, k: int) -> Option<int>
    decreases series.len() - k,
{
    if k < 0 || k >= series.len() {
        None
    } else if series[k].date == date {
        Some(k)
    } else {
        find_date_from(series, date, k + 1)
    }
}

/// The closing prices.
pub open spec fn closes(series: Seq<StockData>) -> Seq<(int, int)> {
    series.map_values(|d: StockData| d.close@)
}

/// closes[0] + ... + closes[k - 1], one decimal addition at a time.
pub open spec fn close_sum(closes: Seq<(int, int)>, k: int) -> Option<(int, int)>
    decreases k,
{
    if k <= 0 {
        Some((0, 0))
    } else {
        match close_sum(closes, k - 1) {
            Some(s) => decimal_sum(s, closes[k - 1]),
            None => None,
        }
    }
}

/// The j-th simple moving average over windows of `w` days: the first is the
/// mean of the first window, each next one is the one before, less the
/// close that leaves the window over w, plus the close that enters over w;
/// each rounded to two digits.
pub open spec fn moving_average_at(closes: Seq<(int, int)>, w: int, j: int) -> Option<(int, int)>
    decreases j,
{
    if j <= 0 {
        match close_sum(closes, w) {
            Some(s) => rounded2(decimal_quotient(s, (w, 0))),
            None => None,
        }
    } else {
        match moving_average_at(closes, w, j - 1) {
            Some(prev) => match (
                decimal_quotient(closes[j - 1], (w, 0)),
                decimal_quotient(closes[j - 1 + w], (w, 0)),
            ) {
                (Some(head), Some(tail)) => match decimal_difference(prev, head) {
                    Some(d) => rounded2(decimal_sum(d, tail)),
                    None => None,
                },
                _ => None,
            },
            None => None,
        }
    }
}

/// Whether every moving average over windows of `w` days exists: the
/// window fits in the series and no decimal operation fails.
pub open spec fn averages_exist(closes: Seq<(int, int)>, w: int) -> bool {
    &&& 1 <= w <= closes.len()
    &&& forall|j: int| 0 <= j <= closes.len() - w ==> (#[trigger] moving_average_at(closes, w, j)) is Some
}

/// The windows of `ma_days[0..k]` that are not zero, in order.
pub open spec fn nonzero_windows(ma_days: Seq<u16>, k: int) -> Seq<u16>
    decreases k,
{
    if k <= 0 {
        Seq::empty()
    } else if ma_days[k - 1] > 0 {
        nonzero_windows(ma_days, k - 1).push(ma_days[k - 1])
    } else {
        nonzero_windows(ma_days, k - 1)
    }
}

/// The points of the moving-average line over windows of `w` days: each
/// average at the date of the last day of its window; no points when the
/// averages do not exist.
pub open spec fn is_average_line(series: Seq<StockData>, w: int, line: Seq<(i64, Dec)>) -> bool {
    let c = closes(series);
    if averages_exist(c, w) {
        &&& line.len() == c.len() - w + 1
        &&& forall|j: int|
            0 <= j < line.len() ==> (#[trigger] line[j]).0 == series[j + w - 1].date && Some(
                line[j].1@,
            ) == moving_average_at(c, w, j)
    } else {
        line.len() == 0
    }
}

/// `v` is the series of moving averages over windows of `w` days.
pub open spec fn is_moving_averages(closes: Seq<(int, int)>, w: int, v: Seq<Dec>) -> bool {
    &&& v.len() == closes.len() - w + 1
    &&& forall|j: int| 0 <= j < v.len() ==> moving_average_at(closes, w, j) == Some((#[trigger] v[j])@)
}

/// Two series of moving averages of the same closes and window are the
/// same, to the last digit.
pub proof fn lemma_moving_averages_unique(closes: Seq<(int, int)>, w: int, v1: Seq<Dec>, v2: Seq<Dec>)
    requires
        is_moving_averages(closes, w, v1),
        is_moving_averages(closes, w, v2),
    ensures
        v1 == v2,
{
    assert forall|j: int| 0 <= j < v1.len() implies v1[j] == v2[j] by {
        assert(moving_average_at(closes, w, j) == Some(v1[j]@));
        assert(moving_average_at(closes, w, j) == Some(v2[j]@));
    }
    assert(v1 =~= v2);
}

/// Two change series of the same days are the same, to the last digit.
pub proof fn lemma_change_series_unique(series: Seq<StockData>, v1: Seq<StockData>, v2: Seq<StockData>)
    requires
        v1.len() == series.len(),
        v2.len() == series.len(),
        forall|i: int| 0 <= i < series.len() ==> with_change_at(series, i, #[trigger] v1[i]),
        forall|i: int| 0 <= i < series.len() ==> with_change_at(series, i, #[trigger] v2[i]),
    ensures
        v1 == v2,
{
    assert forall|i: int| 0 <= i < v1.len() implies v1[i] == v2[i] by {
        assert(with_change_at(series, i, v1[i]));
        assert(with_change_at(series, i, v2[i]));
        lemma_opt_view_injective(v1[i].net_change, v2[i].net_change);
        lemma_opt_view_injective(v1[i].net_change_percent, v2[i].net_change_percent);
    }
    assert(v1 =~= v2);
}

/// Two split adjustments of the same inputs are the same, to the last digit.
pub proof fn lemma_post_split_unique(
    split_to: (int, int),
    split_from: (int, int),
    total_shares: (int, int),
    price: (int, int),
    r1: (Dec, Dec, Dec),
    r2: (Dec, Dec, Dec),
)
    requires
        post_split_of(split_to, split_from, total_shares, price) == Some((r1.0@, r1.1@, r1.2@)),
        post_split_of(split_to, split_from, total_shares, price) == Some((r2.0@, r2.1@, r2.2@)),
    ensures
        r1 == r2,
{
}

proof fn lemma_opt_view_injective(a: Option<Dec>, b: Option<Dec>)
    requires
        opt_view(a) == opt_view(b),
    ensures
        a == b,
{
}

proof fn lemma_close_sum_fails(closes: Seq<(int, int)>, k: int, w: int)
    requires
        0 <= k <= w,
        close_sum(closes, k) is None,
    ensures
        close_sum(closes, w) is None,
    decreases w - k,
{
    if k < w {
        lemma_close_sum_fails(closes, k + 1, w);
    }
}

/// After a split that turns `split_from` old shares into `split_to` new
/// ones: the whole new shares, the new price, and the cash paid for the
/// fraction of a share that is left, rounded to cents.
pub open spec fn post_split_of(
    split_to: (int, int),
    split_from: (int, int),
    total_shares: (int, int),
    price: (int, int),
) -> Option<((int, int), (int, int), (int, int))> {
    match decimal_product(total_shares, split_to) {
        Some(p) => match decimal_quotient(p, split_from) {
            Some(shares) => match decimal_product(price, split_from) {
                Some(q) => match decimal_quotient(q, split_to) {
                    Some(new_price) => match decimal_product(fract_of(shares), new_price) {
                        Some(cash) => Some((trunc_of(shares), new_price, round_half_even(cash, 2))),
                        None => None,
                    },
                    None => None,
                },
                None => None,
            },
            None => None,
        },
        None => None,
    }
}

pub struct StockInformation {
    pub company_name: String,
    pub symbol: String,
    pub stock_data_series: Vec<StockData>,
}

impl StockInformation {
    /// Every price of every day is a valid decimal.
    pub open spec fn wf(self) -> bool {
        forall|i: int|
            0 <= i < self.stock_data_series.len() ==> (#[trigger] self.stock_data_series[i]).wf()
    }

    /// A company's days, in ascending order of date.
    pub fn new(company_name: String, symbol: String, stock_data_series: Vec<StockData>) -> (r:
        StockInformation)
        ensures
            r.company_name == company_name,
            r.symbol == symbol,
            r.stock_data_series@ == stock_data_series@,
    {
        StockInformation { company_name, symbol, stock_data_series }
    }

    /// Day `i` with its change against the day before.
    fn change_at(&self, i: usize) -> (r: StockData)
        requires
            self.wf(),
            i < self.stock_data_series.len(),
        ensures
            with_change_at(self.stock_data_series@, i as int, r),
            r.wf(),
    {
        let s = &self.stock_data_series[i];
        if i == 0 {
            return StockData {
                date: s.date,
                high: s.high,
                low: s.low,
                open: s.open,
                close: s.close,
                net_change: Some(Dec::zero()),
                net_change_percent: Some(Dec::zero()),
            };
        }
        let prev = &self.stock_data_series[i - 1].close;
        let diff = checked_sub(&s.close, prev);
        let (net_change, net_change_percent) = match diff {
            Some(d) => {
                let pct = match checked_div(&d, prev) {
                    Some(q) => match checked_mul(&q, &Dec::from_u64(100)) {
                        Some(p) => Some(round_dp(&p, 2)),
                        None => None,
                    },
                    None => None,
                };
                (Some(round_dp(&d, 2)), pct)
            },
            None => (None, None),
        };
        StockData {
            date: s.date,
            high: s.high,
            low: s.low,
            open: s.open,
            close: s.close,
            net_change,
            net_change_percent,
        }
    }

    /// Every day with its change against the day before: net change and
    /// percent change of the close, rounded to two digits (zero on the first
    /// day; absent where a decimal operation has no result). `None` for no
    /// days.
    pub fn get_change_of_stock_data_series(&self) -> (r: Option<Vec<StockData>>)
        requires
            self.wf(),
        ensures
            r is None <==> self.stock_data_series.len() == 0,
            r matches Some(v) ==> v.len() == self.stock_data_series.len() && forall|i: int|
                0 <= i < v.len() ==> with_change_at(self.stock_data_series@, i, #[trigger] v[i]),
    {
        if self.stock_data_series.len() == 0 {
            return None;
        }
        let mut out: Vec<StockData> = Vec::new();
        let mut i: usize = 0;
        while i < self.stock_data_series.len()
            invariant
                self.wf(),
                i <= self.stock_data_series.len(),
                out.len() == i,
                forall|j: int|
                    0 <= j < i ==> with_change_at(self.stock_data_series@, j, #[trigger] out[j]),
            decreases self.stock_data_series.len() - i,
        {
            let d = self.change_at(i);
            out.push(d);
            i = i + 1;
        }
        Some(out)
    }

    /// The first day dated `search_date`, with its change against the day
    /// before; `None` when no day has that date.
    pub fn get_change_of_stock_data_with_given_date(&self, search_date: i64) -> (r: Option<
        StockData,
    >)
        requires
            self.wf(),
        ensures
            match find_date_from(self.stock_data_series@, search_date, 0) {
                Some(i) => r matches Some(d) && with_change_at(self.stock_data_series@, i, d),
                None => r is None,
            },
    {
        let mut i: usize = 0;
        while i < self.stock_data_series.len()
            invariant
                self.wf(),
                i <= self.stock_data_series.len(),
                find_date_from(self.stock_data_series@, search_date, 0) == find_date_from(
                    self.stock_data_series@,
                    search_date,
                    i as int,
                ),
            decreases self.stock_data_series.len() - i,
        {
            if self.stock_data_series[i].date == search_date {
                return Some(self.change_at(i));
            }
            i = i + 1;
        }
        None
    }
    /// The simple moving averages of the closes over windows of `ma_days`
    /// days, from the first full window on: `None` when the series is
    /// shorter than the window, the window is zero, or a decimal operation
    /// fails.
    pub fn get_moving_averages(&self, ma_days: u16) -> (r: Option<Vec<Dec>>)
        requires
            self.wf(),
        ensures
            ({
                let c = closes(self.stock_data_series@);
                let w = ma_days as int;
                &&& r is Some <==> averages_exist(c, w)
                &&& r matches Some(v) ==> v.len() == c.len() - w + 1 && forall|j: int|
                    0 <= j < v.len() ==> moving_average_at(c, w, j) == Some((#[trigger] v[j])@)
            }),
    {
        let ghost c = closes(self.stock_data_series@);
        let n = self.stock_data_series.len();
        let w = ma_days as usize;
        assert(c.len() == n);
        if n == 0 || w == 0 || n < w {
            return None;
        }
        let wd = Dec::from_u64(ma_days as u64);
        let mut sum = Dec::zero();
        let mut k: usize = 0;
        while k < w
            invariant
                c.len() == n,
                self.wf(),
                n == self.stock_data_series.len(),
                c == closes(self.stock_data_series@),
                k <= w <= n,
                w == ma_days,
                close_sum(c, k as int) == Some(sum@),
                sum.wf(),
            decreases w - k,
        {
            assert(c[k as int] == self.stock_data_series[k as int].close@);
            match checked_add(&sum, &self.stock_data_series[k].close) {
                Some(v) => {
                    sum = v;
                },
                None => {
                    proof {
                        lemma_close_sum_fails(c, k + 1, ma_days as int);
                        assert(moving_average_at(c, ma_days as int, 0) is None);
                    }
                    return None;
                },
            }
            k = k + 1;
        }
        let first = match checked_div(&sum, &wd) {
            Some(v) => v,
            None => {
                assert(moving_average_at(c, ma_days as int, 0) is None);
                return None;
            },
        };
        let mut out: Vec<Dec> = Vec::new();
        out.push(round_dp(&first, 2));
        let mut j: usize = 1;
        while j <= n - w
            invariant
                c.len() == n,
                self.wf(),
                n == self.stock_data_series.len(),
                c == closes(self.stock_data_series@),
                1 <= w <= n,
                w == ma_days,
                wd@ == (w as int, 0int),
                wd.wf(),
                1 <= j <= n - w + 1,
                out.len() == j,
                forall|t: int| 0 <= t < j ==> moving_average_at(c, w as int, t) == Some((#[trigger] out[t])@),
                forall|t: int| 0 <= t < j ==> (#[trigger] out[t]).wf(),
            decreases n - j,
        {
            let prev = out[j - 1];
            assert(c[j - 1] == self.stock_data_series[j - 1].close@);
            assert(c[j - 1 + w] == self.stock_data_series[j - 1 + w].close@);
            let head = checked_div(&self.stock_data_series[j - 1].close, &wd);
            let tail = checked_div(&self.stock_data_series[j - 1 + w].close, &wd);
            let next = match (head, tail) {
                (Some(h), Some(t)) => match checked_sub(&prev, &h) {
                    Some(d) => match checked_add(&d, &t) {
                        Some(v) => v,
                        None => {
                            assert(moving_average_at(c, ma_days as int, j as int) is None);
                            return None;
                        },
                    },
                    None => {
                        assert(moving_average_at(c, ma_days as int, j as int) is None);
                        return None;
                    },
                },
                _ => {
                    assert(moving_average_at(c, ma_days as int, j as int) is None);
                    return None;
                },
            };
            out.push(round_dp(&next, 2));
            j = j + 1;
        }
        proof {
            assert forall|t: int| 0 <= t <= c.len() - w implies (#[trigger] moving_average_at(
                c,
                w as int,
                t,
            )) is Some by {
                assert(moving_average_at(c, w as int, t) == Some(out[t]@));
            }
        }
        Some(out)
    }

    /// After a split that turns `split_from` old shares into `split_to` new
    /// ones: the whole new shares, the new price or dividend at full
    /// precision, and the cash for the fraction of a share left over,
    /// rounded to cents. `None` when a decimal operation fails.
    pub fn get_post_split_data(split_to: Dec, split_from: Dec, total_shares: Dec, price: Dec) -> (r:
        Option<(Dec, Dec, Dec)>)
        requires
            split_to.wf(),
            split_from.wf(),
            total_shares.wf(),
            price.wf(),
        ensures
            match post_split_of(split_to@, split_from@, total_shares@, price@) {
                Some(t) => r matches Some(v) && v.0@ == t.0 && v.1@ == t.1 && v.2@ == t.2,
                None => r is None,
            },
    {
        let p = match checked_mul(&total_shares, &split_to) {
            Some(v) => v,
            None => return None,
        };
        let shares = match checked_div(&p, &split_from) {
            Some(v) => v,
            None => return None,
        };
        let q = match checked_mul(&price, &split_from) {
            Some(v) => v,
            None => return None,
        };
        let new_price = match checked_div(&q, &split_to) {
            Some(v) => v,
            None => return None,
        };
        let (whole, fraction) = split_whole(&shares);
        let cash = match checked_mul(&fraction, &new_price) {
            Some(v) => v,
            None => return None,
        };
        Some((whole, new_price, round_dp(&cash, 2)))
    }

    /// The moving-average lines of a candlestick chart: one for each window
    /// of `ma_days` that is not zero, in order. Fails for a series with no
    /// days, or for more than three windows.
    pub fn chart_moving_averages(&self, ma_days: &Vec<u16>) -> (r: Result<
        Vec<(u16, Vec<(i64, Dec)>)>,
        MathError,
    >)
        requires
            self.wf(),
        ensures
            self.stock_data_series.len() == 0 ==> r == Err::<Vec<(u16, Vec<(i64, Dec)>)>, MathError>(
                MathError::InsufficientData,
            ),
            self.stock_data_series.len() > 0 && ma_days.len() > MAX_CHART_WINDOWS ==> r == Err::<
                Vec<(u16, Vec<(i64, Dec)>)>,
                MathError,
            >(MathError::TooManyWindows),
            self.stock_data_series.len() > 0 && ma_days.len() <= MAX_CHART_WINDOWS ==> r is Ok,
            r matches Ok(lines) ==> {
                let ws = nonzero_windows(ma_days@, ma_days.len() as int);
                &&& lines.len() == ws.len()
                &&& forall|k: int|
                    0 <= k < lines.len() ==> (#[trigger] lines[k]).0 == ws[k] && is_average_line(
                        self.stock_data_series@,
                        ws[k] as int,
                        lines[k].1@,
                    )
            },
    {
        if self.stock_data_series.len() == 0 {
            return Err(MathError::InsufficientData);
        }
        if ma_days.len() > MAX_CHART_WINDOWS {
            return Err(MathError::TooManyWindows);
        }
        let mut lines: Vec<(u16, Vec<(i64, Dec)>)> = Vec::new();
        let mut k: usize = 0;
        while k < ma_days.len()
            invariant
                self.wf(),
                k <= ma_days.len(),
                lines.len() == nonzero_windows(ma_days@, k as int).len(),
                forall|t: int|
                    0 <= t < lines.len() ==> (#[trigger] lines[t]).0 == nonzero_windows(
                        ma_days@,
                        k as int,
                    )[t] && is_average_line(
                        self.stock_data_series@,
                        nonzero_windows(ma_days@, k as int)[t] as int,
                        lines[t].1@,
                    ),
            decreases ma_days.len() - k,
        {
            let w = ma_days[k];
            if w > 0 {
                let line = self.average_line(w);
                lines.push((w, line));
            }
            k = k + 1;
        }
        Ok(lines)
    }

    /// The points of the moving-average line over windows of `w` days.
    fn average_line(&self, w: u16) -> (r: Vec<(i64, Dec)>)
        requires
            self.wf(),
        ensures
            is_average_line(self.stock_data_series@, w as int, r@),
    {
        let mut line: Vec<(i64, Dec)> = Vec::new();
        match self.get_moving_averages(w) {
            Some(avgs) => {
                let mut j: usize = 0;
                while j < avgs.len()
                    invariant
                        avgs.len() == self.stock_data_series.len() - w + 1,
                        1 <= w <= self.stock_data_series.len(),
                        j <= avgs.len(),
                        line.len() == j,
                        forall|t: int|
                            0 <= t < avgs.len() ==> moving_average_at(
                                closes(self.stock_data_series@),
                                w as int,
                                t,
                            ) == Some((#[trigger] avgs[t])@),
                        forall|t: int|
                            0 <= t < j ==> (#[trigger] line[t]).0 == self.stock_data_series[t + w
                                - 1].date && Some(line[t].1@) == moving_average_at(
                                closes(self.stock_data_series@),
                                w as int,
                                t,
                            ),
                    decreases avgs.len() - j,
                {
                    line.push((self.stock_data_series[j + w as usize - 1].date, avgs[j]));
                    j = j + 1;
                }
            },
            None => {},
        }
        line
    }
}

} // verus!
