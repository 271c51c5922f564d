use chrono::Datelike;
use vstd::prelude::*;

verus! {

/// A calendar date as year, month (1 to 12) and day of month (1 to 31).
#[derive(Clone, Copy, Debug, PartialEq, Eq, Structural)]
pub struct Date {
    pub year: i32,
    pub month: u32,
    pub day: u32,
}

/// A date whose month is 1 to 12 and whose day is 1 to 31.
pub open spec fn date_valid(d: Date) -> bool {
    1 <= d.month <= 12 && 1 <= d.day <= 31
}

/// The date that stands in for a bar whose date text cannot be read.
pub open spec fn epoch() -> Date {
    Date { year: 1970, month: 1, day: 1 }
}

/// The layout of a bar's date text: `YYYY-MM-DD`.
pub open spec fn date_format() -> Seq<char> {
    seq!['%', 'Y', '-', '%', 'm', '-', '%', 'd']
}

/// What chrono reads from `s` in the strftime layout `fmt`, if it reads a date.
pub uninterp spec fn parsed_date(s: Seq<char>, fmt: Seq<char>) -> Option<Date>;

/// Relies on chrono::NaiveDate::parse_from_str to read a date from `s` in the
/// strftime layout `fmt`; a parse error becomes `None`. Relies on
/// chrono::Datelike's `month` (1 to 12) and `day` (1 to 31) for the ranges.
#[verifier::external_body]
fn parse_date(s: &str, fmt: &str) -> (r: Option<Date>)
    ensures
        r == parsed_date(s@, fmt@),
        r is Some ==> date_valid(r->0),
{
    match chrono::NaiveDate::parse_from_str(s, fmt) {
        Ok(d) => Some(Date { year: d.year(), month: d.month(), day: d.day() }),
        Err(_) => None,
    }
}

/// The date of a bar whose date text is `s`: the parsed date, or the epoch.
pub open spec fn date_of(s: Seq<char>) -> Date {
    match parsed_date(s, date_format()) {
        Some(d) => d,
        None => epoch(),
    }
}

/// Reads a `YYYY-MM-DD` date; text that is not such a date gives 1970-01-01.
pub fn bar_date(s: &str) -> (r: Date)
    ensures
        r == date_of(s@),
        date_valid(r),
{
    let fmt: &str = "%Y-%m-%d";
    proof {
        reveal_strlit("%Y-%m-%d");
        assert(fmt@ =~= date_format());
    }
    match parse_date(s, fmt) {
        Some(d) => d,
        None => Date { year: 1970, month: 1, day: 1 },
    }
}

/// A source of IPO lock-up expirations: tells whether an instrument is, on a
/// date, within the few days before its lock-up ends.
pub trait LockupCalendar {
    /// Whether `symbol` is within its lock-up expiration window on `date`.
    spec fn in_window(&self, symbol: Seq<char>, date: Date) -> bool;

    fn is_within_lockup_window(&self, symbol: &str, date: Date) -> (r: bool)
        ensures
            r == self.in_window(symbol@, date),
    ;
}

/// An IPO with the date on which its lock-up expires.
#[derive(Clone, Debug)]
pub struct IpoInfo {
    pub symbol: String,
    pub lockup_expiration_date: Date,
}

/// A stand-in for a real IPO data feed: one instrument, `DEMO`, whose lock-up
/// expires on the day asked about.
pub fn ipo_lockup_screener_stub(today: Date) -> (r: Vec<IpoInfo>)
    ensures
        r@.len() == 1,
        r@[0].symbol@ == seq!['D', 'E', 'M', 'O'],
        r@[0].lockup_expiration_date == today,
{
    let symbol: String = "DEMO".to_owned();
    proof {
        reveal_strlit("DEMO");
    }
    let mut r: Vec<IpoInfo> = Vec::new();
    r.push(IpoInfo { symbol, lockup_expiration_date: today });
    proof {
        assert(r@[0].symbol@ =~= seq!['D', 'E', 'M', 'O']);
    }
    r
}

/// The calendar backed by `ipo_lockup_screener_stub`: every instrument counts
/// as within its window on every date, since the stub always lists an IPO.
#[derive(Clone, Copy, Debug)]
pub struct StubLockupCalendar;

impl LockupCalendar for StubLockupCalendar {
    open spec fn in_window(&self, symbol: Seq<char>, date: Date) -> bool {
        true
    }

    fn is_within_lockup_window(&self, symbol: &str, date: Date) -> (r: bool) {
        let ipos = ipo_lockup_screener_stub(date);
        ipos.len() > 0
    }
}

} // verus!
