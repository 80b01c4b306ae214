//! Instants and spans of time as plain integers, and the two things that
//! are asked of the calendar library: to read a date, and to tell the time.

use vstd::prelude::*;

verus! {

/// The most minutes whose milliseconds fit in 64 bits.
pub const MINUTES_MAX: i64 = 153_722_867_280_912;

/// A span of time in whole milliseconds.
#[derive(Debug, Clone, Copy, PartialEq, Eq, Structural)]
pub struct Duration {
    pub millis: i64,
}

impl Duration {
    /// The span of `n` milliseconds.
    pub fn milliseconds(n: i64) -> (d: Duration)
        ensures
            d.millis == n,
    {
        Duration { millis: n }
    }

    /// The span of `n` minutes, where its milliseconds fit.
    pub fn minutes(n: i64) -> (d: Option<Duration>)
        ensures
            d == Duration::of_minutes(n as int),
    {
        if n > MINUTES_MAX || n < -MINUTES_MAX {
            None
        } else {
            Some(Duration { millis: n * 60000 })
        }
    }

    /// The span of `n` minutes; none where its milliseconds do not fit in 64
    /// bits.
    pub open spec fn of_minutes(n: int) -> Option<Duration> {
        if i64::MIN <= n * 60000 <= i64::MAX {
            Some(Duration { millis: (n * 60000) as i64 })
        } else {
            None
        }
    }

    pub fn num_milliseconds(&self) -> (n: i64)
        ensures
            n == self.millis,
    {
        self.millis
    }
}

/// An instant with the offset from UTC that it was written in.
///
/// `seconds` counts from the Unix epoch and `nanoseconds` from the start of
/// that second; a leap second is the second before it with a thousand million
/// nanoseconds or more. `offset_seconds` is local time minus UTC, and has no
/// part in the order of instants.
#[derive(Debug, Clone, Copy, PartialEq, Eq, Structural)]
pub struct Timestamp {
    pub seconds: i64,
    pub nanoseconds: u32,
    pub offset_seconds: i32,
}

/// The format of the date at the start of a log line, such as
/// `08/Apr/2016:09:58:47 +0200`.
pub open spec fn log_time_format() -> Seq<char> {
    "%d/%b/%Y:%H:%M:%S %z"@
}

/// What `chrono::DateTime::parse_from_str` reads from `text` in the format
/// `format`: seconds since the epoch, nanoseconds within the second, and the
/// offset from UTC in seconds; none where it rejects the text.
pub uninterp spec fn chrono_parse(text: Seq<char>, format: Seq<char>) -> Option<(i64, u32, i32)>;

/// Calls `chrono::DateTime::parse_from_str` on `text` and `format`, and takes
/// from the date that it read `timestamp()`, `timestamp_subsec_nanos()` and
/// the offset's `local_minus_utc()`. The contract only gives that result its
/// name: the same text and format are read the same way every time.
#[verifier::external_body]
fn parse_date_time(text: &Vec<char>, format: &str) -> (parsed: Option<(i64, u32, i32)>)
    ensures
        parsed == chrono_parse(text@, format@),
{
    let text: String = text.iter().collect();
    match chrono::DateTime::parse_from_str(&text, format) {
        Ok(t) => Some((t.timestamp(), t.timestamp_subsec_nanos(), t.offset().local_minus_utc())),
        Err(_) => None,
    }
}

/// Reads the clock of the system with `std::time::SystemTime::now` and
/// converts the reading with chrono's `DateTime::<Utc>::from`, then takes
/// `timestamp()` and `timestamp_subsec_nanos()` of it. A clock that stands
/// before the Unix epoch gives seconds below zero. Nothing is claimed of
/// the instant; of the nanoseconds, that they are below a thousand million:
/// the conversion takes them from the fraction of a second of the reading,
/// and makes no leap second.
#[verifier::external_body]
fn current_time() -> (now: (i64, u32))
    ensures
        now.1 < 1_000_000_000,
{
    let now = chrono::DateTime::<chrono::Utc>::from(std::time::SystemTime::now());
    (now.timestamp(), now.timestamp_subsec_nanos())
}

impl Timestamp {
    /// The instant that the three numbers of a date stand for.
    pub open spec fn from_parts(parts: Option<(i64, u32, i32)>) -> Option<Timestamp> {
        match parts {
            Some(p) => Some(Timestamp { seconds: p.0, nanoseconds: p.1, offset_seconds: p.2 }),
            None => None,
        }
    }

    /// The date that `text` writes in the log's format.
    pub open spec fn parsed(text: Seq<char>) -> Option<Timestamp> {
        Timestamp::from_parts(chrono_parse(text, log_time_format()))
    }

    /// Reads a date in the log's format.
    pub fn parse(text: &Vec<char>) -> (time: Option<Timestamp>)
        ensures
            time == Timestamp::parsed(text@),
    {
        match parse_date_time(text, "%d/%b/%Y:%H:%M:%S %z") {
            Some(p) => Some(Timestamp { seconds: p.0, nanoseconds: p.1, offset_seconds: p.2 }),
            None => None,
        }
    }

    /// This instant can be a reading of the clock: it is in UTC, and a whole
    /// second with a part of it, no leap second.
    pub open spec fn is_reading(self) -> bool {
        self.offset_seconds == 0 && self.nanoseconds < 1_000_000_000
    }

    /// The present instant, in UTC, as the clock of the system tells it.
    pub fn now() -> (time: Timestamp)
        ensures
            time.is_reading(),
    {
        let now = current_time();
        Timestamp { seconds: now.0, nanoseconds: now.1, offset_seconds: 0 }
    }

    /// This instant is an earlier one than `other`: its second is an earlier
    /// one, or the same one with fewer nanoseconds.
    pub open spec fn is_before(self, other: Timestamp) -> bool {
        self.seconds < other.seconds || (self.seconds == other.seconds && self.nanoseconds
            < other.nanoseconds)
    }

    /// Whether this instant is an earlier one than `other`.
    pub fn before(&self, other: &Timestamp) -> (b: bool)
        ensures
            b == self.is_before(*other),
    {
        self.seconds < other.seconds || (self.seconds == other.seconds && self.nanoseconds
            < other.nanoseconds)
    }

    /// The nanoseconds from the epoch to this instant.
    pub open spec fn nanos_since_epoch(self) -> int {
        self.seconds * 1_000_000_000 + self.nanoseconds
    }

    /// This instant is not before the instant `nanos` nanoseconds after the
    /// epoch: its second is a later one than that instant's, or the same one
    /// with no fewer nanoseconds.
    pub open spec fn is_at_or_after(self, nanos: int) -> bool {
        let second = nanos / 1_000_000_000;
        let rest = nanos % 1_000_000_000;
        self.seconds > second || (self.seconds == second && self.nanoseconds >= rest)
    }

    /// Whether this instant is not older than `age` before `now`.
    pub fn is_within(&self, age: Duration, now: Timestamp) -> (b: bool)
        ensures
            b == self.is_at_or_after(now.nanos_since_epoch() - age.millis * 1_000_000),
    {
        let limit: i128 = now.seconds as i128 * 1_000_000_000 + now.nanoseconds as i128
            - age.millis as i128 * 1_000_000;
        // The second that holds `limit`, and what is left of it: rounded
        // towards minus infinity, as an instant's second is.
        let second: i128;
        let rest: i128;
        if limit >= 0 {
            second = limit / 1_000_000_000;
            rest = limit % 1_000_000_000;
        } else {
            let whole: i128 = (-limit) / 1_000_000_000;
            let part: i128 = (-limit) % 1_000_000_000;
            if part == 0 {
                second = -whole;
                rest = 0;
            } else {
                second = -whole - 1;
                rest = 1_000_000_000 - part;
            }
        }
        assert(second == (limit as int) / 1_000_000_000 && rest == (limit as int)
            % 1_000_000_000) by {
            lemma_floor_division(limit as int, 1_000_000_000, second as int, rest as int);
        }
        (self.seconds as i128) > second || (self.seconds as i128 == second
            && self.nanoseconds as i128 >= rest)
    }
}

/// An instant that is no leap second is at or after an instant of the clock
/// exactly where it is no fewer nanoseconds from the epoch: so a request is
/// within an age also where it was made exactly that age before now.
pub proof fn lemma_at_or_after_is_the_order_of_nanos(time: Timestamp, nanos: int)
    requires
        time.nanoseconds < 1_000_000_000,
    ensures
        time.is_at_or_after(nanos) <==> time.nanos_since_epoch() >= nanos,
{
    let second = nanos / 1_000_000_000;
    let rest = nanos % 1_000_000_000;
    vstd::arithmetic::div_mod::lemma_fundamental_div_mod(nanos, 1_000_000_000);
    assert(nanos == 1_000_000_000 * second + rest);
    assert(0 <= rest < 1_000_000_000);
}

/// The quotient and remainder of a division by a positive number are the only
/// `q` and `r` with `a == q * b + r` and `0 <= r < b`.
pub proof fn lemma_floor_division(a: int, b: int, q: int, r: int)
    requires
        0 < b,
        a == q * b + r,
        0 <= r < b,
    ensures
        a / b == q,
        a % b == r,
{
    vstd::arithmetic::div_mod::lemma_fundamental_div_mod_converse(a, b, q, r);
}

} // verus!
