//! Instants as plain integers, and the calls into chrono that produce or read them.
use vstd::prelude::*;

use crate::rate_limiter::RateLimitError;

verus! {

/// Nanoseconds in one second.
pub const NANOS_PER_SEC: i128 = 1_000_000_000;

/// An instant: whole seconds since the Unix epoch and the nanoseconds past them.
///
/// The nanosecond part may exceed one second during a leap second, as chrono
/// reports it; the instant's position on the time line is
/// `secs * 10^9 + nanos` in every case.
#[derive(Clone, Copy, Debug, PartialEq, Eq, Structural)]
pub struct Timestamp {
    pub secs: i64,
    pub nanos: u32,
}

impl View for Timestamp {
    type V = int;

    /// Nanoseconds since the Unix epoch.
    open spec fn view(&self) -> int {
        self.secs as int * NANOS_PER_SEC as int + self.nanos as int
    }
}

/// The second within its minute (0 to 59) of an instant.
pub open spec fn second_of_minute(t: Timestamp) -> int {
    t.secs as int % 60
}

/// The first nanosecond of the wall-clock minute that holds `t`.
pub open spec fn minute_start(t: Timestamp) -> int {
    (t.secs as int - second_of_minute(t)) * NANOS_PER_SEC as int
}

impl Timestamp {
    pub fn new(secs: i64, nanos: u32) -> (r: Timestamp)
        ensures
            r.secs == secs,
            r.nanos == nanos,
    {
        Timestamp { secs, nanos }
    }

    /// Nanoseconds since the Unix epoch.
    pub fn as_nanos(&self) -> (r: i128)
        ensures
            r == self@,
    {
        let s = self.secs as i128;
        proof {
            assert(-0x8000_0000_0000_0000 <= s as int <= 0x7fff_ffff_ffff_ffff);
            assert(s as int * 1_000_000_000 <= 0x7fff_ffff_ffff_ffff * 1_000_000_000)
                by (nonlinear_arith)
                requires s as int <= 0x7fff_ffff_ffff_ffff;
            assert(s as int * 1_000_000_000 >= -0x8000_0000_0000_0000 * 1_000_000_000)
                by (nonlinear_arith)
                requires s as int >= -0x8000_0000_0000_0000;
        }
        s * NANOS_PER_SEC + self.nanos as i128
    }

    /// The second within its minute, from 0 to 59.
    pub fn second_of_minute(&self) -> (r: u32)
        ensures
            r as int == second_of_minute(*self),
            r < 60,
    {
        let m = self.secs.checked_rem_euclid(60);
        match m {
            Some(v) => v as u32,
            None => 0,
        }
    }

    /// The first nanosecond of the wall-clock minute that holds this instant.
    pub fn minute_start(&self) -> (r: i128)
        ensures
            r == minute_start(*self),
            r <= self@,
    {
        let sec = self.second_of_minute();
        let start = self.secs as i128 - sec as i128;
        proof {
            assert(-0x8000_0000_0000_0000 - 60 <= start as int <= 0x7fff_ffff_ffff_ffff);
            assert(start as int * 1_000_000_000 <= 0x7fff_ffff_ffff_ffff * 1_000_000_000)
                by (nonlinear_arith)
                requires start as int <= 0x7fff_ffff_ffff_ffff;
            assert(start as int * 1_000_000_000 >= (-0x8000_0000_0000_0000 - 60) * 1_000_000_000)
                by (nonlinear_arith)
                requires start as int >= -0x8000_0000_0000_0000 - 60;
        }
        start * NANOS_PER_SEC
    }
}


/// What chrono reads from a date-time text: seconds since the epoch and the
/// nanoseconds past them, or nothing when the text is not a date-time.
pub uninterp spec fn parsed_instant(s: Seq<char>) -> Option<(i64, u32)>;

/// The RFC 3339 text that chrono writes for an instant, or nothing when the
/// instant lies outside chrono's range.
pub uninterp spec fn rfc3339_text(secs: i64, nanos: u32) -> Option<Seq<char>>;

/// Relies on chrono::Utc::now: the system clock. Outside wasm it reads the
/// `Duration` of `SystemTime` since the Unix epoch, whose nanoseconds stay
/// under one second.
#[verifier::external_body]
pub(crate) fn current_time() -> (r: Timestamp)
    ensures
        r.nanos < 1_000_000_000,
{
    let now = chrono::Utc::now();
    Timestamp { secs: now.timestamp(), nanos: now.timestamp_subsec_nanos() }
}

/// Relies on chrono's `FromStr` for `DateTime<Utc>` (a relaxed RFC 3339 reader),
/// and on `timestamp` / `timestamp_subsec_nanos` to read the result back.
#[verifier::external_body]
fn parse_instant(s: &str) -> (r: Option<(i64, u32)>)
    ensures
        r == parsed_instant(s@),
{
    match s.parse::<chrono::DateTime<chrono::Utc>>() {
        Ok(d) => Some((d.timestamp(), d.timestamp_subsec_nanos())),
        Err(_) => None,
    }
}

/// Relies on chrono::DateTime::from_timestamp (nothing outside chrono's range)
/// and DateTime::to_rfc3339.
#[verifier::external_body]
fn format_instant(secs: i64, nanos: u32) -> (r: Option<String>)
    ensures
        match r {
            Some(s) => rfc3339_text(secs, nanos) == Some(s@),
            None => rfc3339_text(secs, nanos) == None::<Seq<char>>,
        },
{
    match chrono::DateTime::from_timestamp(secs, nanos) {
        Some(d) => Some(d.to_rfc3339()),
        None => None,
    }
}

/// The instant that `entry` holds, when chrono can read it.
pub open spec fn entry_instant(entry: Seq<char>) -> Option<Timestamp> {
    match parsed_instant(entry) {
        Some(p) => Some(Timestamp { secs: p.0, nanos: p.1 }),
        None => None,
    }
}

impl Timestamp {
    /// The present instant, by the system clock.
    pub fn now() -> (r: Timestamp)
        ensures
            r.nanos < 1_000_000_000,
    {
        current_time()
    }

    /// The instant written in `s`; an entry that is no date-time is corrupt data.
    pub fn parse(s: &str) -> (r: Result<Timestamp, RateLimitError>)
        ensures
            match entry_instant(s@) {
                Some(t) => r == Ok::<Timestamp, RateLimitError>(t),
                None => r == Err::<Timestamp, RateLimitError>(RateLimitError::DataCorruption),
            },
    {
        match parse_instant(s) {
            Some(p) => Ok(Timestamp { secs: p.0, nanos: p.1 }),
            None => Err(RateLimitError::DataCorruption),
        }
    }

    /// This instant in RFC 3339 form, as stored in a persistent log; nothing when
    /// chrono cannot represent it.
    pub fn to_rfc3339(&self) -> (r: Option<String>)
        ensures
            match r {
                Some(s) => rfc3339_text(self.secs, self.nanos) == Some(s@),
                None => rfc3339_text(self.secs, self.nanos) == None::<Seq<char>>,
            },
    {
        format_instant(self.secs, self.nanos)
    }
}

/// Reads each stored entry of a log as an instant, in order. Fails with
/// `DataCorruption` exactly when some entry is no date-time.
pub fn parse_log(entries: &Vec<String>) -> (r: Result<Vec<Timestamp>, RateLimitError>)
    ensures
        match r {
            Ok(log) => log.len() == entries.len() && forall|i: int|
                0 <= i < entries.len() ==> entry_instant((#[trigger] entries@[i])@) == Some(
                    log@[i],
                ),
            Err(e) => e == RateLimitError::DataCorruption && exists|i: int|
                0 <= i < entries.len() && entry_instant((#[trigger] entries@[i])@) is None,
        },
{
    let mut log: Vec<Timestamp> = Vec::new();
    let mut i: usize = 0;
    while i < entries.len()
        invariant
            i <= entries.len(),
            log.len() == i,
            forall|j: int| 0 <= j < i ==> entry_instant((#[trigger] entries@[j])@) == Some(log@[j]),
        decreases entries.len() - i,
    {
        match Timestamp::parse(entries[i].as_str()) {
            Ok(t) => log.push(t),
            Err(e) => {
                assert(entry_instant(entries@[i as int]@) is None);
                return Err(e);
            },
        }
        i = i + 1;
    }
    Ok(log)
}

} // verus!
