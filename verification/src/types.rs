use vstd::prelude::*;

use crate::errors::TimeOverflow;
use crate::errors::TimeParserError;
use crate::text::int_text;
use crate::text::int_to_text;
use crate::text::lemma_int_text_clean;
use crate::text::lemma_int_text_round_trip;
use crate::text::parse_int_text;
use crate::times::Time;
use crate::times::TimeUnits;

verus! {

/// A signed span of time, stored as a count of whole seconds.
#[derive(Debug, PartialEq, Eq, PartialOrd, Ord, Clone, Copy, Structural)]
pub struct Duration {
    secs: i64,
}

/// The span holding a given count of whole seconds.
pub closed spec fn spec_duration_from_secs(n: i64) -> Duration {
    Duration { secs: n }
}

/// What `Duration::from` (and `.into()`) builds: the span of `n` seconds.
pub proof fn lemma_spec_duration_from_secs(n: i64)
    ensures
        spec_duration_from_secs(n).sec_view() == n as int,
{
}

impl TimeUnits for Duration {
    closed spec fn sec_view(&self) -> int {
        self.secs as int
    }

    fn seconds(seconds: i64) -> (r: Self) {
        Duration { secs: seconds }
    }

    fn num_seconds(&self) -> (r: i64) {
        self.secs
    }
}

impl Duration {
    /// The span of a given count of whole minutes.
    pub fn minutes(minutes: i64) -> (r: Self)
        requires
            i64::MIN <= minutes * 60 <= i64::MAX,
        ensures
            r.sec_view() == minutes * 60,
    {
        Duration { secs: minutes * 60 }
    }

    /// The span of a given count of whole hours.
    pub fn hours(hours: i64) -> (r: Self)
        requires
            i64::MIN <= hours * 3600 <= i64::MAX,
        ensures
            r.sec_view() == hours * 3600,
    {
        Duration { secs: hours * 3600 }
    }

    /// The span of a given count of whole days.
    pub fn days(days: i64) -> (r: Self)
        requires
            i64::MIN <= days * 86400 <= i64::MAX,
        ensures
            r.sec_view() == days * 86400,
    {
        Duration { secs: days * 86400 }
    }

    /// The span of a given count of whole weeks.
    pub fn weeks(weeks: i64) -> (r: Self)
        requires
            i64::MIN <= weeks * 604800 <= i64::MAX,
        ensures
            r.sec_view() == weeks * 604800,
    {
        Duration { secs: weeks * 604800 }
    }
}

impl From<i64> for Duration {
    fn from(num: i64) -> (r: Duration) {
        Duration { secs: num }
    }
}

impl vstd::std_specs::convert::FromSpecImpl<i64> for Duration {
    open spec fn obeys_from_spec() -> bool {
        true
    }

    open spec fn from_spec(v: i64) -> Duration {
        spec_duration_from_secs(v)
    }
}

/// The lowest position an integer-seconds instant can hold.  The range is
/// symmetric and leaves headroom so that the difference of any two instants
/// fits a signed span.
pub const SECONDS_MIN: i64 = -4611686018427387903;

/// The highest position an integer-seconds instant can hold.
pub const SECONDS_MAX: i64 = 4611686018427387903;

/// A bare integer-seconds instant with a fixed clock: `now` is always the
/// origin.  It renders as the decimal count of seconds, and exists so that
/// counters can be driven deterministically, as in tests.
#[derive(Debug, PartialEq, Eq, PartialOrd, Ord, Clone, Copy, Structural)]
pub struct Seconds {
    secs: i64,
}

impl Seconds {
    /// The instant at a given position.
    pub fn new(secs: i64) -> (r: Self)
        requires
            SECONDS_MIN <= secs <= SECONDS_MAX,
        ensures
            r.inv(),
            r.ts_view() == secs as int,
    {
        Seconds { secs }
    }

    /// The instant's position in whole seconds.
    pub fn value(&self) -> (r: i64)
        ensures
            r as int == self.ts_view(),
    {
        self.secs
    }
}

impl Time for Seconds {
    type Duration = Duration;

    closed spec fn inv(&self) -> bool {
        SECONDS_MIN <= self.secs <= SECONDS_MAX
    }

    closed spec fn ts_view(&self) -> int {
        self.secs as int
    }

    open spec fn in_range(n: int) -> bool {
        SECONDS_MIN <= n <= SECONDS_MAX
    }

    open spec fn render_of(n: int) -> Seq<char> {
        int_text(n)
    }

    proof fn lemma_inv_in_range(a: Self) {
    }

    proof fn lemma_view_injective(a: Self, b: Self) {
    }

    fn now() -> (r: Self) {
        Seconds { secs: 0 }
    }

    fn default_value() -> (r: Self) {
        Seconds { secs: 0 }
    }

    fn add_seconds(self, duration: Self::Duration) -> (r: Result<Self, TimeOverflow>) {
        match self.secs.checked_add(duration.num_seconds()) {
            Some(total) if SECONDS_MIN <= total && total <= SECONDS_MAX => Ok(
                Seconds { secs: total },
            ),
            _ => Err(TimeOverflow),
        }
    }

    fn diff(self, other: Self) -> (r: Self::Duration) {
        Duration { secs: self.secs - other.secs }
    }

    fn render(&self) -> (r: String) {
        proof {
            lemma_int_text_clean(self.secs as int);
        }
        int_to_text(self.secs)
    }

    fn parse(s: &str) -> (r: Result<Self, TimeParserError>) {
        match parse_int_text(s, SECONDS_MIN, SECONDS_MAX) {
            Ok(v) => {
                let r = Ok(Seconds { secs: v });
                proof {
                    assert forall|n: int|
                        Self::in_range(n) && s@ == #[trigger] Self::render_of(n) implies (
                    r matches Ok(t) && t.ts_view() == n) by {
                        lemma_int_text_round_trip(n);
                    }
                }
                r
            },
            Err(e) => {
                let r = Err::<Self, TimeParserError>(e);
                proof {
                    assert forall|n: int|
                        Self::in_range(n) && s@ == #[trigger] Self::render_of(n) implies (
                    r matches Ok(t) && t.ts_view() == n) by {
                        lemma_int_text_round_trip(n);
                    }
                }
                r
            },
        }
    }
}

/// The lowest position a calendar instant can hold:
/// `0000-01-01T00:00:00+00:00`, as seconds relative to the Unix epoch.
/// Years before 0000 or after 9999 fall outside the four-digit form of the
/// canonical calendar text, so they are not representable here.
pub const TIMESTAMP_MIN: i64 = -62167219200;

/// The highest position a calendar instant can hold:
/// `9999-12-31T23:59:59+00:00`, as seconds relative to the Unix epoch.
pub const TIMESTAMP_MAX: i64 = 253402300799;

/// The canonical calendar text (internet date-time with a UTC offset) of the
/// instant `secs` seconds after the Unix epoch.
pub uninterp spec fn rfc3339_of(secs: int) -> Seq<char>;

/// Declares the calendar library's parse error type, so the parse wrapper
/// can return it; verified code maps it to `TimeParserError`.
#[verifier::external_type_specification]
#[verifier::external_body]
pub struct ExParseError(chrono::ParseError);

/// Relies on chrono's `DateTime::<Utc>::from_timestamp`, which accepts every
/// whole-second timestamp of the years 0000 through 9999, and on
/// `DateTime::to_rfc3339`, which writes the instant as a single line,
/// determined by the instant alone.
#[verifier::external_body]
fn rfc3339_render(secs: i64) -> (r: String)
    requires
        TIMESTAMP_MIN <= secs <= TIMESTAMP_MAX,
    ensures
        r@ == rfc3339_of(secs as int),
        crate::text::line_clean(r@),
{
    chrono::DateTime::from_timestamp(secs, 0).unwrap().to_rfc3339()
}

/// Whether `r` is what parsing the text `s` as a calendar instant must
/// return: whenever `s` is the canonical text of a representable instant,
/// `r` holds exactly that instant's timestamp.
pub open spec fn canonical_parse_result(s: Seq<char>, r: Result<i64, chrono::ParseError>) -> bool {
    forall|n: int|
        TIMESTAMP_MIN <= n <= TIMESTAMP_MAX && s == #[trigger] rfc3339_of(n) ==> r == Ok::<
            i64,
            chrono::ParseError,
        >(n as i64)
}

/// Relies on chrono's `DateTime::parse_from_rfc3339` and
/// `DateTime::timestamp`: a string written by `to_rfc3339` for a
/// whole-second instant with a four-digit year parses back to the same
/// instant, whose timestamp is the one the string was written from.
#[verifier::external_body]
fn rfc3339_parse(s: &str) -> (r: Result<i64, chrono::ParseError>)
    ensures
        canonical_parse_result(s@, r),
{
    match chrono::DateTime::parse_from_rfc3339(s) {
        Ok(dt) => Ok(dt.timestamp()),
        Err(e) => Err(e),
    }
}

/// Relies on chrono's `Utc::now` and `DateTime::timestamp`: the current
/// instant is never before the Unix epoch (`Utc::now` aborts the process on
/// such a system clock rather than returning).
#[verifier::external_body]
fn utc_now_secs() -> (r: i64)
    ensures
        0 <= r,
{
    chrono::Utc::now().timestamp()
}

/// A calendar instant, held as a count of whole seconds relative to the Unix
/// epoch, covering the years 0000 through 9999.  Its canonical text is the
/// internet date-time form with a UTC offset, written and read by the
/// calendar library.
#[derive(Debug, PartialEq, Eq, PartialOrd, Ord, Clone, Copy, Structural)]
pub struct TimeStamp {
    secs: i64,
}

impl TimeStamp {
    /// The instant a given number of whole seconds after the Unix epoch.
    pub fn from_unix_seconds(secs: i64) -> (r: Self)
        requires
            TIMESTAMP_MIN <= secs <= TIMESTAMP_MAX,
        ensures
            r.inv(),
            r.ts_view() == secs as int,
    {
        TimeStamp { secs }
    }

    /// The instant's position as whole seconds relative to the Unix epoch.
    pub fn unix_seconds(&self) -> (r: i64)
        ensures
            r as int == self.ts_view(),
    {
        self.secs
    }
}

impl Time for TimeStamp {
    type Duration = Duration;

    closed spec fn inv(&self) -> bool {
        TIMESTAMP_MIN <= self.secs <= TIMESTAMP_MAX
    }

    closed spec fn ts_view(&self) -> int {
        self.secs as int
    }

    open spec fn in_range(n: int) -> bool {
        TIMESTAMP_MIN <= n <= TIMESTAMP_MAX
    }

    open spec fn render_of(n: int) -> Seq<char> {
        rfc3339_of(n)
    }

    proof fn lemma_inv_in_range(a: Self) {
    }

    proof fn lemma_view_injective(a: Self, b: Self) {
    }

    /// The current wall-clock instant, clamped to the representable range.
    fn now() -> (r: Self) {
        let secs = utc_now_secs();
        let clamped = if secs > TIMESTAMP_MAX {
            TIMESTAMP_MAX
        } else {
            secs
        };
        TimeStamp { secs: clamped }
    }

    fn default_value() -> (r: Self) {
        TimeStamp { secs: 0 }
    }

    fn add_seconds(self, duration: Self::Duration) -> (r: Result<Self, TimeOverflow>) {
        match self.secs.checked_add(duration.num_seconds()) {
            Some(total) if TIMESTAMP_MIN <= total && total <= TIMESTAMP_MAX => Ok(
                TimeStamp { secs: total },
            ),
            _ => Err(TimeOverflow),
        }
    }

    fn diff(self, other: Self) -> (r: Self::Duration) {
        Duration { secs: self.secs - other.secs }
    }

    fn render(&self) -> (r: String) {
        rfc3339_render(self.secs)
    }

    fn parse(s: &str) -> (r: Result<Self, TimeParserError>) {
        match rfc3339_parse(s) {
            Ok(v) if TIMESTAMP_MIN <= v && v <= TIMESTAMP_MAX => Ok(TimeStamp { secs: v }),
            _ => Err(TimeParserError),
        }
    }
}

} // verus!
