//! Points in time and their RFC 3339 text.

use vstd::prelude::*;

verus! {

/// The earliest second that a [`Timestamp`] can lie in.
pub const MIN_SECOND: i64 = -377705023201;

/// The latest second that a [`Timestamp`] can lie in.
pub const MAX_SECOND: i64 = 253402207200;

/// Nanoseconds in a second.
pub const NANOS_PER_SEC: i128 = 1_000_000_000;

/// Whether a number of nanoseconds since the epoch can be represented.
pub open spec fn is_instant(nanos: int) -> bool {
    MIN_SECOND * NANOS_PER_SEC <= nanos < (MAX_SECOND + 1) * NANOS_PER_SEC
}

/// The number of nanoseconds since the epoch that a timestamp text stands for, if it is one.
pub uninterp spec fn timestamp_nanosecond(text: Seq<char>) -> Option<i128>;

/// The RFC 3339 text of a number of nanoseconds since the epoch.
pub uninterp spec fn rfc3339_text(nanos: i128) -> Seq<char>;

/// `jiff::Timestamp::from_str` followed by `as_nanosecond`: which texts are timestamps and which
/// instant each stands for depends on the text alone, and the instant lies between the earliest and
/// latest one that `jiff` represents.
#[verifier::external_body]
fn parse_nanosecond(text: &str) -> (nanos: Option<i128>)
    ensures
        nanos == timestamp_nanosecond(text@),
        nanos matches Some(n) ==> is_instant(n as int),
{
    text.parse::<jiff::Timestamp>().ok().map(|t| t.as_nanosecond())
}

/// `jiff::Timestamp::to_string` of an instant: the text depends on the instant alone, has a fraction
/// just if the instant is no whole second, and parses back to the same instant.
#[verifier::external_body]
fn format_nanosecond(nanos: i128) -> (text: String)
    requires
        is_instant(nanos as int),
    ensures
        text@ == rfc3339_text(nanos),
        timestamp_nanosecond(text@) == Some(nanos),
        text@.contains('.') <==> nanos as int % NANOS_PER_SEC as int != 0,
{
    jiff::Timestamp::from_nanosecond(nanos).unwrap().to_string()
}

/// `jiff::Timestamp::now` followed by `as_nanosecond`: some number of nanoseconds since the epoch,
/// between the earliest and latest instant that `jiff` represents.
#[verifier::external_body]
fn clock_nanosecond() -> (nanos: i128)
    ensures
        is_instant(nanos as int),
{
    jiff::Timestamp::now().as_nanosecond()
}

/// A point in time.
#[derive(Clone, Copy, Debug, PartialEq, Eq)]
pub struct Timestamp {
    nanos: i128,
}

/// What a [`Timestamp`] holds: nanoseconds since the epoch.
impl View for Timestamp {
    type V = int;

    closed spec fn view(&self) -> int {
        self.nanos as int
    }
}

/// The seconds of a number of nanoseconds, without the fraction.
pub open spec fn second_of(nanos: int) -> int {
    if nanos >= 0 {
        nanos / NANOS_PER_SEC as int
    } else {
        -((-nanos) / NANOS_PER_SEC as int)
    }
}

/// The seconds of a number of nanoseconds, without the fraction.
fn to_second(nanos: i128) -> (second: i64)
    requires
        is_instant(nanos as int),
    ensures
        second == second_of(nanos as int),
        MIN_SECOND <= second <= MAX_SECOND,
{
    if nanos >= 0 {
        (nanos / NANOS_PER_SEC) as i64
    } else {
        let before: i128 = (-nanos) / NANOS_PER_SEC;
        (-before) as i64
    }
}

impl Timestamp {
    #[verifier::type_invariant]
    spec fn in_range(self) -> bool {
        is_instant(self.nanos as int)
    }

    /// The timestamp of a second since the epoch, if it can be represented.
    pub fn from_second(second: i64) -> (t: Option<Timestamp>)
        ensures
            match t {
                Some(t) => t@ == second * NANOS_PER_SEC && MIN_SECOND <= second <= MAX_SECOND,
                None => !(MIN_SECOND <= second <= MAX_SECOND),
            },
    {
        if MIN_SECOND <= second && second <= MAX_SECOND {
            Some(Timestamp { nanos: second as i128 * NANOS_PER_SEC })
        } else {
            None
        }
    }

    /// The timestamp of a number of nanoseconds since the epoch, if it can be represented.
    pub fn from_nanosecond(nanos: i128) -> (t: Option<Timestamp>)
        ensures
            match t {
                Some(t) => t@ == nanos && is_instant(nanos as int),
                None => !is_instant(nanos as int),
            },
    {
        let first = MIN_SECOND as i128 * NANOS_PER_SEC;
        let end = (MAX_SECOND as i128 + 1) * NANOS_PER_SEC;
        if first <= nanos && nanos < end {
            Some(Timestamp { nanos })
        } else {
            None
        }
    }

    /// Reads a timestamp.
    pub fn parse(text: &str) -> (t: Option<Timestamp>)
        ensures
            match t {
                Some(t) => timestamp_nanosecond(text@) matches Some(nanos) && nanos == t@,
                None => timestamp_nanosecond(text@) is None,
            },
    {
        match parse_nanosecond(text) {
            Some(nanos) => Some(Timestamp { nanos }),
            None => None,
        }
    }

    /// Nanoseconds since the epoch.
    pub fn as_nanosecond(&self) -> (nanos: i128)
        ensures
            nanos == self@,
            is_instant(nanos as int),
    {
        proof {
            use_type_invariant(self);
        }
        self.nanos
    }

    /// Seconds since the epoch, without the fraction.
    pub fn as_second(&self) -> (second: i64)
        ensures
            second == second_of(self@),
            MIN_SECOND <= second <= MAX_SECOND,
    {
        proof {
            use_type_invariant(self);
        }
        to_second(self.nanos)
    }

    /// The latest whole second that is not after the timestamp.
    pub fn truncated(&self) -> (t: Timestamp)
        ensures
            t@ % NANOS_PER_SEC as int == 0,
            t@ <= self@ < t@ + NANOS_PER_SEC,
    {
        proof {
            use_type_invariant(self);
        }
        let first = MIN_SECOND as i128 * NANOS_PER_SEC;
        let second: i128 = MIN_SECOND as i128 + (self.nanos - first) / NANOS_PER_SEC;
        Timestamp { nanos: second * NANOS_PER_SEC }
    }
}

/// The current time truncated to whole seconds, as used in Kubernetes timestamps: what
/// [`Timestamp::truncated`] makes of what the clock reads, which is some representable time.
pub fn now() -> (t: Timestamp)
    ensures
        t@ % NANOS_PER_SEC as int == 0,
        is_instant(t@),
{
    let reading = Timestamp { nanos: clock_nanosecond() };
    let t = reading.truncated();
    proof {
        use_type_invariant(&t);
    }
    t
}

/// The RFC 3339 text of a timestamp, which has a fraction just if the timestamp is no whole second,
/// reads back as the timestamp, and is zero seconds old at that time.
pub fn rfc3339(ts: Timestamp) -> (text: String)
    ensures
        text@ == rfc3339_text(ts@ as i128),
        text@.contains('.') <==> ts@ % NANOS_PER_SEC as int != 0,
        timestamp_nanosecond(text@) matches Some(nanos) && nanos == ts@,
        age_of(Some(text@), ts@) == Some(0int),
{
    proof {
        use_type_invariant(&ts);
    }
    format_nanosecond(ts.nanos)
}

/// How many seconds before `now` a timestamp text lies, fractions of a second being dropped, if it
/// is present and a timestamp.
pub open spec fn age_of(timestamp: Option<Seq<char>>, now: int) -> Option<int> {
    match timestamp {
        Some(text) => match timestamp_nanosecond(text) {
            Some(then) => Some(second_of(now) - second_of(then as int)),
            None => None,
        },
        None => None,
    }
}

/// Seconds elapsed since an RFC 3339 timestamp, or `None` if absent or unparseable.
pub fn age_secs(timestamp: Option<&str>, now: Timestamp) -> (age: Option<i64>)
    ensures
        match age {
            Some(a) => age_of(timestamp.deep_view(), now@) == Some(a as int),
            None => age_of(timestamp.deep_view(), now@) is None,
        },
{
    match timestamp {
        Some(text) => match parse_nanosecond(text) {
            Some(then) => Some(now.as_second() - to_second(then)),
            None => None,
        },
        None => None,
    }
}

/// A borrowed view of an optional string.
pub fn as_deref(text: &Option<String>) -> (r: Option<&str>)
    ensures
        r.deep_view() == text.deep_view(),
{
    match text {
        Some(t) => Some(t.as_str()),
        None => None,
    }
}

/// An error of the Kubernetes API, as far as the library tells errors apart.
#[derive(Clone, Copy, Debug, PartialEq, Eq)]
pub struct KubeError {
    /// The HTTP status that the API server answered with, if it answered.
    pub code: Option<u16>,
}

/// Whether an error is an HTTP 409 Conflict (optimistic concurrency failure).
pub fn is_conflict(err: &KubeError) -> (conflict: bool)
    ensures
        conflict == (err.code == Some(409u16)),
{
    matches!(err.code, Some(409))
}

/// Whether an error is an HTTP 404 Not Found.
pub fn is_not_found(err: &KubeError) -> (missing: bool)
    ensures
        missing == (err.code == Some(404u16)),
{
    matches!(err.code, Some(404))
}

/// Seconds are counted without their fraction: the seconds of an instant are those of the last
/// whole second towards the epoch.
pub proof fn law_seconds_drop_the_fraction(nanos: int)
    ensures
        nanos >= 0 ==> 0 <= nanos - 1_000_000_000 * second_of(nanos) < 1_000_000_000,
        nanos < 0 ==> -1_000_000_000 < nanos - 1_000_000_000 * second_of(nanos) <= 0,
{
}

/// An age is the number of seconds from a timestamp to now, if the timestamp can be read: later
/// looks at it find it older by as much as has passed.
pub proof fn law_ages_count_seconds(text: Seq<char>, now: int)
    ensures
        age_of(None, now) is None,
        age_of(Some(text), now) is Some <==> timestamp_nanosecond(text) is Some,
        timestamp_nanosecond(text) matches Some(then) ==> age_of(Some(text), now) == Some(
            second_of(now) - second_of(then as int),
        ),
        now >= 0 ==> (age_of(Some(text), now) matches Some(age) ==> age_of(
            Some(text),
            now + 1_000_000_000,
        ) == Some(age + 1)),
{
}

} // verus!
