//! Points in time, as the log stores them, and the calls into `chrono` that
//! turn them into text and back.
use vstd::prelude::*;

verus! {

/// Seconds from the epoch to the first instant that `chrono` can represent.
pub const MIN_SECONDS: i64 = -8_334_601_228_800;

/// Seconds from the epoch to the last whole second that `chrono` can represent.
pub const MAX_SECONDS: i64 = 8_210_266_876_799;

/// Nanoseconds in one second.
pub const NANOS_PER_SECOND: u32 = 1_000_000_000;

/// Seconds in one day.
pub const SECONDS_PER_DAY: i64 = 86_400;

/// Days from the epoch to the first day that `chrono` can represent.
pub const MIN_DAYS: i32 = -96_465_292;

/// Days from the epoch to the last day that `chrono` can represent.
pub const MAX_DAYS: i32 = 95_026_236;

/// How fine the timestamps of a log file are.
#[derive(Clone, Copy, Debug, PartialEq, Eq, Structural)]
pub enum Precision {
    /// `YYYY-MM-DD HH:MM`
    Minute,
    /// `YYYY-MM-DD HH:MM:SS`
    Second,
}

impl Precision {
    /// The `chrono` format of a timestamp at this precision.
    pub open spec fn pattern(self) -> Seq<char> {
        match self {
            Precision::Minute => "%F %R"@,
            Precision::Second => "%F %T"@,
        }
    }

    /// The `chrono` format of a time of day at this precision.
    pub open spec fn time_pattern(self) -> Seq<char> {
        match self {
            Precision::Minute => "%R"@,
            Precision::Second => "%T"@,
        }
    }

    /// The `chrono` format of a time of day at this precision.
    pub fn time_format(self) -> (r: &'static str)
        ensures
            r@ == self.time_pattern(),
    {
        match self {
            Precision::Minute => "%R",
            Precision::Second => "%T",
        }
    }

    /// The precision that a file of this precision may hold by mistake.
    pub open spec fn other(self) -> Precision {
        match self {
            Precision::Minute => Precision::Second,
            Precision::Second => Precision::Minute,
        }
    }

    /// The `chrono` format of a timestamp at this precision.
    pub fn format(self) -> (r: &'static str)
        ensures
            r@ == self.pattern(),
    {
        match self {
            Precision::Minute => "%F %R",
            Precision::Second => "%F %T",
        }
    }

    /// The precision that a file of this precision may hold by mistake.
    pub fn fallback(self) -> (r: Precision)
        ensures
            r == self.other(),
    {
        match self {
            Precision::Minute => Precision::Second,
            Precision::Second => Precision::Minute,
        }
    }
}

/// The formats that the library hands to `chrono`: a date and a time, or a
/// time alone, either of them with or without seconds.
pub open spec fn is_known_format(format: Seq<char>) -> bool {
    ||| format == Precision::Minute.pattern()
    ||| format == Precision::Second.pattern()
    ||| format == Precision::Minute.time_pattern()
    ||| format == Precision::Second.time_pattern()
}

/// A civil date and time without a time zone, counted in seconds from
/// 1970-01-01 00:00:00 and nanoseconds within that second.
///
/// A nanosecond count of a second or more stands for a leap second, and is
/// only possible in the last second of a minute.
#[derive(Clone, Copy, Debug, PartialEq, Eq, Structural, Hash, PartialOrd, Ord)]
pub struct Timestamp {
    secs: i64,
    nanos: u32,
}

/// Whether a pair of counts denotes a representable timestamp.
pub open spec fn in_range(secs: int, nanos: int) -> bool {
    &&& MIN_SECONDS <= secs <= MAX_SECONDS
    &&& 0 <= nanos < 2 * NANOS_PER_SECOND
    &&& nanos >= NANOS_PER_SECOND ==> secs % 60 == 59
}

/// The text that `chrono` writes for the timestamp with these counts under a format.
pub uninterp spec fn datetime_text(secs: int, nanos: int, format: Seq<char>) -> Seq<char>;

/// The timestamp that `chrono` reads from a text under a format, if it reads one.
pub uninterp spec fn datetime_value(text: Seq<char>, format: Seq<char>) -> Option<Timestamp>;

/// What `chrono` makes of a timestamp when it rounds it to the minute.
pub uninterp spec fn rounded_datetime(secs: int, nanos: int) -> Option<Timestamp>;

/// The seconds and the nanoseconds beyond them that `chrono` counts from one
/// timestamp to another.
pub uninterp spec fn elapsed_parts(from_secs: int, from_nanos: int, to_secs: int, to_nanos: int) -> (
    int,
    int,
);

/// A character that a written timestamp can hold.
pub open spec fn is_stamp_char(c: char) -> bool {
    ('0' <= c && c <= '9') || c == '-' || c == '+' || c == ':' || c == ' '
}

/// The shape of a written timestamp, as far as the line format depends on it:
/// digits, signs, colons and blanks only, no blank in front, and each blank
/// followed by something other than a hyphen.
pub open spec fn is_stamp_text(s: Seq<char>) -> bool {
    &&& s.len() > 0
    &&& s[0] != ' '
    &&& forall|i: int| 0 <= i < s.len() ==> is_stamp_char(#[trigger] s[i])
    &&& forall|i: int| 0 <= i < s.len() && #[trigger] s[i] == ' ' ==> i + 1 < s.len() && s[i + 1] != '-'
}

/// A span of time: whole seconds, and the nanoseconds beyond them. Neither
/// has another sign than the span.
#[derive(Clone, Copy, Debug, PartialEq, Eq, Structural)]
pub struct Duration {
    pub seconds: i128,
    pub subsec_nanos: i32,
}

impl Duration {
    /// The span in nanoseconds.
    pub open spec fn total_nanos(self) -> int {
        self.seconds * 1_000_000_000 + self.subsec_nanos
    }

    /// Whether the two parts of the span agree in sign, and the second is
    /// less than a second.
    pub open spec fn is_regular(self) -> bool {
        &&& -1_000_000_000 < self.subsec_nanos < 1_000_000_000
        &&& self.seconds > 0 ==> self.subsec_nanos >= 0
        &&& self.seconds < 0 ==> self.subsec_nanos <= 0
    }

    /// Whether the span is negative by a millisecond or more.
    pub open spec fn is_negative(self) -> bool {
        self.seconds * 1000 + self.whole_millis() < 0
    }

    /// The whole milliseconds of the part beyond the seconds.
    pub open spec fn whole_millis(self) -> int {
        if self.subsec_nanos >= 0 {
            self.subsec_nanos / 1_000_000
        } else {
            -((-self.subsec_nanos) / 1_000_000)
        }
    }

    /// The span of no time.
    pub fn zero() -> (r: Duration)
        ensures
            r.seconds == 0,
            r.subsec_nanos == 0,
    {
        Duration { seconds: 0, subsec_nanos: 0 }
    }

    /// Whether the span, counted in whole milliseconds, is below zero.
    pub fn has_negative_millis(&self) -> (r: bool)
        ensures
            r == self.is_negative(),
    {
        let nanos_part: i128 = (self.subsec_nanos / 1_000_000) as i128;
        if self.seconds <= -3 {
            // the part beyond the seconds is less than three seconds
            true
        } else if self.seconds >= 3 {
            false
        } else {
            self.seconds * 1000 + nanos_part < 0
        }
    }
}

impl Timestamp {
    /// Seconds since the epoch.
    pub closed spec fn secs(self) -> int {
        self.secs as int
    }

    /// Nanoseconds within the second.
    pub closed spec fn nanos(self) -> int {
        self.nanos as int
    }

    /// Whether the counts denote a representable timestamp. Those of
    /// every timestamp do.
    #[verifier::type_invariant]
    pub closed spec fn valid(self) -> bool {
        in_range(self.secs as int, self.nanos as int)
    }

    /// The timestamp with the given counts, if there is one.
    pub fn new(secs: i64, nanos: u32) -> (r: Option<Timestamp>)
        ensures
            r is Some == in_range(secs as int, nanos as int),
            r is Some ==> r.unwrap().secs() == secs && r.unwrap().nanos() == nanos,
    {
        if secs < MIN_SECONDS || secs > MAX_SECONDS {
            return None;
        }
        if nanos >= 2 * NANOS_PER_SECOND {
            return None;
        }
        // counted from the first minute of the range, so that the remainder is never negative
        let second_of_minute: i64 = (secs - MIN_SECONDS) % 60;
        if nanos >= NANOS_PER_SECOND && second_of_minute != 59 {
            return None;
        }
        Some(Timestamp { secs, nanos })
    }

    /// Seconds since the epoch.
    pub fn seconds(&self) -> (r: i64)
        ensures
            r == self.secs(),
    {
        self.secs
    }

    /// Nanoseconds within the second.
    pub fn nanoseconds(&self) -> (r: u32)
        ensures
            r == self.nanos(),
    {
        self.nanos
    }

    /// Whether the timestamp holds nothing finer than the precision can write.
    pub open spec fn at_precision(self, precision: Precision) -> bool {
        match precision {
            Precision::Minute => self.secs() % 60 == 0 && self.nanos() == 0,
            Precision::Second => self.nanos() == 0,
        }
    }

    /// Strictly earlier: by the second, then by the nanosecond.
    pub open spec fn earlier(self, other: Timestamp) -> bool {
        self.secs() < other.secs() || (self.secs() == other.secs() && self.nanos() < other.nanos())
    }

    /// The timestamp with the given counts.
    pub closed spec fn at(secs: int, nanos: int) -> Timestamp {
        Timestamp { secs: secs as i64, nanos: nanos as u32 }
    }

    /// `at` gives a timestamp its counts, as far as they fit the machine's integers.
    pub broadcast proof fn lemma_at(secs: int, nanos: int)
        requires
            i64::MIN <= secs <= i64::MAX,
            0 <= nanos <= u32::MAX,
        ensures
            (#[trigger] Timestamp::at(secs, nanos)).secs() == secs,
            Timestamp::at(secs, nanos).nanos() == nanos,
    {
    }

    /// The minute that holds the timestamp.
    pub open spec fn minute_start(self) -> Timestamp {
        Timestamp::at(self.secs() - self.secs() % 60, 0)
    }

    /// The minute nearest to the timestamp, the later one from the
    /// thirtieth second on. There is none where that minute lies behind the
    /// end of the calendar.
    pub open spec fn nearest_minute(self) -> Option<Timestamp> {
        let minute = (self.secs() + 30) / 60 * 60;
        if minute <= MAX_SECONDS {
            Some(Timestamp::at(minute, 0))
        } else {
            None
        }
    }

    /// The minute nearest to a timestamp that is no leap second, as it is
    /// found by counting in nanoseconds from the epoch. There is none where
    /// that count does not fit into 64 bits.
    pub open spec fn nearest_minute_by_nanos(self) -> Option<Timestamp> {
        let stamp = self.secs() * 1_000_000_000 + self.nanos();
        if i64::MIN <= stamp <= i64::MAX {
            Some(Timestamp::at((stamp + 30_000_000_000) / 60_000_000_000 * 60, 0))
        } else {
            None
        }
    }

    /// The timestamp rounded to the minute. For a timestamp that is no
    /// leap second this is the nearest minute. A leap second is rounded as
    /// `chrono` rounds it, and to the nearest minute where `chrono` does
    /// not.
    pub open spec fn rounded_to_minute(self) -> Option<Timestamp> {
        if self.nanos() < NANOS_PER_SECOND {
            self.nearest_minute()
        } else {
            match rounded_datetime(self.secs(), self.nanos()) {
                Some(rounded) => Some(rounded),
                None => self.nearest_minute(),
            }
        }
    }

    /// Counting in nanoseconds finds the nearest minute, where it finds one.
    pub proof fn lemma_nearest_minute_by_nanos(self)
        requires
            self.valid(),
            self.nanos() < NANOS_PER_SECOND,
            self.nearest_minute_by_nanos() is Some,
        ensures
            self.nearest_minute_by_nanos() == self.nearest_minute(),
    {
        let secs = self.secs();
        let stamp = secs * 1_000_000_000 + self.nanos();
        let q = (secs + 30) / 60;
        let r = (secs + 30) % 60;
        assert(stamp + 30_000_000_000 == q * 60_000_000_000 + (r * 1_000_000_000 + self.nanos()));
        vstd::arithmetic::div_mod::lemma_fundamental_div_mod_converse(
            stamp + 30_000_000_000,
            60_000_000_000,
            q,
            r * 1_000_000_000 + self.nanos(),
        );
    }

    /// The timestamp rounded to the minute, the later one from the
    /// thirtieth second on. There is none where that minute lies behind
    /// the end of the calendar.
    pub fn round_to_nearest_minute(&self) -> (r: Option<Timestamp>)
        ensures
            r == self.rounded_to_minute(),
            self.nanos() < NANOS_PER_SECOND ==> r == self.nearest_minute(),
    {
        proof {
            use_type_invariant(self);
        }
        match round_to_minute(*self) {
            Some(rounded) => {
                proof {
                    if self.nanos() < NANOS_PER_SECOND {
                        self.lemma_nearest_minute_by_nanos();
                    }
                }
                Some(rounded)
            },
            None => {
                // the time is too far from the epoch to be counted in nanoseconds; counted
                // from the first minute of the calendar, so that the division never rounds up
                let minutes: i64 = (self.secs - MIN_SECONDS + 30) / 60;
                let minute: i64 = MIN_SECONDS + minutes * 60;
                assert(minute == (self.secs() + 30) / 60 * 60);
                if minute <= MAX_SECONDS {
                    Some(Timestamp { secs: minute, nanos: 0 })
                } else {
                    None
                }
            },
        }
    }

    /// The day that holds the timestamp, counted from the epoch.
    pub open spec fn day(self) -> int {
        self.secs() / (SECONDS_PER_DAY as int)
    }

    /// The day that holds the timestamp.
    pub closed spec fn date_spec(self) -> Date {
        Date { days: ((self.secs as int) / (SECONDS_PER_DAY as int)) as i32 }
    }

    /// The day that holds the timestamp.
    pub fn date(&self) -> (r: Date)
        ensures
            r == self.date_spec(),
            r.days() == self.day(),
    {
        proof {
            use_type_invariant(self);
        }
        // counted from the first day of the calendar, so that the division never rounds up
        let days_in_range: i64 = (self.secs - MIN_SECONDS) / SECONDS_PER_DAY;
        Date { days: (days_in_range + (MIN_DAYS as i64)) as i32 }
    }

    /// The span from `earlier` to the timestamp where neither is a leap
    /// second: the difference of their counts.
    pub open spec fn nanos_since(self, earlier: Timestamp) -> int {
        (self.secs() - earlier.secs()) * 1_000_000_000 + (self.nanos() - earlier.nanos())
    }

    /// The span from `earlier` to the timestamp, as `chrono` counts it.
    pub open spec fn elapsed_since(self, earlier: Timestamp) -> Duration {
        let parts = elapsed_parts(earlier.secs(), earlier.nanos(), self.secs(), self.nanos());
        Duration { seconds: parts.0 as i128, subsec_nanos: parts.1 as i32 }
    }

    /// The span from `earlier` to the timestamp, negative where `earlier` is the later one.
    pub fn signed_duration_since(&self, earlier: &Timestamp) -> (r: Duration)
        ensures
            r == self.elapsed_since(*earlier),
            r.is_regular(),
            -17_000_000_000_000 < r.seconds < 17_000_000_000_000,
            self.nanos() < NANOS_PER_SECOND && earlier.nanos() < NANOS_PER_SECOND ==> r.total_nanos()
                == self.nanos_since(*earlier),
    {
        proof {
            use_type_invariant(self);
            use_type_invariant(earlier);
        }
        let (seconds, subsec_nanos) = elapsed_between(*earlier, *self);
        Duration { seconds: seconds as i128, subsec_nanos }
    }

    /// Whether the timestamp is strictly earlier than another.
    pub fn is_before(&self, other: &Timestamp) -> (r: bool)
        ensures
            r == self.earlier(*other),
    {
        self.secs < other.secs || (self.secs == other.secs && self.nanos < other.nanos)
    }

    /// The timestamp with its seconds and all below them set to zero.
    pub fn truncate_to_minute(&self) -> (r: Timestamp)
        ensures
            r == self.minute_start(),
            r.secs() == self.secs() - self.secs() % 60,
            r.nanos() == 0,
            r.at_precision(Precision::Minute),
    {
        proof {
            use_type_invariant(self);
            Timestamp::lemma_at(self.secs() - self.secs() % 60, 0);
        }
        let second_of_minute: i64 = (self.secs - MIN_SECONDS) % 60;
        Timestamp { secs: self.secs - second_of_minute, nanos: 0 }
    }
}

/// `NaiveDateTime::parse_from_str` of `chrono`: the wrapper hands over the
/// text and the format and turns the date and time that comes back into
/// counts from the epoch. The contract names what `chrono` reads and claims
/// that the counts are those of a representable timestamp.
#[verifier::external_body]
pub(crate) fn parse_datetime(text: &str, format: &str) -> (r: Option<Timestamp>)
    ensures
        r == datetime_value(text@, format@),
        r is Some ==> r.unwrap().valid(),
{
    match chrono::NaiveDateTime::parse_from_str(text, format) {
        Ok(t) => Some(Timestamp {
            secs: t.and_utc().timestamp(),
            nanos: t.and_utc().timestamp_subsec_nanos(),
        }),
        Err(_) => None,
    }
}

/// `NaiveDateTime::format` of `chrono`, for one of the formats that the
/// library uses. The contract names the text and claims three things of it
/// where the format is one of the two of the log: that it has the shape of a
/// written timestamp, and, for either format, that `chrono` reads the
/// timestamp back from it where the timestamp holds nothing finer than the
/// format writes.
#[verifier::external_body]
pub(crate) fn format_datetime(t: Timestamp, format: &str) -> (s: String)
    requires
        t.valid(),
        is_known_format(format@),
    ensures
        s@ == datetime_text(t.secs(), t.nanos(), format@),
        format@ == Precision::Minute.pattern() || format@ == Precision::Second.pattern()
            ==> is_stamp_text(s@),
        format@ == Precision::Minute.pattern() && t.at_precision(Precision::Minute)
            ==> datetime_value(s@, format@) == Some(t),
        format@ == Precision::Second.pattern() && t.at_precision(Precision::Second)
            ==> datetime_value(s@, format@) == Some(t),
{
    chrono::DateTime::from_timestamp(t.secs, t.nanos).unwrap().naive_utc().format(format).to_string()
}

/// `DurationRound::duration_round` of `chrono` with a span of one minute.
/// The contract names the result, claims that it is representable, and says
/// what it is for a timestamp that is no leap second: the nearest minute,
/// or nothing where the timestamp, counted in nanoseconds from the epoch,
/// does not fit into 64 bits.
#[verifier::external_body]
pub(crate) fn round_to_minute(t: Timestamp) -> (r: Option<Timestamp>)
    requires
        t.valid(),
    ensures
        r == rounded_datetime(t.secs(), t.nanos()),
        r is Some ==> r.unwrap().valid(),
        t.nanos() < NANOS_PER_SECOND ==> r == t.nearest_minute_by_nanos(),
{
    let naive = chrono::DateTime::from_timestamp(t.secs, t.nanos).unwrap().naive_utc();
    match chrono::DurationRound::duration_round(naive, chrono::TimeDelta::minutes(1)) {
        Ok(d) => Some(Timestamp {
            secs: d.and_utc().timestamp(),
            nanos: d.and_utc().timestamp_subsec_nanos(),
        }),
        Err(_) => None,
    }
}

/// `NaiveDateTime::signed_duration_since` of `chrono`, with `num_seconds`
/// and `subsec_nanos` of the span it gives. The contract names the two
/// parts and claims of them what `chrono` documents: that they agree in
/// sign, that the second is less than a second, that the span is no longer
/// than the calendar, and that it is the difference of the counts where
/// neither timestamp is a leap second.
#[verifier::external_body]
pub(crate) fn elapsed_between(from: Timestamp, to: Timestamp) -> (r: (i64, i32))
    requires
        from.valid(),
        to.valid(),
    ensures
        (r.0 as int, r.1 as int) == elapsed_parts(from.secs(), from.nanos(), to.secs(), to.nanos()),
        (Duration { seconds: r.0 as i128, subsec_nanos: r.1 }).is_regular(),
        -17_000_000_000_000 < r.0 < 17_000_000_000_000,
        from.nanos() < NANOS_PER_SECOND && to.nanos() < NANOS_PER_SECOND ==> r.0 * 1_000_000_000 + r.1
            == to.nanos_since(from),
{
    let start = chrono::DateTime::from_timestamp(from.secs, from.nanos).unwrap().naive_utc();
    let end = chrono::DateTime::from_timestamp(to.secs, to.nanos).unwrap().naive_utc();
    let span = end.signed_duration_since(start);
    (span.num_seconds(), span.subsec_nanos())
}

/// `Local::now` of `chrono`, as a civil time. Nothing is known of the result
/// but that it is representable.
#[verifier::external_body]
pub(crate) fn current_time() -> (r: Timestamp)
    ensures
        r.valid(),
{
    let now = chrono::Local::now().naive_local();
    Timestamp { secs: now.and_utc().timestamp(), nanos: now.and_utc().timestamp_subsec_nanos() }
}

/// A day of the calendar, counted from 1970-01-01.
#[derive(Clone, Copy, Debug, PartialEq, Eq, Structural, Hash, PartialOrd, Ord)]
pub struct Date {
    days: i32,
}

/// The first day of the month that holds the day with the given number, as
/// `chrono` gives it.
pub uninterp spec fn month_start_day(days: int) -> int;

/// The text that `chrono` writes for the day with the given number.
pub uninterp spec fn date_text(days: int) -> Seq<char>;

impl Date {
    /// Days since the epoch.
    pub closed spec fn days(self) -> int {
        self.days as int
    }

    /// Whether the day is within the calendar. Every day is.
    #[verifier::type_invariant]
    pub closed spec fn valid(self) -> bool {
        MIN_DAYS <= self.days <= MAX_DAYS
    }

    /// The day with the given number, if it is within the calendar.
    pub fn new(days: i32) -> (r: Option<Date>)
        ensures
            r is Some == (MIN_DAYS <= days <= MAX_DAYS),
            r is Some ==> r.unwrap().days() == days,
    {
        if days < MIN_DAYS || days > MAX_DAYS {
            None
        } else {
            Some(Date { days })
        }
    }

    /// Days since the epoch.
    pub fn number(&self) -> (r: i32)
        ensures
            r == self.days(),
            MIN_DAYS <= r <= MAX_DAYS,
    {
        proof {
            use_type_invariant(self);
        }
        self.days
    }

    /// How many days the day is behind the Monday of its week.
    pub fn days_from_monday(&self) -> (r: i32)
        ensures
            r == (self.days() + 3) % 7,
    {
        proof {
            use_type_invariant(self);
        }
        // the epoch was a Thursday; counted from the first day of the calendar, so that the
        // remainder is never negative
        (self.days - MIN_DAYS + 3) % 7
    }

    /// `NaiveDate::from_epoch_days` of `chrono` and the `Display` of the
    /// date it gives: the day as year, month and day. The contract names
    /// the text.
    #[verifier::external_body]
    pub(crate) fn format(&self) -> (r: String)
        requires
            self.valid(),
        ensures
            r@ == date_text(self.days()),
    {
        chrono::NaiveDate::from_epoch_days(self.days).unwrap().to_string()
    }

    /// `NaiveDate::from_epoch_days`, `Datelike::with_day` and
    /// `NaiveDate::to_epoch_days` of `chrono`: the first day of the month
    /// that holds the day. The contract names the result and claims that it
    /// is a day of the calendar, no later than the day itself and less than
    /// 31 days before it.
    #[verifier::external_body]
    pub(crate) fn month_start(&self) -> (r: Date)
        requires
            self.valid(),
        ensures
            r.days() == month_start_day(self.days()),
            r.valid(),
            self.days() - 30 <= r.days() <= self.days(),
    {
        let date = chrono::NaiveDate::from_epoch_days(self.days).unwrap();
        Date { days: chrono::Datelike::with_day(&date, 1).unwrap().to_epoch_days() }
    }
}

} // verus!
