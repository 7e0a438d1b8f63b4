//! Points in time.

use vstd::prelude::*;

use crate::clock::Clock;

verus! {

/// The first second of the calendar.
pub const CALENDAR_FIRST_SECS: i64 = -8_334_601_228_800;

/// The last second of the calendar.
pub const CALENDAR_LAST_SECS: i64 = 8_210_266_876_799;

/// The nanoseconds of a second.
pub const NANOS_PER_SEC: u64 = 1_000_000_000;

/// A point in time: seconds since the Unix epoch and nanoseconds into that second.
#[derive(Clone, Copy, Debug, PartialEq, Eq, Structural)]
pub struct Timestamp {
    pub secs: i64,
    pub nanos: u32,
}

/// The nanoseconds from the epoch to `t`.
pub open spec fn nanos_of(t: Timestamp) -> int {
    t.secs * 1_000_000_000 + t.nanos
}

impl Timestamp {
    /// Whether this is a time of the calendar, with a minute to spare before its end.
    pub open spec fn on_calendar(self) -> bool {
        &&& CALENDAR_FIRST_SECS <= self.secs
        &&& self.secs + 60 <= CALENDAR_LAST_SECS
        &&& self.nanos < 1_000_000_000
    }

    /// What the system clock can read: a time of the calendar from the epoch on.
    pub open spec fn clock_reading(self) -> bool {
        0 <= self.secs <= CALENDAR_LAST_SECS && self.nanos < 1_000_000_000
    }

    /// Whether this time is `other` or before it.
    pub open spec fn at_or_before(self, other: Timestamp) -> bool {
        self.secs < other.secs || (self.secs == other.secs && self.nanos <= other.nanos)
    }

    /// Whether this time is before `other`.
    pub open spec fn before(self, other: Timestamp) -> bool {
        self.secs < other.secs || (self.secs == other.secs && self.nanos < other.nanos)
    }

    /// This time moved on by `secs` seconds.
    pub open spec fn plus_secs(self, secs: int) -> Timestamp {
        Timestamp { secs: (self.secs + secs) as i64, nanos: self.nanos }
    }

    /// This time moved on by `millis` milliseconds.
    pub open spec fn plus_millis(self, millis: nat) -> Timestamp {
        let nanos = self.nanos + (millis % 1000) * 1_000_000;
        Timestamp {
            secs: (self.secs + millis / 1000 + nanos / 1_000_000_000) as i64,
            nanos: (nanos % 1_000_000_000) as u32,
        }
    }

    /// Whether the calendar still holds the time `millis` milliseconds from here.
    pub open spec fn room_for_millis(self, millis: nat) -> bool {
        self.on_calendar() && self.secs + millis / 1000 + 1 <= CALENDAR_LAST_SECS
    }

    /// Tests `on_calendar`.
    pub fn is_on_calendar(&self) -> (r: bool)
        ensures
            r == self.on_calendar(),
    {
        CALENDAR_FIRST_SECS <= self.secs && self.secs <= CALENDAR_LAST_SECS - 60 && self.nanos
            < 1_000_000_000
    }

    /// Tests `room_for_millis`.
    pub fn has_room_for_millis(&self, millis: u64) -> (r: bool)
        ensures
            r == self.room_for_millis(millis as nat),
    {
        self.is_on_calendar() && millis / 1000 <= (CALENDAR_LAST_SECS - 1 - self.secs) as u64
    }

    /// Whether this time is `other` or before it.
    pub fn le(&self, other: &Timestamp) -> (r: bool)
        ensures
            r == self.at_or_before(*other),
    {
        self.secs < other.secs || (self.secs == other.secs && self.nanos <= other.nanos)
    }

    /// Whether this time is before `other`.
    pub fn lt(&self, other: &Timestamp) -> (r: bool)
        ensures
            r == self.before(*other),
    {
        self.secs < other.secs || (self.secs == other.secs && self.nanos < other.nanos)
    }

    /// This time moved on by a number of seconds.
    pub fn add_secs(&self, secs: u32) -> (r: Timestamp)
        requires
            self.secs + secs <= i64::MAX,
        ensures
            r == self.plus_secs(secs as int),
            r.secs == self.secs + secs,
    {
        Timestamp { secs: self.secs + secs as i64, nanos: self.nanos }
    }

    /// This time moved on by a number of milliseconds.
    pub fn add_millis(&self, millis: u64) -> (r: Timestamp)
        requires
            self.room_for_millis(millis as nat),
        ensures
            r == self.plus_millis(millis as nat),
            nanos_of(r) == nanos_of(*self) + millis * 1_000_000,
            r.nanos < 1_000_000_000,
    {
        let whole: u64 = millis / 1000;
        let nanos: u64 = self.nanos as u64 + (millis % 1000) * 1_000_000;
        let carry: u64 = nanos / 1_000_000_000;
        Timestamp {
            secs: self.secs + whole as i64 + carry as i64,
            nanos: (nanos % 1_000_000_000) as u32,
        }
    }

    /// The time now, as `chrono::Utc::now` reads it off the system clock. Claimed: it is not
    /// before the epoch, it is not after the end of the calendar, and its nanoseconds are less
    /// than a second. It is another time at each call, and the record says which. The call
    /// panics where the clock is set to a time before the epoch.
    #[verifier::external_body]
    pub(crate) fn utc_now(clock: &mut Clock) -> (r: Timestamp)
        ensures
            r.clock_reading(),
            final(clock)@ == old(clock)@.push(r),
    {
        let now = chrono::Utc::now();
        Timestamp { secs: now.timestamp(), nanos: now.timestamp_subsec_nanos() }
    }

    /// A reading of a clock, where it is a time of the calendar.
    pub fn if_on_calendar(self) -> (r: Option<Timestamp>)
        ensures
            r == (if self.on_calendar() {
                Some(self)
            } else {
                None
            }),
    {
        if self.is_on_calendar() {
            Some(self)
        } else {
            None
        }
    }

    /// Reads the system clock once.
    pub(crate) fn read_clock() -> (r: Timestamp)
        ensures
            r.clock_reading(),
            r.was_read(),
    {
        let mut clock = Clock::new();
        let now = Timestamp::utc_now(&mut clock);
        proof {
            assert(clock@[0] == now);
            clock.lemma_read(now);
        }
        now
    }

    /// The time now, as `if_on_calendar` takes the reading of the system clock: `None` where
    /// the clock is set to the last minute of the calendar.
    pub fn now() -> (r: Option<Timestamp>)
        ensures
            exists|t: Timestamp| #[trigger]
                t.was_read() && t.clock_reading() && r == (if t.on_calendar() {
                    Some(t)
                } else {
                    None
                }),
    {
        Timestamp::read_clock().if_on_calendar()
    }
}

/// The time that `chrono::DateTime::parse_from_rfc3339` reads out of a text, in UTC;
/// `None` where it reports an error.
pub uninterp spec fn rfc3339_time(s: Seq<char>) -> Option<Timestamp>;

/// Calls `chrono::DateTime::parse_from_rfc3339`. Claimed: the result is `rfc3339_time`
/// of the text, that is, it depends on the text alone.
#[verifier::external_body]
pub(crate) fn parse_rfc3339(s: &str) -> (r: Option<Timestamp>)
    ensures
        r == rfc3339_time(s@),
{
    match chrono::DateTime::parse_from_rfc3339(s) {
        Ok(t) => Some(Timestamp { secs: t.timestamp(), nanos: t.timestamp_subsec_nanos() }),
        Err(_) => None,
    }
}

/// Any two times are ordered one way or the other, and both ways only where they are the same.
pub proof fn law_times_are_totally_ordered(a: Timestamp, b: Timestamp, c: Timestamp)
    ensures
        a.at_or_before(b) || b.at_or_before(a),
        a.at_or_before(b) && b.at_or_before(a) ==> a == b,
        a.at_or_before(b) && b.at_or_before(c) ==> a.at_or_before(c),
        a.before(b) <==> !b.at_or_before(a),
{
}

/// Times are ordered as the numbers of nanoseconds that they stand for.
pub proof fn law_times_are_ordered_as_numbers(a: Timestamp, b: Timestamp)
    requires
        a.nanos < 1_000_000_000,
        b.nanos < 1_000_000_000,
    ensures
        a.at_or_before(b) <==> a.secs * 1_000_000_000 + a.nanos <= b.secs * 1_000_000_000 + b.nanos,
        a.before(b) <==> a.secs * 1_000_000_000 + a.nanos < b.secs * 1_000_000_000 + b.nanos,
        nanos_of(a) == a.secs * 1_000_000_000 + a.nanos,
{
}

/// A time that is moved on lies as much later as it was moved.
pub proof fn law_times_move_on_by_as_much(t: Timestamp, secs: int, millis: nat)
    requires
        t.nanos < 1_000_000_000,
        i64::MIN <= t.secs + secs <= i64::MAX,
        t.secs + millis / 1000 + 1 <= i64::MAX,
    ensures
        t.plus_secs(secs).secs == t.secs + secs,
        t.plus_secs(secs).nanos == t.nanos,
        t.plus_millis(millis).nanos < 1_000_000_000,
        t.plus_millis(millis).secs * 1_000_000_000 + t.plus_millis(millis).nanos == t.secs
            * 1_000_000_000 + t.nanos + millis * 1_000_000,
{
}

/// The calendar ends where the year 262142 does; a time on it is a minute before that.
pub proof fn law_calendar_ends(t: Timestamp, millis: nat)
    ensures
        t.on_calendar() <==> -8_334_601_228_800 <= t.secs <= 8_210_266_876_739 && t.nanos
            < 1_000_000_000,
        t.room_for_millis(millis) <==> t.on_calendar() && t.secs + millis / 1000
            <= 8_210_266_876_798,
        t.clock_reading() <==> 0 <= t.secs <= 8_210_266_876_799 && t.nanos < 1_000_000_000,
{
}

} // verus!
