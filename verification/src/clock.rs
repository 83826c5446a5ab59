//! Moments of creation, as the calendar and the timeline need them.
use vstd::prelude::*;

use crate::order::{before, Ranked};
use crate::text::{digit, number_of};

verus! {

/// The earliest second, counted from the start of 1970, that the calendar reaches.
pub const FIRST_SECOND: i64 = -8_334_601_228_800;

/// The last second that the calendar reaches.
pub const LAST_SECOND: i64 = 8_210_266_876_799;

/// A moment: seconds since the start of 1970 in UTC, nanoseconds on top of them, and how far
/// ahead of UTC, in seconds, the clock on the wall is. In the last second of a minute the
/// nanoseconds may run past one second: a leap second.
#[derive(Clone, Copy, Debug)]
pub struct Timestamp {
    secs: i64,
    nanos: u32,
    offset: i32,
}

/// What a timestamp stands for.
pub struct Moment {
    pub secs: int,
    pub nanos: int,
    pub offset: int,
}

/// The moments that the calendar knows.
pub open spec fn on_calendar(m: Moment) -> bool {
    &&& FIRST_SECOND <= m.secs <= LAST_SECOND
    &&& 0 <= m.nanos < 2_000_000_000
    &&& m.nanos >= 1_000_000_000 ==> m.secs % 60 == 59
    &&& -86_400 < m.offset < 86_400
}

impl View for Timestamp {
    type V = Moment;

    closed spec fn view(&self) -> Moment {
        Moment { secs: self.secs as int, nanos: self.nanos as int, offset: self.offset as int }
    }
}

/// The place of a moment in time; the clock on the wall has no part in it.
pub open spec fn moment_rank(m: Moment) -> Seq<int> {
    seq![m.secs, m.nanos]
}

/// Two decimal digits.
pub open spec fn two_digits(n: int) -> Seq<char> {
    seq![digit(n / 10), digit(n % 10)]
}

/// Hours, minutes and seconds on the wall.
pub open spec fn wall_clock(m: Moment) -> Seq<char> {
    let of_day = (m.secs + m.offset) % 86_400;
    two_digits(of_day / 3600) + seq![':'] + two_digits(of_day / 60 % 60) + seq![':'] + two_digits(
        of_day % 60 + m.nanos / 1_000_000_000,
    )
}

/// Milliseconds since the start of 1970.
pub open spec fn millis(m: Moment) -> int {
    m.secs * 1000 + m.nanos / 1_000_000
}

/// Date and time in the form of RFC 3339, as `chrono` writes it.
pub uninterp spec fn rfc3339(secs: i64, nanos: u32, offset: i32) -> Seq<char>;

/// `DateTime::format` with `%H:%M:%S`: hour, minute and second of the moment in its zone, two
/// digits each; a leap second counts as second sixty.
#[verifier::external_body]
fn format_wall_clock(secs: i64, nanos: u32, offset: i32) -> (r: String)
    requires
        on_calendar((Moment { secs: secs as int, nanos: nanos as int, offset: offset as int })),
    ensures
        r@ == wall_clock(
            (Moment { secs: secs as int, nanos: nanos as int, offset: offset as int }),
        ),
{
    let utc = chrono::DateTime::from_timestamp(secs, nanos).unwrap();
    let zone = chrono::FixedOffset::east_opt(offset).unwrap();
    utc.with_timezone(&zone).format("%H:%M:%S").to_string()
}

/// `DateTime::timestamp_millis`: the whole seconds in milliseconds, and the whole milliseconds
/// of the rest.
#[verifier::external_body]
fn timestamp_millis(secs: i64, nanos: u32) -> (ms: i64)
    requires
        on_calendar((Moment { secs: secs as int, nanos: nanos as int, offset: 0 })),
    ensures
        ms == secs * 1000 + nanos / 1_000_000,
{
    chrono::DateTime::from_timestamp(secs, nanos).unwrap().timestamp_millis()
}

/// `DateTime::to_rfc3339` writes the moment in its zone; what it writes depends on the moment
/// and the zone alone.
#[verifier::external_body]
fn to_rfc3339(secs: i64, nanos: u32, offset: i32) -> (r: String)
    requires
        on_calendar((Moment { secs: secs as int, nanos: nanos as int, offset: offset as int })),
    ensures
        r@ == rfc3339(secs, nanos, offset),
{
    let utc = chrono::DateTime::from_timestamp(secs, nanos).unwrap();
    let zone = chrono::FixedOffset::east_opt(offset).unwrap();
    utc.with_timezone(&zone).to_rfc3339()
}

impl Timestamp {
    /// Every timestamp is a moment that the calendar knows.
    #[verifier::type_invariant]
    closed spec fn valid(self) -> bool {
        on_calendar(self@)
    }

    /// Makes a timestamp of a moment that the calendar knows.
    pub fn new(secs: i64, nanos: u32, offset: i32) -> (r: Option<Timestamp>)
        ensures
            ({
                let m = Moment { secs: secs as int, nanos: nanos as int, offset: offset as int };
                match r {
                    Some(t) => on_calendar(m) && t@ == m,
                    None => !on_calendar(m),
                }
            }),
    {
        let nanos_fit = nanos < 1_000_000_000 || (nanos < 2_000_000_000 && secs_of_minute(secs)
            == 59);
        if FIRST_SECOND <= secs && secs <= LAST_SECOND && nanos_fit && -86_400 < offset && offset
            < 86_400 {
            Some(Timestamp { secs, nanos, offset })
        } else {
            None
        }
    }

    /// Hour, minute and second on the wall, for the header of a message.
    pub fn clock_text(&self) -> (r: String)
        ensures
            r@ == wall_clock(self@),
    {
        proof {
            use_type_invariant(self);
        }
        format_wall_clock(self.secs, self.nanos, self.offset)
    }

    /// Milliseconds since the start of 1970.
    pub fn as_millis(&self) -> (ms: i64)
        ensures
            ms == millis(self@),
    {
        proof {
            use_type_invariant(self);
        }
        timestamp_millis(self.secs, self.nanos)
    }

    /// Date and time in the form of RFC 3339.
    pub fn rfc3339_text(&self) -> (r: String)
        ensures
            r@ == rfc3339(self@.secs as i64, self@.nanos as u32, self@.offset as i32),
    {
        proof {
            use_type_invariant(self);
        }
        to_rfc3339(self.secs, self.nanos, self.offset)
    }
}

/// The second within its minute.
fn secs_of_minute(secs: i64) -> (s: i64)
    ensures
        s == secs as int % 60,
{
    let r = secs % 60;
    if r < 0 {
        r + 60
    } else {
        r
    }
}

impl Ranked for Timestamp {
    open spec fn rank(&self) -> Seq<int> {
        moment_rank(self@)
    }

    fn comes_before(&self, other: &Self) -> (b: bool) {
        proof {
            let a = self.rank();
            let b = other.rank();
            assert(a.drop_first() =~= seq![self@.nanos]);
            assert(b.drop_first() =~= seq![other@.nanos]);
            reveal_with_fuel(before, 3);
        }
        self.secs < other.secs || (self.secs == other.secs && self.nanos < other.nanos)
    }
}

/// A moment is not later than another: by the second, and within it by the nanosecond.
pub open spec fn earlier_or_same(a: Moment, b: Moment) -> bool {
    a.secs < b.secs || (a.secs == b.secs && a.nanos <= b.nanos)
}

/// Moments are ordered by the second and within it by the nanosecond; the clock on the wall has
/// no part in it.
pub proof fn moments_are_ordered_in_time(a: Moment, b: Moment)
    ensures
        before(moment_rank(a), moment_rank(b)) <==> a.secs < b.secs || (a.secs == b.secs && a.nanos
            < b.nanos),
        before(moment_rank(a), moment_rank(b)) <==> !earlier_or_same(b, a),
        moment_rank(a) == moment_rank(b) <==> a.secs == b.secs && a.nanos == b.nanos,
{
    let x = moment_rank(a);
    let y = moment_rank(b);
    assert(x.drop_first() =~= seq![a.nanos]);
    assert(y.drop_first() =~= seq![b.nanos]);
    assert(x[0] == a.secs && x[1] == a.nanos && y[0] == b.secs && y[1] == b.nanos);
    reveal_with_fuel(before, 3);
}

/// Every second from the first to the last of the calendar, with any nanosecond of it and any
/// offset of less than a day, is on the calendar; nanoseconds past the end of the second are so
/// only where a minute ends.
pub proof fn calendar_has_no_holes(m: Moment)
    requires
        FIRST_SECOND <= m.secs <= LAST_SECOND,
        -86_400 < m.offset < 86_400,
    ensures
        0 <= m.nanos <= 999_999_999 ==> on_calendar(m),
        1_000_000_000 <= m.nanos <= 1_999_999_999 ==> (on_calendar(m) <==> m.secs % 60 == 59),
        m.nanos < 0 || m.nanos >= 2_000_000_000 ==> !on_calendar(m),
{
}

/// The clock on the wall reads back: hours, minutes and seconds, two digits each with a colon
/// between them, make up the second of the day in its zone.
pub proof fn the_clock_reads_back(m: Moment)
    requires
        0 <= m.nanos < 1_000_000_000,
    ensures
        ({
            let t = wall_clock(m);
            let hour = number_of(t.subrange(0, 2));
            let minute = number_of(t.subrange(3, 5));
            let second = number_of(t.subrange(6, 8));
            &&& t.len() == 8
            &&& t[2] == ':' && t[5] == ':'
            &&& 0 <= hour < 24 && 0 <= minute < 60 && 0 <= second < 60
            &&& hour * 3600 + minute * 60 + second == (m.secs + m.offset) % 86_400
        }),
{
    let of_day = (m.secs + m.offset) % 86_400;
    let t = wall_clock(m);
    lemma_two_digits(of_day / 3600);
    lemma_two_digits(of_day / 60 % 60);
    lemma_two_digits(of_day % 60);
    assert(m.nanos / 1_000_000_000 == 0);
    assert(t.subrange(0, 2) =~= two_digits(of_day / 3600));
    assert(t.subrange(3, 5) =~= two_digits(of_day / 60 % 60));
    assert(t.subrange(6, 8) =~= two_digits(of_day % 60));
}

proof fn lemma_two_digits(n: int)
    requires
        0 <= n < 100,
    ensures
        two_digits(n).len() == 2,
        number_of(two_digits(n)) == n,
{
    let t = two_digits(n);
    assert(t[0] as int == 48 + n / 10 && t[1] as int == 48 + n % 10);
    assert(t.drop_last() =~= seq![t[0]]);
    assert(t.drop_last().drop_last() =~= Seq::<char>::empty());
    reveal_with_fuel(number_of, 3);
}

} // verus!
