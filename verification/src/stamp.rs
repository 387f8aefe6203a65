//! Modification times.

use vstd::prelude::*;

verus! {

/// The earliest second that a time stamp can name.
pub const FIRST_SECOND: i64 = -8_334_601_228_800;

/// The latest second that a time stamp can name.
pub const LAST_SECOND: i64 = 8_210_266_876_799;

/// The time `secs` seconds after the Unix epoch, read on a clock that is
/// `offset` seconds ahead of UTC, written as `format` says.
pub uninterp spec fn clock_text(secs: int, offset: int, format: Seq<char>) -> Seq<char>;

/// A point in time and the offset of local time from UTC that was in force.
#[derive(Clone, Copy, Debug)]
pub struct LocalTime {
    secs: i64,
    offset: i32,
}

impl LocalTime {
    /// Seconds since the Unix epoch.
    pub closed spec fn seconds(self) -> int {
        self.secs as int
    }

    /// Seconds that local time is ahead of UTC.
    pub closed spec fn offset_seconds(self) -> int {
        self.offset as int
    }

    #[verifier::type_invariant]
    spec fn inv(self) -> bool {
        &&& FIRST_SECOND <= self.secs <= LAST_SECOND
        &&& -86_400 < self.offset < 86_400
    }

    /// The time stamp of `secs` seconds after the epoch, where local time was
    /// `offset` seconds ahead of UTC. None for a time that the calendar does
    /// not reach, or an offset of a day or more.
    pub fn new(secs: i64, offset: i32) -> (r: Option<LocalTime>)
        ensures
            r is Some <==> (FIRST_SECOND <= secs <= LAST_SECOND && -86_400 < offset < 86_400),
            r matches Some(t) ==> t.seconds() == secs && t.offset_seconds() == offset,
    {
        if FIRST_SECOND <= secs && secs <= LAST_SECOND && -86_400 < offset && offset < 86_400 {
            Some(LocalTime { secs, offset })
        } else {
            None
        }
    }

    /// The local date and time, to the minute.
    pub open spec fn minute_text(self) -> Seq<char> {
        clock_text(self.seconds(), self.offset_seconds(), "%Y-%m-%d %H:%M"@)
    }

    /// The local date and time, to the second.
    pub open spec fn second_text(self) -> Seq<char> {
        clock_text(self.seconds(), self.offset_seconds(), "%Y-%m-%d %H:%M:%S"@)
    }

    /// The local date and time, to the second.
    pub fn to_second(&self) -> (r: String)
        ensures
            r@ == self.second_text(),
    {
        proof {
            use_type_invariant(&*self);
        }
        format_time(self.secs, self.offset, "%Y-%m-%d %H:%M:%S")
    }
}

/// `DateTime::format` of chrono, for a time with a fixed offset from UTC. The
/// text is a function of the time, the offset and the format, named
/// `clock_text`; nothing more is claimed of it. The bounds are those outside
/// of which `from_timestamp` and `east_opt` give nothing.
#[verifier::external_body]
fn format_time(secs: i64, offset: i32, format: &str) -> (r: String)
    requires
        FIRST_SECOND <= secs <= LAST_SECOND,
        -86_400 < offset < 86_400,
        format@ == "%Y-%m-%d %H:%M"@ || format@ == "%Y-%m-%d %H:%M:%S"@,
    ensures
        r@ == clock_text(secs as int, offset as int, format@),
{
    let zone = chrono::FixedOffset::east_opt(offset).unwrap();
    let time = chrono::DateTime::from_timestamp(secs, 0).unwrap();
    time.with_timezone(&zone).format(format).to_string()
}

/// The text of an optional time, to the minute; a dash where there is none.
pub open spec fn modified_text(t: Option<LocalTime>) -> Seq<char> {
    match t {
        Some(st) => st.minute_text(),
        None => "-"@,
    }
}

/// The text of an optional time.
pub fn fmt_modified(t: Option<LocalTime>) -> (r: String)
    ensures
        r@ == modified_text(t),
{
    match t {
        Some(st) => {
            proof {
                use_type_invariant(&st);
            }
            format_time(st.secs, st.offset, "%Y-%m-%d %H:%M")
        },
        None => "-".to_owned(),
    }
}

} // verus!
