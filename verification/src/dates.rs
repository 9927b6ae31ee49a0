//! Times for display.

use chrono::{DateTime, FixedOffset, Local};
use crate::listing::Stamp;
use crate::text::owned;
use vstd::prelude::*;

verus! {

/// The first second that a calendar date can be given to.
pub const FIRST_SECOND: i64 = -8_334_601_228_800;

/// The last second that a calendar date can be given to.
pub const LAST_SECOND: i64 = 8_210_266_876_799;

impl Stamp {
    /// Whether the time can be given a calendar date.
    pub open spec fn datable(self) -> bool {
        FIRST_SECOND <= self.secs <= LAST_SECOND && self.nanos < 1_000_000_000
    }
}

/// The text that formatting gives for a time in a zone `east` seconds east of
/// Greenwich: month, day, year, hour, minute and half of the day.
pub uninterp spec fn date_text(secs: int, nanos: int, east: int) -> Seq<char>;

/// Calls `chrono::DateTime::with_timezone` for the zone of the machine and reads
/// the offset. Claimed of it is only the range that `FixedOffset` keeps: which
/// offset it is rests on the settings of the machine.
#[verifier::external_body]
fn local_offset(t: Stamp) -> (r: i32)
    requires
        t.datable(),
    ensures
        -86_400 < r < 86_400,
{
    let utc = DateTime::from_timestamp(t.secs, t.nanos).unwrap();
    utc.with_timezone(&Local).offset().local_minus_utc()
}

/// Calls `chrono::DateTime::format` in a fixed zone. Claimed of it is that the
/// text depends on the time and the zone alone.
#[verifier::external_body]
fn date_in_zone(t: Stamp, east: i32) -> (r: String)
    requires
        t.datable(),
        -86_400 < east < 86_400,
    ensures
        r@ == date_text(t.secs as int, t.nanos as int, east as int),
{
    let utc = DateTime::from_timestamp(t.secs, t.nanos).unwrap();
    let zone = FixedOffset::east_opt(east).unwrap();
    utc.with_timezone(&zone).format("%b %e, %Y %l:%M %p").to_string()
}

/// A time for display in a zone: `--` if there is none.
pub open spec fn date_shown(t: Option<Stamp>, east: int) -> Seq<char> {
    match t {
        Some(s) => date_text(s.secs as int, s.nanos as int, east),
        None => "--"@,
    }
}

/// A time for display in a given zone.
pub fn format_date_in(t: Option<Stamp>, east: i32) -> (r: String)
    requires
        t matches Some(s) ==> s.datable(),
        -86_400 < east < 86_400,
    ensures
        r@ == date_shown(t, east as int),
{
    match t {
        Some(s) => date_in_zone(s, east),
        None => owned("--"),
    }
}

/// A time for display in the zone of the machine.
pub fn format_date(t: Option<Stamp>) -> (r: String)
    requires
        t matches Some(s) ==> s.datable(),
    ensures
        exists|east: int| -86_400 < east < 86_400 && r@ == #[trigger] date_shown(t, east),
{
    let east: i32 = match t {
        Some(s) => local_offset(s),
        None => 0,
    };
    let r = format_date_in(t, east);
    proof {
        assert(r@ == date_shown(t, east as int));
    }
    r
}

} // verus!
