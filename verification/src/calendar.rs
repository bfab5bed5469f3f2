//! The date line of the dashboard.

use std::fmt::Write;

use vstd::prelude::*;

use crate::course::opt_text;

verus! {

/// The layout of the date line: weekday, day, month, year, hours and minutes.
pub const DATE_FORMAT: &'static str = "%A %d %B %Y %H:%M";

/// What `chrono` writes for the moment `secs` seconds after the epoch, seen at
/// `offset_secs` seconds east of UTC, in the layout `format`: `None` where the
/// offset or moment is out of `chrono`'s range or the layout cannot be written.
pub uninterp spec fn formatted_time(secs: i64, offset_secs: i32, format: Seq<char>) -> Option<
    Seq<char>,
>;

/// Trusted: `chrono::FixedOffset::east_opt(offset_secs)`,
/// `DateTime::from_timestamp(secs, 0)`, `with_timezone`, then `format(format)`
/// written into a `String`. The text is named by `formatted_time`, a function
/// of the three arguments alone; how `chrono` lays out a date is not stated.
#[verifier::external_body]
fn format_time(secs: i64, offset_secs: i32, format: &str) -> (text: Option<String>)
    ensures
        opt_text(text) == formatted_time(secs, offset_secs, format@),
{
    let offset = chrono::FixedOffset::east_opt(offset_secs)?;
    let moment = chrono::DateTime::from_timestamp(secs, 0)?.with_timezone(&offset);
    let mut text = String::new();
    write!(text, "{}", moment.format(format)).ok()?;
    Some(text)
}

/// The date line for the moment `secs` seconds after the epoch, at a local
/// offset of `offset_secs` seconds east of UTC.
pub fn date_line(secs: i64, offset_secs: i32) -> (text: Option<String>)
    ensures
        opt_text(text) == formatted_time(secs, offset_secs, DATE_FORMAT@),
{
    format_time(secs, offset_secs, DATE_FORMAT)
}

} // verus!
