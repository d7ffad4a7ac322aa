//! The wall-clock text of a modification time.

use vstd::prelude::*;

verus! {

/// The layout in which the long format writes a time: the short name of the
/// month, the day of the month padded with a blank, and the hour and minute
/// of the day (`May 30 18:22`).
pub open spec fn date_layout() -> Seq<char> {
    "%b %e %H:%M"@
}

/// The shape of a time written in that layout: twelve characters, three for
/// the month, two for the day, two each for hour and minute, with blanks
/// after month and day and a colon between hour and minute.
pub open spec fn date_shaped(text: Seq<char>) -> bool {
    text.len() == 12 && text[3] == ' ' && text[6] == ' ' && text[9] == ':'
}

/// Writes an instant, given as seconds and nanoseconds since the Unix epoch,
/// in the machine's local time zone and in the layout of the long format.
///
/// Calls `chrono::DateTime::from_timestamp`, `DateTime::with_timezone` with
/// `chrono::Local`, and `DateTime::format` with the layout. The result is
/// `None` where chrono cannot represent the instant. In this layout chrono
/// writes three letters for the month, a blank, two characters for the day,
/// a blank, two digits for the hour, a colon and two digits for the minute.
/// Which month, day and time they are depends on the time zone of the
/// machine and is not claimed.
#[verifier::external_body]
pub(crate) fn local_time_text(seconds: i64, nanoseconds: u32, layout: &str) -> (text: Option<
    String,
>)
    requires
        layout@ == date_layout(),
    ensures
        text is Some ==> date_shaped(text->0@),
{
    match chrono::DateTime::from_timestamp(seconds, nanoseconds) {
        Some(utc) => Some(utc.with_timezone(&chrono::Local).format(layout).to_string()),
        None => None,
    }
}

} // verus!
