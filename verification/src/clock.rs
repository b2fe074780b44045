//! The current time, and times as text.

use vstd::prelude::*;

verus! {

/// Calls `chrono::Utc::now` and `chrono::DateTime::timestamp`: the seconds
/// since the start of 1970. Nothing is claimed of the result.
#[verifier::external_body]
pub(crate) fn unix_seconds_now() -> (result: i64) {
    chrono::Utc::now().timestamp()
}

/// A decimal digit.
pub open spec fn is_digit(c: char) -> bool {
    '0' <= c <= '9'
}

/// A text shows hours, minutes and seconds, two digits each: hours up to 23,
/// minutes up to 59, and seconds up to 60.
pub open spec fn is_clock_text(text: Seq<char>) -> bool {
    &&& text.len() == 8
    &&& text[2] == ':' && text[5] == ':'
    &&& is_digit(text[0]) && is_digit(text[1]) && is_digit(text[3]) && is_digit(text[4])
        && is_digit(text[6]) && is_digit(text[7])
    &&& text[0] <= '1' || (text[0] == '2' && text[1] <= '3')
    &&& text[3] <= '5'
    &&& text[6] <= '5' || (text[6] == '6' && text[7] == '0')
}

/// The first and the last second that chrono can hold: the start of the year
/// -262143 and the end of the year 262142, in seconds since the start of 1970.
pub const FIRST_SECOND: i64 = -8_334_601_228_800;

pub const LAST_SECOND: i64 = 8_210_266_876_799;

/// Calls `chrono::DateTime::from_timestamp`, `with_timezone` for
/// `chrono::Local`, and `format` with `%H:%M:%S`. There is a text where chrono
/// can hold the time. Only the form of the text is claimed: the time of day
/// that it shows depends on the machine's time zone.
#[verifier::external_body]
fn local_time_text(seconds: i64) -> (result: Option<String>)
    ensures
        result is Some <==> FIRST_SECOND <= seconds <= LAST_SECOND,
        result matches Some(text) ==> is_clock_text(text@),
{
    let time = chrono::DateTime::from_timestamp(seconds, 0)?;
    Some(time.with_timezone(&chrono::Local).format("%H:%M:%S").to_string())
}

/// A time as it is shown, given its local text, if it has one.
pub fn shown_time(local: Option<String>) -> (result: String)
    ensures
        result@ == (match local {
            Some(text) => text@,
            None => "unknown"@,
        }),
{
    match local {
        Some(text) => text,
        None => "unknown".to_owned(),
    }
}

/// A text shows a time in seconds since the start of 1970: as a local time of
/// day, or as unknown where there is no such time.
pub open spec fn shows_time(text: Seq<char>, seconds: i64) -> bool {
    if FIRST_SECOND <= seconds <= LAST_SECOND {
        is_clock_text(text)
    } else {
        text == "unknown"@
    }
}

/// A time in seconds since the start of 1970 as it is shown: the local time
/// of day, or that it is not known.
pub fn format_timestamp(updated_at: i64) -> (result: String)
    ensures
        shows_time(result@, updated_at),
{
    shown_time(local_time_text(updated_at))
}

/// A time that can be held is shown as hours, minutes and seconds, two digits
/// each with a colon between; any other as unknown.
pub proof fn lemma_times_as_text(text: Seq<char>, seconds: i64)
    requires
        shows_time(text, seconds),
    ensures
        -8_334_601_228_800 <= seconds <= 8_210_266_876_799 ==> text.len() == 8 && text[2] == ':'
            && text[5] == ':' && (forall|i: int|
            0 <= i < 8 && i != 2 && i != 5 ==> '0' <= #[trigger] text[i] <= '9'),
        seconds < -8_334_601_228_800 || seconds > 8_210_266_876_799 ==> text == "unknown"@,
{
}

/// The hours that are shown go up to 23, the minutes up to 59, and the seconds
/// up to 60.
pub proof fn lemma_parts_of_a_shown_time(text: Seq<char>)
    requires
        is_clock_text(text),
    ensures
        (text[0] as int - '0' as int) * 10 + (text[1] as int - '0' as int) <= 23,
        (text[3] as int - '0' as int) * 10 + (text[4] as int - '0' as int) <= 59,
        (text[6] as int - '0' as int) * 10 + (text[7] as int - '0' as int) <= 60,
{
}

} // verus!
