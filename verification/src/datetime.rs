//! The time of a transaction: parsing of the time cell under the layout's formats.

use vstd::prelude::*;
use polars::prelude::NewChunkedArray;
use polars::prelude::StringChunked;
use polars::prelude::StringMethods;
use crate::cell::Cell;
use crate::cell::Value;
use crate::conf::Time;

verus! {

/// The milliseconds since the Unix epoch that polars reads from `value` under the
/// strftime-style `format`, the whole of `value` being matched and the time taken
/// as it stands, without a time zone; `None` where `value` does not parse, or
/// where polars refuses `format`.
pub uninterp spec fn strptime_millis(value: Seq<char>, format: Seq<char>) -> Option<i64>;

/// Whether a character is one of the three widths of a fraction of a second.
pub open spec fn is_fraction_width(c: char) -> bool {
    c == '3' || c == '6' || c == '9'
}

/// Whether a format is one that the parser can be handed: of at most 1024
/// characters, not ending in a percent sign, and with an `f` behind every `%3`, `%6`
/// and `%9`. On other formats the parser may stop the program instead of refusing.
pub open spec fn plain_format(format: Seq<char>) -> bool {
    &&& format.len() <= 1024
    &&& format.len() > 0 ==> format.last() != '%'
    &&& forall|i: int|
        0 <= i < format.len() - 1 && format[i] == '%' && is_fraction_width(#[trigger] format[i + 1])
            ==> i + 2 < format.len() && format[i + 2] == 'f'
}

/// The time that a text holds under a format: what the parser reads, and null under
/// a format that it cannot be handed.
pub open spec fn parsed_time(text: Seq<char>, format: Seq<char>) -> Option<i64> {
    if plain_format(format) {
        strptime_millis(text, format)
    } else {
        None
    }
}

/// Tells whether a format can be handed to the parser.
pub fn is_plain_format(format: &str) -> (r: bool)
    ensures
        r == plain_format(format@),
{
    let n = format.unicode_len();
    if n > 1024 {
        return false;
    }
    if n == 0 {
        return true;
    }
    if format.get_char(n - 1) == '%' {
        return false;
    }
    let mut i: usize = 0;
    while i < n - 1
        invariant
            0 < n == format@.len(),
            i <= n - 1,
            forall|k: int|
                0 <= k < i && format@[k] == '%' && is_fraction_width(#[trigger] format@[k + 1]) ==> k
                    + 2 < format@.len() && format@[k + 2] == 'f',
        decreases n - i,
    {
        if format.get_char(i) == '%' {
            let width = format.get_char(i + 1);
            if width == '3' || width == '6' || width == '9' {
                if i + 2 >= n {
                    assert(is_fraction_width(format@[i + 1]));
                    return false;
                }
                if format.get_char(i + 2) != 'f' {
                    assert(is_fraction_width(format@[i + 1]));
                    return false;
                }
            }
        }
        i += 1;
    }
    true
}

/// Parses one value with polars' `StringMethods::as_datetime`, called on a column of
/// that single value with millisecond resolution, exact matching, no cache and no
/// time zone. The contract gives the outcome its name and claims nothing of it beyond
/// that it depends on `value` and `format` alone: polars parses with the format through
/// chrono, which reads no locale and no clock. An error of the call and a null in its
/// result both come back as `None`. The formats left out are those on which polars
/// panics: its count of the format's length expects a character behind each percent
/// sign and asserts an `f` behind `%3`, `%6` and `%9`, and it adds the lengths up in
/// 16 bits.
#[verifier::external_body]
pub(crate) fn parse_millis(value: &str, format: &str) -> (r: Option<i64>)
    requires
        plain_format(format@),
    ensures
        r == strptime_millis(value@, format@),
{
    let column = StringChunked::from_slice("value".into(), &[value]);
    let ambiguous = StringChunked::from_slice("ambiguous".into(), &["raise"]);
    let unit = polars::prelude::TimeUnit::Milliseconds;
    match column.as_datetime(Some(format), unit, false, false, None, &ambiguous) {
        Ok(parsed) => parsed.get(0),
        Err(_) => None,
    }
}

/// The first of two parse results that is not null.
pub open spec fn first_non_null(primary: Option<i64>, fallback: Option<i64>) -> Option<i64> {
    if primary is Some {
        primary
    } else {
        fallback
    }
}

/// The time of a transaction from its time cell: only text parses; the primary format
/// is preferred, the fallback format serves where the primary gives nothing, and the
/// time is null where neither parses.
pub open spec fn resolved_time(cell: Value, time: Time) -> Option<i64> {
    match cell {
        Value::Str(text) => first_non_null(
            parsed_time(text, time.fmt@),
            match time.fmt_alter {
                Some(fallback) => parsed_time(text, fallback@),
                None => None,
            },
        ),
        _ => None,
    }
}

/// A text that the primary format parses has the time that the primary format gives,
/// whatever the fallback format would give; one that only the fallback format parses
/// has the time that the fallback gives; one that neither parses, or that the primary
/// does not parse where there is no fallback, has a null time. Nothing else can come
/// of a time cell.
pub proof fn lemma_time_coalescing(text: Seq<char>, time: Time)
    ensures
        parsed_time(text, time.fmt@) is Some ==> resolved_time(Value::Str(text), time)
            == parsed_time(text, time.fmt@),
        parsed_time(text, time.fmt@) is None ==> resolved_time(Value::Str(text), time)
            == match time.fmt_alter {
            Some(fallback) => parsed_time(text, fallback@),
            None => None,
        },
{
}

/// Merges the results of the primary and of the fallback format: the primary result
/// wherever there is one, also where the fallback has one too; else the fallback result;
/// null where both are null.
pub fn coalesce_time(primary: Option<i64>, fallback: Option<i64>) -> (r: Option<i64>)
    ensures
        r == first_non_null(primary, fallback),
        primary is Some ==> r == primary,
        primary is None ==> r == fallback,
{
    match primary {
        Some(_) => primary,
        None => fallback,
    }
}

/// Reads the time that a text holds under a format, in milliseconds since the Unix
/// epoch. A format that the parser cannot be handed gives null.
pub fn parse_time(text: &str, format: &str) -> (r: Option<i64>)
    ensures
        r == parsed_time(text@, format@),
{
    if is_plain_format(format) {
        parse_millis(text, format)
    } else {
        None
    }
}

/// Time of a transaction from its time cell, in milliseconds since the Unix epoch.
pub fn resolve_time(cell: &Cell, time: &Time) -> (r: Option<i64>)
    ensures
        r == resolved_time(cell@, *time),
{
    match cell {
        Cell::Str(text) => {
            let primary = parse_time(text.as_str(), time.fmt);
            let fallback = match time.fmt_alter {
                Some(format) => parse_time(text.as_str(), format),
                None => None,
            };
            coalesce_time(primary, fallback)
        },
        _ => None,
    }
}

} // verus!
