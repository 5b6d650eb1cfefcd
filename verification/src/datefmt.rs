//! Rendering of record timestamps as UTC date-time text.

use vstd::prelude::*;

verus! {

/// The text chrono renders, in `%Y-%m-%d %H:%M:%S` form, for a UTC timestamp
/// of `secs` whole seconds since the epoch. The rendering is a function of
/// the seconds value alone.
pub uninterp spec fn utc_time_text(secs: i64) -> Seq<char>;

/// The whole seconds of a timestamp given in milliseconds: divided by 1000,
/// truncated toward zero.
pub open spec fn spec_secs_of_millis(millis: int) -> int {
    if millis >= 0 {
        millis / 1000
    } else {
        -((-millis) / 1000)
    }
}

/// Relies on chrono's `DateTime::<Utc>::from_timestamp` and its `format`:
/// the rendered text depends on the seconds value alone; `None` comes only
/// for seconds outside chrono's representable date range.
#[verifier::external_body]
fn format_utc_seconds(secs: i64) -> (r: Option<String>)
    ensures
        (r matches Some(s) ==> s@ == utc_time_text(secs)),
{
    match chrono::DateTime::<chrono::Utc>::from_timestamp(secs, 0) {
        Some(dt) => Some(dt.format("%Y-%m-%d %H:%M:%S").to_string()),
        None => None,
    }
}

/// Render a record timestamp, in milliseconds since the epoch, as
/// `YYYY-MM-DD hh:mm:ss` UTC text. `None` when the timestamp falls outside
/// the representable date range.
pub fn parse_date(timestamp_millis: i64) -> (r: Option<String>)
    ensures
        (r matches Some(s) ==> s@ == utc_time_text(
            spec_secs_of_millis(timestamp_millis as int) as i64,
        )),
{
    let secs: i64 = if timestamp_millis >= 0 {
        let q = (timestamp_millis as u64) / 1000;
        proof {
            vstd::arithmetic::div_mod::lemma_div_nonincreasing(timestamp_millis as int, 1000);
        }
        q as i64
    } else {
        let neg: u64 = (-(timestamp_millis as i128)) as u64;
        let q = neg / 1000;
        proof {
            vstd::arithmetic::div_mod::lemma_div_nonincreasing(neg as int, 1000);
        }
        -(q as i64)
    };
    assert(secs as int == spec_secs_of_millis(timestamp_millis as int));
    format_utc_seconds(secs)
}

} // verus!
