//! What the fetcher computes from a response: the decoded families and the
//! timestamp that the scrape is stored under.
use vstd::prelude::*;
use crate::grammar::parse_spec;
use crate::model::families_view;
pub use crate::model::{MetricFamily, Sample, SampleType};

verus! {

/// The instant that an RFC 2822 date names, in milliseconds since the epoch,
/// or `None` where the text is not such a date.
pub uninterp spec fn rfc2822_millis(s: Seq<char>) -> Option<i64>;

/// Relies on chrono's `DateTime::parse_from_rfc2822`, read through `timestamp_millis`.
#[verifier::external_body]
fn parse_rfc2822_millis(s: &str) -> (r: Option<i64>)
    ensures
        r == rfc2822_millis(s@),
{
    match chrono::DateTime::parse_from_rfc2822(s) {
        Ok(d) => Some(d.timestamp_millis()),
        Err(_) => None,
    }
}

/// The timestamp of a scrape: the server's date where it is one at or after the
/// epoch, else the local clock.
pub open spec fn timestamp_choice(parsed: Option<i64>, now_millis: u64) -> u64 {
    match parsed {
        Some(ms) => if ms >= 0 {
            ms as u64
        } else {
            now_millis
        },
        None => now_millis,
    }
}

/// Picks the timestamp of a scrape from the server's date, already decoded.
pub fn choose_timestamp(parsed: Option<i64>, now_millis: u64) -> (r: u64)
    ensures
        r == timestamp_choice(parsed, now_millis),
{
    match parsed {
        Some(ms) => if ms >= 0 {
            ms as u64
        } else {
            now_millis
        },
        None => now_millis,
    }
}

/// The timestamp of a scrape whose response carried the `Date` header `date`,
/// read at `now_millis` by the local clock.
pub fn scrape_timestamp(date: Option<&str>, now_millis: u64) -> (r: u64)
    ensures
        r == timestamp_choice(
            match date {
                Some(d) => rfc2822_millis(d@),
                None => None,
            },
            now_millis,
        ),
{
    let parsed = match date {
        Some(d) => parse_rfc2822_millis(d),
        None => None,
    };
    choose_timestamp(parsed, now_millis)
}

/// Decodes an exposition without adding labels.
pub fn parse(input: &str) -> (r: Option<Vec<MetricFamily>>)
    ensures
        match r {
            Some(v) => parse_spec(None, None, input@) == Some(families_view(v@)),
            None => parse_spec(None, None, input@) is None,
        },
{
    crate::parse::parse(None, None, input)
}

} // verus!
