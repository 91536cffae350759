//! The SQL text of the per-metric value tables.
//!
//! A value table is named after its metric. Metric names may hold `:`, so the
//! name is always written as a quoted identifier: in double quotes, with each
//! double quote inside it doubled.
use vstd::prelude::*;
use crate::text::{chars_of, push_char};

verus! {

pub open spec fn escape_quotes(s: Seq<char>) -> Seq<char>
    decreases s.len(),
{
    if s.len() == 0 {
        seq![]
    } else {
        let c = s.last();
        escape_quotes(s.drop_last()) + if c == '"' {
            seq!['"', '"']
        } else {
            seq![c]
        }
    }
}

pub open spec fn quoted_identifier(name: Seq<char>) -> Seq<char> {
    seq!['"'] + escape_quotes(name) + seq!['"']
}

/// `name` as a quoted SQL identifier.
pub fn quote_identifier(name: &str) -> (r: String)
    ensures
        r@ == quoted_identifier(name@),
{
    let cs = chars_of(name);
    let mut r = String::new();
    push_char(&mut r, '"');
    let mut i: usize = 0;
    while i < cs.len()
        invariant
            i <= cs@.len(),
            r@ == seq!['"'] + escape_quotes(cs@.subrange(0, i as int)),
        decreases cs@.len() - i,
    {
        let c = cs[i];
        push_char(&mut r, c);
        if c == '"' {
            push_char(&mut r, '"');
        }
        assert(cs@.subrange(0, i + 1).drop_last() =~= cs@.subrange(0, i as int));
        assert(r@ =~= seq!['"'] + escape_quotes(cs@.subrange(0, i + 1)));
        i += 1;
    }
    assert(cs@.subrange(0, cs@.len() as int) =~= cs@);
    push_char(&mut r, '"');
    assert(r@ =~= quoted_identifier(name@));
    r
}

pub open spec fn create_scalar_text(name: Seq<char>, stanchion: bool) -> Seq<char> {
    if stanchion {
        "CREATE VIRTUAL TABLE "@ + quoted_identifier(name)
            + " USING stanchion (series_id INTEGER NOT NULL REFERENCES series(id) ON DELETE CASCADE, timestamp INTEGER NOT NULL, value REAL NOT NULL, SORT KEY (series_id, timestamp))"@
    } else {
        "CREATE TABLE "@ + quoted_identifier(name)
            + " (series_id INTEGER NOT NULL REFERENCES series(id) ON DELETE CASCADE, timestamp DATETIME NOT NULL, value REAL NOT NULL, PRIMARY KEY (series_id, timestamp))"@
    }
}

/// The statement that creates the value table of the scalar metric `name`;
/// with `stanchion`, a sorted columnar table of that extension.
pub fn create_scalar_sql(name: &str, stanchion: bool) -> (r: String)
    ensures
        r@ == create_scalar_text(name@, stanchion),
{
    let q = quote_identifier(name);
    if stanchion {
        let mut r = String::from_str("CREATE VIRTUAL TABLE ");
        r.append(q.as_str());
        r.append(
            " USING stanchion (series_id INTEGER NOT NULL REFERENCES series(id) ON DELETE CASCADE, timestamp INTEGER NOT NULL, value REAL NOT NULL, SORT KEY (series_id, timestamp))",
        );
        r
    } else {
        let mut r = String::from_str("CREATE TABLE ");
        r.append(q.as_str());
        r.append(
            " (series_id INTEGER NOT NULL REFERENCES series(id) ON DELETE CASCADE, timestamp DATETIME NOT NULL, value REAL NOT NULL, PRIMARY KEY (series_id, timestamp))",
        );
        r
    }
}

pub open spec fn insert_scalar_text(name: Seq<char>) -> Seq<char> {
    "INSERT INTO "@ + quoted_identifier(name) + " (series_id, timestamp, value) VALUES (?1, ?2, ?3)"@
}

/// The statement that adds one row to the value table of `name`.
pub fn insert_scalar_sql(name: &str) -> (r: String)
    ensures
        r@ == insert_scalar_text(name@),
{
    let q = quote_identifier(name);
    let mut r = String::from_str("INSERT INTO ");
    r.append(q.as_str());
    r.append(" (series_id, timestamp, value) VALUES (?1, ?2, ?3)");
    r
}

/// The RFC 3339 text of an instant given in milliseconds since the epoch, or
/// `None` where it is out of range.
pub uninterp spec fn rfc3339_of_millis(ms: i64) -> Option<Seq<char>>;

/// Relies on chrono's `DateTime::from_timestamp_millis`, written with `to_rfc3339`.
#[verifier::external_body]
fn format_rfc3339(ms: i64) -> (r: Option<String>)
    ensures
        match r {
            Some(s) => rfc3339_of_millis(ms) == Some(s@),
            None => rfc3339_of_millis(ms) is None,
        },
{
    match chrono::DateTime::from_timestamp_millis(ms) {
        Some(d) => Some(d.to_rfc3339()),
        None => None,
    }
}

/// The text stored in a `DATETIME` timestamp column for `millis`.
pub fn timestamp_text(millis: u64) -> (r: Option<String>)
    ensures
        match r {
            Some(s) => millis <= i64::MAX && rfc3339_of_millis(millis as i64) == Some(s@),
            None => millis > i64::MAX || rfc3339_of_millis(millis as i64) is None,
        },
{
    if millis > i64::MAX as u64 {
        return None;
    }
    format_rfc3339(millis as i64)
}

} // verus!
