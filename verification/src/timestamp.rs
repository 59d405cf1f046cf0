//! Instants in time, as far as this crate looks into them: the library carries
//! them through and leaves calendar arithmetic to `chrono`.

use vstd::prelude::*;

verus! {

/// An instant on the UTC time line: whole seconds since the Unix epoch and the
/// nanoseconds since the last whole second.
#[derive(Clone, Copy, Debug, PartialEq, Eq)]
pub struct Timestamp {
    pub secs: i64,
    pub nanos: u32,
}

/// The instant that an RFC 3339 date-and-time text denotes, as seconds and
/// nanoseconds since the Unix epoch; `None` for a text that is no such date.
pub uninterp spec fn rfc3339_instant(text: Seq<char>) -> Option<(i64, u32)>;

/// The RFC 3339 text of an instant; `None` for seconds and nanoseconds that
/// `chrono` takes for no instant.
pub uninterp spec fn rfc3339_text(secs: i64, nanos: u32) -> Option<Seq<char>>;

/// The instant that `parsed` denotes, as a [`Timestamp`].
pub open spec fn instant_of(parsed: Option<(i64, u32)>) -> Option<Timestamp> {
    match parsed {
        Some(p) => Some(Timestamp { secs: p.0, nanos: p.1 }),
        None => None,
    }
}

/// `chrono::DateTime::parse_from_rfc3339`, read off as a Unix timestamp with
/// `DateTime::timestamp` and `DateTime::timestamp_subsec_nanos`. The grammar
/// and the calendar are chrono's: the outcome is only given the name
/// [`rfc3339_instant`], `None` standing for chrono's parse error.
#[verifier::external_body]
pub(crate) fn parse_rfc3339(text: &str) -> (r: Option<Timestamp>)
    ensures
        r == instant_of(rfc3339_instant(text@)),
{
    match chrono::DateTime::parse_from_rfc3339(text) {
        Ok(dt) => Some(Timestamp { secs: dt.timestamp(), nanos: dt.timestamp_subsec_nanos() }),
        Err(_) => None,
    }
}

/// `chrono::DateTime::from_timestamp` followed by `DateTime::to_rfc3339`. The
/// text is only given the name [`rfc3339_text`]; it is `None` exactly where
/// `from_timestamp` returns none: for seconds out of range or nanoseconds
/// that no second has.
#[verifier::external_body]
pub(crate) fn format_rfc3339(t: Timestamp) -> (r: Option<String>)
    ensures
        r.deep_view() == rfc3339_text(t.secs, t.nanos),
{
    match chrono::DateTime::from_timestamp(t.secs, t.nanos) {
        Some(dt) => Some(dt.to_rfc3339()),
        None => None,
    }
}

} // verus!
