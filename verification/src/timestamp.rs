//! Timestamps.

use vstd::prelude::*;

verus! {

/// The timestamp that stands in where none is known.
pub const EPOCH_TIMESTAMP: &'static str = "1970-01-01T00:00:00Z";

/// Whether `chrono::DateTime::parse_from_rfc3339` accepts `chars`.
pub uninterp spec fn rfc3339(chars: Seq<char>) -> bool;

/// `raw`, where there is one and it is `valid`, and `fallback` otherwise.
pub open spec fn chosen(raw: Option<Seq<char>>, valid: bool, fallback: Seq<char>) -> Seq<char> {
    match raw {
        Some(value) => if valid {
            value
        } else {
            fallback
        },
        None => fallback,
    }
}

/// `raw`, where it is a timestamp of RFC 3339, and `fallback` otherwise.
pub open spec fn normalized(raw: Option<Seq<char>>, fallback: Seq<char>) -> Seq<char> {
    chosen(raw, raw matches Some(value) && rfc3339(value), fallback)
}

/// The characters of a string that may be absent.
pub open spec fn optional(raw: Option<&str>) -> Option<Seq<char>> {
    match raw {
        Some(value) => Some(value@),
        None => None,
    }
}

/// Calls `chrono::DateTime::parse_from_rfc3339`. Claimed of it: whether it
/// accepts a text depends on the text alone, and [`rfc3339`] names that.
#[verifier::external_body]
fn parses_as_rfc3339(value: &str) -> (r: bool)
    ensures
        r == rfc3339(value@),
{
    chrono::DateTime::parse_from_rfc3339(value).is_ok()
}

/// `raw`, where there is one and it is `valid`, and `fallback` otherwise.
pub fn choose_timestamp(raw: Option<&str>, valid: bool, fallback: &str) -> (r: String)
    ensures
        r@ == chosen(optional(raw), valid, fallback@),
{
    match raw {
        Some(value) if valid => value.to_owned(),
        _ => fallback.to_owned(),
    }
}

/// `raw`, where it is a timestamp of RFC 3339, and `fallback` otherwise.
pub fn normalized_timestamp(raw: Option<&str>, fallback: &str) -> (r: String)
    ensures
        r@ == normalized(optional(raw), fallback@),
{
    let valid = match raw {
        Some(value) => parses_as_rfc3339(value),
        None => false,
    };
    choose_timestamp(raw, valid, fallback)
}

/// A timestamp is kept exactly where it is one of RFC 3339, and the fallback
/// takes the place of any other.
pub proof fn valid_timestamps_are_kept(value: Seq<char>, fallback: Seq<char>)
    ensures
        rfc3339(value) ==> normalized(Some(value), fallback) == value,
        !rfc3339(value) ==> normalized(Some(value), fallback) == fallback,
        normalized(None, fallback) == fallback,
        chosen(Some(value), true, fallback) == value,
        chosen(Some(value), false, fallback) == fallback,
{
}

/// A string that is there has its characters, and one that is absent has none.
pub proof fn absent_timestamps_have_no_characters(value: &str)
    ensures
        optional(Some(value)) == Some(value@),
        optional(None) is None,
{
}

} // verus!
