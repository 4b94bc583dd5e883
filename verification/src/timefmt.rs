use vstd::prelude::*;

verus! {

/// What the "%Y-%m-%d_%H-%M-%S" rendering of a UTC instant (milliseconds
/// since the Unix epoch) is. A function of the instant alone; session ids are
/// derived from it.
pub uninterp spec fn session_id_chars(ms: u64) -> Seq<char>;

/// What the RFC 3339 rendering of a UTC instant (milliseconds since the Unix
/// epoch) is. A function of the instant alone.
pub uninterp spec fn rfc3339_chars(ms: u64) -> Seq<char>;

/// Relies on chrono's `DateTime::<Utc>::from_timestamp_millis` and
/// `DateTime::format`: the "%Y-%m-%d_%H-%M-%S" rendering of a UTC instant
/// depends on the instant alone. An instant out of chrono's range yields the
/// empty string.
#[verifier::external_body]
pub(crate) fn format_session_id(ms: u64) -> (r: String)
    ensures
        r@ == session_id_chars(ms),
{
    match chrono::DateTime::<chrono::Utc>::from_timestamp_millis(ms as i64) {
        Some(t) => t.format("%Y-%m-%d_%H-%M-%S").to_string(),
        None => String::new(),
    }
}

/// Relies on chrono's `DateTime::<Utc>::from_timestamp_millis` and
/// `DateTime::to_rfc3339`: the RFC 3339 rendering of a UTC instant depends on
/// the instant alone. An instant out of chrono's range yields the empty
/// string.
#[verifier::external_body]
pub(crate) fn format_rfc3339(ms: u64) -> (r: String)
    ensures
        r@ == rfc3339_chars(ms),
{
    match chrono::DateTime::<chrono::Utc>::from_timestamp_millis(ms as i64) {
        Some(t) => t.to_rfc3339(),
        None => String::new(),
    }
}

} // verus!
