use vstd::prelude::*;

verus! {

/// Relies on `SystemTime::now` and `duration_since(UNIX_EPOCH)`: milliseconds since the Unix
/// epoch; a clock set before the epoch reads as 0. Nothing is promised of the value.
#[verifier::external_body]
pub fn now_millis() -> (r: i64) {
    std::time::SystemTime::now().duration_since(std::time::UNIX_EPOCH).map(
        |d| d.as_millis() as i64,
    ).unwrap_or(0)
}

/// Relies on `uuid::Uuid::new_v4` and its `Display`: a random identifier in hyphenated form,
/// 36 characters long.
#[verifier::external_body]
pub(crate) fn fresh_id() -> (r: String)
    ensures
        r@.len() == 36,
{
    uuid::Uuid::new_v4().to_string()
}

} // verus!
