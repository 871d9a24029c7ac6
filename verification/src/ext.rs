use vstd::prelude::*;

verus! {

/// Relies on `chrono::Utc::now` and `DateTime::timestamp`: the current
/// wall-clock time as Unix seconds. Nothing is assumed of the value;
/// records carry it as data, and ordering in the store never rests on it.
#[verifier::external_body]
pub(crate) fn now_timestamp() -> i64 {
    chrono::Utc::now().timestamp()
}

/// Relies on `uuid::Uuid::new_v4` and its `Display` impl: a randomly
/// drawn identifier. Nothing is assumed of the value; every caller checks
/// it against the store before using it as a key.
#[verifier::external_body]
pub(crate) fn fresh_id() -> String {
    uuid::Uuid::new_v4().to_string()
}

} // verus!
