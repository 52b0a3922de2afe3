use vstd::prelude::*;

verus! {

/// Relies on std::time::SystemTime::now: the wall clock, read as whole
/// seconds since the Unix epoch. Nothing is promised of the value — not even
/// monotonicity — so every time-dependent function of the engine takes the
/// reading as an argument and is verified for every value of it.
#[verifier::external_body]
pub(crate) fn now_seconds() -> u64 {
    match std::time::SystemTime::now().duration_since(std::time::UNIX_EPOCH) {
        Ok(d) => d.as_secs(),
        Err(_) => 0,
    }
}

} // verus!
