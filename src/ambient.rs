//! What comes from the machine rather than from the arguments: random
//! draws, fresh ids and the clock.

use rand::Rng;
use vstd::prelude::*;

verus! {

/// Relies on `rand::Rng::gen_range` over the thread-local generator: for a
/// non-empty range `0..n` it returns some value of that range (it panics on an
/// empty one, hence the precondition). Which value comes back is chance.
#[verifier::external_body]
pub(crate) fn random_below(n: usize) -> (r: usize)
    requires
        n > 0,
    ensures
        r < n,
{
    rand::thread_rng().gen_range(0..n)
}

/// Relies on `uuid::Uuid::new_v4` and the `Display` impl of `Uuid`: the text
/// form of a freshly drawn random UUID. Nothing is promised of its value. It
/// panics only when the operating system's random source fails, which no
/// argument can rule out.
#[verifier::external_body]
pub(crate) fn new_player_id() -> (r: String) {
    uuid::Uuid::new_v4().to_string()
}

/// Relies on `std::time::SystemTime::elapsed`, taken from the Unix epoch:
/// the wall-clock time in milliseconds (0 if the clock reads earlier than
/// the epoch). Nothing is promised of its value; the clock may step back.
#[verifier::external_body]
pub(crate) fn now_millis() -> (r: u64) {
    match std::time::UNIX_EPOCH.elapsed() {
        Ok(d) => d.as_millis() as u64,
        Err(_) => 0,
    }
}

} // verus!
