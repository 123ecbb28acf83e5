//! Readings of the system clock and of the process's random number generator.
//! What they return depends on the moment and on chance, so no contract says
//! what they return; the functions that use them are specified for every value.

use vstd::prelude::*;

verus! {

/// `SystemTime::now()`, as nanoseconds since the Unix epoch (0 when the clock
/// reads a time before the epoch). Of the value, only that it comes from a
/// `Duration`, whose whole seconds fit in 64 bits, is stated.
#[verifier::external_body]
pub(crate) fn unix_nanos() -> (t: u128)
    ensures
        t / 1_000_000_000 <= u64::MAX,
{
    match std::time::SystemTime::now().duration_since(std::time::UNIX_EPOCH) {
        Ok(d) => d.as_nanos(),
        Err(_) => 0,
    }
}

#[verifier::external_type_specification]
#[verifier::external_body]
pub struct ExInstant(std::time::Instant);

/// `Instant::now()`: a reading of the monotonic clock, kept as the origin that
/// later readings are measured from. Nothing is stated of it.
#[verifier::external_body]
pub(crate) fn instant_now() -> (t: std::time::Instant) {
    std::time::Instant::now()
}

/// `Instant::elapsed` on `origin`, in nanoseconds: the time on the monotonic
/// clock since `origin`. Of the value, only that it comes from a `Duration`,
/// whose whole seconds fit in 64 bits, is stated; that later readings are no
/// smaller, which std documents, is not.
#[verifier::external_body]
pub(crate) fn nanos_since(origin: &std::time::Instant) -> (t: u128)
    ensures
        t / 1_000_000_000 <= u64::MAX,
{
    origin.elapsed().as_nanos()
}

/// `rand::random::<u64>()`: a word from the thread-local generator. Nothing is
/// stated of the value.
#[verifier::external_body]
pub(crate) fn random_word() -> (w: u64) {
    rand::random::<u64>()
}

/// `rand::Rng::fill` on the thread-local generator: `n` random bytes. Nothing is
/// stated of them but their number.
#[verifier::external_body]
pub(crate) fn random_bytes(n: usize) -> (b: Vec<u8>)
    ensures
        b@.len() == n,
{
    let mut v = vec![0u8; n];
    rand::Rng::fill(&mut rand::thread_rng(), &mut v[..]);
    v
}

/// `u128::to_ne_bytes`: the sixteen bytes of `n` in the machine's byte order. Which
/// order that is depends on the machine, so only the length is stated.
#[verifier::external_body]
pub(crate) fn u128_ne_bytes(n: u128) -> (b: Vec<u8>)
    ensures
        b@.len() == 16,
{
    n.to_ne_bytes().to_vec()
}

/// Nanoseconds in a second.
pub const NANOS_PER_SEC: u128 = 1_000_000_000;

/// The time from `then` to `now`, or zero when `then` is later.
pub open spec fn elapsed(now: u128, then: u128) -> u128 {
    if now >= then {
        (now - then) as u128
    } else {
        0
    }
}

/// The time from `then` to `now`, or zero when `then` is later.
pub fn elapsed_exec(now: u128, then: u128) -> (d: u128)
    ensures
        d == elapsed(now, then),
{
    if now >= then {
        now - then
    } else {
        0
    }
}

/// The current time in whole seconds since the Unix epoch.
pub fn unix_secs() -> (s: u64) {
    let t = unix_nanos();
    (t / NANOS_PER_SEC) as u64
}

} // verus!
