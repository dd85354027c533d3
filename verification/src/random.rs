//! The random source, and every draw the colony makes from it.
//!
//! The source is one generator behind a lock, shared by all who draw. Each
//! function here takes the lock, makes one draw and gives the lock back, so
//! no caller ever holds it across two draws. A caller must not hold the lock
//! itself when it calls: the lock is not reentrant, and the call would wait
//! for ever.
//!
//! Nothing here is proved. Each function states what `rand` documents of the
//! draw in its body, whatever the state of the generator. `random_index` and
//! `random_in_range` both go to `Rng::gen_range`, once with a half-open range
//! of `usize` and once with a closed range of `u32`.

use parking_lot::Mutex;
use rand::rngs::StdRng;
use rand::Rng;
use rand::RngCore;
use vstd::prelude::*;

verus! {

/// `rand::rngs::StdRng`, carried through as an opaque value.
#[verifier::external_type_specification]
#[verifier::external_body]
pub struct ExStdRng(StdRng);

/// `lock_api::Mutex`, which `parking_lot::Mutex` is a name for: carried
/// through as an opaque value.
#[verifier::external_type_specification]
#[verifier::external_body]
#[verifier::reject_recursive_types(R)]
#[verifier::reject_recursive_types(T)]
pub struct ExMutex<R, T: ?Sized>(parking_lot::lock_api::Mutex<R, T>);

/// `parking_lot::RawMutex`, the lock inside a `parking_lot::Mutex`.
#[verifier::external_type_specification]
#[verifier::external_body]
pub struct ExRawMutex(parking_lot::RawMutex);

/// `RngCore::next_u32` under `Mutex::lock`: the next 32 bits of the stream.
/// Any value may come.
#[verifier::external_body]
pub(crate) fn random_u32(rng: &Mutex<StdRng>) -> u32 {
    rng.lock().next_u32()
}

/// `Rng::gen_range` on `low..=high` under `Mutex::lock`: some value of the
/// closed range, which must not be empty.
#[verifier::external_body]
pub(crate) fn random_in_range(rng: &Mutex<StdRng>, low: u32, high: u32) -> (value: u32)
    requires
        low <= high,
    ensures
        low <= value <= high,
{
    rng.lock().gen_range(low..=high)
}

/// `Rng::gen_range` on `0..len` under `Mutex::lock`: some index below `len`,
/// which must not be zero.
#[verifier::external_body]
pub(crate) fn random_index(rng: &Mutex<StdRng>, len: usize) -> (index: usize)
    requires
        0 < len,
    ensures
        index < len,
{
    rng.lock().gen_range(0..len)
}

/// `Rng::gen_ratio` under `Mutex::lock`: `true` with a chance of `numerator`
/// in `denominator`. The two ends are certain: never `true` for a zero
/// numerator, always `true` where numerator and denominator are equal.
#[verifier::external_body]
pub(crate) fn random_ratio(rng: &Mutex<StdRng>, numerator: u32, denominator: u32) -> (hit: bool)
    requires
        0 < denominator,
        numerator <= denominator,
    ensures
        numerator == 0 ==> !hit,
        numerator == denominator ==> hit,
{
    rng.lock().gen_ratio(numerator, denominator)
}

} // verus!
