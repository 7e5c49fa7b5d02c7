//! The random source behind password generation: `rand`'s thread-local generator.

use vstd::prelude::*;
use rand::rngs::ThreadRng;
use rand::{Rng, RngExt};

verus! {

/// The thread-local generator of `rand`, carried through opaque.
#[verifier::external_type_specification]
#[verifier::external_body]
pub struct ExThreadRng(ThreadRng);

/// Trusted: `rand::rng` hands out the thread-local generator. Nothing is
/// claimed of it. It panics only when the operating system's random source
/// fails while the generator is first seeded, which no contract here excludes.
#[verifier::external_body]
pub(crate) fn thread_rng() -> ThreadRng {
    rand::rng()
}

/// Trusted: `Rng::next_u32` on the thread-local generator returns a random
/// `u32`. Nothing is claimed of the value, which depends on chance. Like every
/// draw from this generator it panics only when the operating system's random
/// source fails while the generator reseeds itself, which happens after every
/// 64 KiB of output; no contract here excludes that.
#[verifier::external_body]
pub(crate) fn next_u32(rng: &mut ThreadRng) -> u32 {
    rng.next_u32()
}

/// Trusted: `RngExt::random::<u64>` on the thread-local generator returns a
/// random `u64`. Nothing is claimed of the value, which depends on chance. It
/// panics only when the operating system's random source fails while the
/// generator reseeds itself, which happens after every 64 KiB of output; no
/// contract here excludes that.
#[verifier::external_body]
pub(crate) fn random_u64(rng: &mut ThreadRng) -> u64 {
    rng.random::<u64>()
}

} // verus!
