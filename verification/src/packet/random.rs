//! Randomness, from the `rand` crate.

use rand::rngs::ThreadRng;
use rand::RngCore;
use vstd::prelude::*;

verus! {

/// `rand::rngs::ThreadRng`, a handle on the random number generator of the
/// current thread.
#[verifier::external_type_specification]
#[verifier::external_body]
pub struct ExThreadRng(rand::rngs::ThreadRng);

/// `rand::thread_rng` gives a handle on the generator of the current thread,
/// which the operating system seeds. Nothing is claimed of the numbers that it
/// will give. It panics where the operating system has no seed to give, or where
/// the handler that makes a forked process draw a new seed cannot be registered.
pub assume_specification[ rand::thread_rng ]() -> rand::rngs::ThreadRng
;

/// `fill_bytes` of the generator overwrites all of `dest`. Nothing is claimed of
/// the bytes that it writes: they are random. It panics where the generator is
/// due for a new seed and the operating system has none to give, which depends on
/// the machine, not on the arguments.
#[verifier::external_body]
pub(crate) fn fill_bytes(rng: &mut ThreadRng, dest: &mut [u8; 32]) {
    rng.fill_bytes(dest)
}

/// `next_u32` of the generator. Nothing is claimed of the number: it is random. It
/// panics where [`fill_bytes`] does.
#[verifier::external_body]
pub(crate) fn next_u32(rng: &mut ThreadRng) -> u32 {
    rng.next_u32()
}

/// Whether `dest` was filled by the generator behind `rng`: a call of `fill_bytes`
/// on the two has returned. No value is known to be such an outcome but one that a
/// call has left.
pub closed spec fn was_filled(rng: &mut ThreadRng, dest: &mut [u8; 32]) -> bool {
    call_ensures(fill_bytes, (rng, dest), ())
}

/// Whether `n` was drawn from the generator behind `rng`: a call of `next_u32` has
/// returned it.
pub closed spec fn was_drawn(rng: &mut ThreadRng, n: u32) -> bool {
    call_ensures(next_u32, (rng,), n)
}

/// Only a call of the generator fills and draws.
pub(crate) proof fn law_only_the_generator_draws(rng: &mut ThreadRng, dest: &mut [u8; 32], n: u32)
    ensures
        was_filled(rng, dest) <==> call_ensures(fill_bytes, (rng, dest), ()),
        was_drawn(rng, n) <==> call_ensures(next_u32, (rng,), n),
{
}

/// Bytes that the generator has filled, which leaves it as it is after that call.
pub(crate) fn draw_bytes(rng: &mut ThreadRng) -> (bytes: [u8; 32])
    ensures
        exists|r: &mut ThreadRng, dest: &mut [u8; 32]|
            {
                &&& #[trigger] was_filled(r, dest)
                &&& *r == *old(rng)
                &&& *final(r) == *final(rng)
                &&& *final(dest) == bytes
            },
{
    let mut bytes: [u8; 32] = [0; 32];
    fill_bytes(rng, &mut bytes);
    proof {
        let (r, dest) = choose|r: &mut ThreadRng, dest: &mut [u8; 32]|
            {
                &&& #[trigger] call_ensures(fill_bytes, (r, dest), ())
                &&& *r == *old(rng)
                &&& *final(r) == *final(rng)
                &&& *final(dest) == bytes
            };
        assert(was_filled(r, dest));
    }
    bytes
}

/// A number that the generator has drawn.
pub(crate) fn draw_u32(rng: &mut ThreadRng) -> (n: u32)
    ensures
        exists|r: &mut ThreadRng|
            {
                &&& #[trigger] was_drawn(r, n)
                &&& *r == *old(rng)
                &&& *final(r) == *final(rng)
            },
{
    let n: u32 = next_u32(rng);
    proof {
        let r = choose|r: &mut ThreadRng|
            {
                &&& #[trigger] call_ensures(next_u32, (r,), n)
                &&& *r == *old(rng)
                &&& *final(r) == *final(rng)
            };
        assert(was_drawn(r, n));
    }
    n
}

} // verus!
