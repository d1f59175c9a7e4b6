//! Busy waiting between animation frames.
use vstd::prelude::*;

verus! {

/// Iterations of [`pause`].
pub const PAUSE_SPINS: usize = 1_500_000;
/// Iterations of [`delay`].
pub const DELAY_SPINS: usize = 160_000;

/// Tells the processor that the caller is spinning: `core::hint::spin_loop`.
/// Nothing is claimed of it: it returns nothing and changes no state that
/// the library sees.
#[verifier::external_body]
fn spin_hint() {
    core::hint::spin_loop();
}

/// Spins for `spins` iterations.
fn spin(spins: usize) {
    let mut i: usize = 0;
    while i < spins
        invariant
            i <= spins,
        decreases spins - i,
    {
        spin_hint();
        i += 1;
    }
}

/// Waits between two pieces of the tangram picture.
pub fn pause() {
    spin(PAUSE_SPINS);
}

/// Waits between two frames of the scripted breakout demo.
pub fn delay() {
    spin(DELAY_SPINS);
}

} // verus!
