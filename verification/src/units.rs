//! Fixed-point scales and toroidal wraparound.
use vstd::prelude::*;
use vstd::arithmetic::div_mod::{lemma_sub_mod_noop, lemma_mod_add_multiples_vanish, lemma_mod_bound};

verus! {

/// Fixed-point scale: this many steps make up one cell side, one unit of
/// trail intensity, and the factor one.
pub const UNIT: u64 = 1_000_000;

/// Angle scale: this many steps make up a full turn.
pub const TURN: u32 = 65_536;

/// The representative of `x` in `[0, extent)` on a ring of length `extent`.
pub open spec fn wrapped(x: int, extent: int) -> int {
    x % extent
}

/// Wrapping is closed: whatever the position and the displacement, the
/// wrapped coordinate lies inside `[0, extent)`.
pub proof fn lemma_wrapped_in_bounds(pos: int, delta: int, extent: int)
    requires
        extent > 0,
    ensures
        0 <= wrapped(pos + delta, extent) < extent,
{
    lemma_mod_bound(pos + delta, extent);
}

/// A move never leaves the domain: whatever the position and the movement
/// vector, the wrapped position lies inside `[0, width) x [0, height)`.
pub proof fn lemma_move_stays_inside(x: int, y: int, dx: int, dy: int, width: int, height: int)
    requires
        width > 0,
        height > 0,
    ensures
        0 <= wrapped(x + dx, width) < width,
        0 <= wrapped(y + dy, height) < height,
{
    lemma_wrapped_in_bounds(x, dx, width);
    lemma_wrapped_in_bounds(y, dy, height);
}

/// Moves `pos` by `delta` on a ring of length `extent`.
pub fn wrap_shift(pos: u64, delta: i64, extent: u64) -> (r: u64)
    requires
        extent > 0,
    ensures
        r == wrapped(pos as int + delta as int, extent as int),
        r < extent,
{
    let ext: u128 = extent as u128;
    proof {
        lemma_mod_bound(pos as int + delta as int, extent as int);
    }
    if delta >= 0 {
        let sum: u128 = pos as u128 + delta as u128;
        (sum % ext) as u64
    } else {
        let back: u128 = (-(delta as i128)) as u128;
        let rem: u128 = back % ext;
        let base: u128 = (pos as u128) % ext;
        let sum: u128 = base + ext - rem;
        proof {
            let m = extent as int;
            lemma_sub_mod_noop(pos as int, back as int, m);
            lemma_mod_add_multiples_vanish(base as int - rem as int, m);
        }
        (sum % ext) as u64
    }
}

} // verus!
