//! Random numbers for new ball directions.
use vstd::prelude::*;
use crate::direction::VEL_SCALE;
use crate::game::Draws;
use crate::systems::draws_ok;

verus! {

/// Relies on `macroquad::rand::gen_range` (quad-rand): for integer bounds it
/// returns `low + (high - low) * u` with `u` in `[0, 1)`, converted toward
/// zero, so the result lies in `[low, high]`.
#[verifier::external_body]
fn gen_range(low: i64, high: i64) -> (r: i64)
    requires
        -0x10_0000 <= low < high <= 0x10_0000,
    ensures
        low <= r <= high,
{
    macroquad::rand::gen_range(low, high)
}

/// A random component of a direction, in `[-VEL_SCALE, VEL_SCALE]`.
pub fn roll_component() -> (r: i64)
    ensures
        -VEL_SCALE <= r <= VEL_SCALE,
{
    gen_range(-VEL_SCALE, VEL_SCALE)
}

/// A random direction, each component in `[-VEL_SCALE, VEL_SCALE]`.
pub fn roll_direction() -> (r: (i64, i64))
    ensures
        -VEL_SCALE <= r.0 <= VEL_SCALE,
        -VEL_SCALE <= r.1 <= VEL_SCALE,
{
    let x = roll_component();
    let y = roll_component();
    (x, y)
}

impl Draws {
    /// Fresh random numbers for one frame over `n` bodies.
    pub fn roll(n: usize) -> (r: Draws)
        ensures
            r.wf(n as nat),
    {
        let rebound = roll_component();
        let mut homes: Vec<(i64, i64)> = Vec::new();
        let mut i: usize = 0;
        while i < n
            invariant
                0 <= i <= n,
                homes@.len() == i,
                draws_ok(homes@),
            decreases n - i,
        {
            homes.push(roll_direction());
            i += 1;
        }
        Draws { rebound, homes }
    }
}

} // verus!
