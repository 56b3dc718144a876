//! The tunable parameters of the simulation.

use crate::fixed::{div_toward_zero, trunc_div, BLEND_SCALE, ONE};
use crate::vector::clamp_unit;
use vstd::prelude::*;

verus! {

/// Parameters shared by all stages of a tick. Every field may be changed freely
/// between ticks. Speeds, distances, the scale and the gains are 16.16 fixed
/// point.
#[derive(Clone, Copy, Debug, PartialEq, Eq, Structural)]
pub struct Settings {
    /// Distance covered per second.
    pub move_speed: i32,
    /// Agents strictly closer than this are neighbours.
    pub vision_distance: i32,
    /// Uniform scale at which agents are drawn; it has no effect on the motion.
    pub visual_scale: i32,
    pub separation_gain: i32,
    pub cohesion_gain: i32,
    pub alignment_gain: i32,
    /// Number of agents created at start-up.
    pub target_boid_count: i32,
    /// While set, a tick changes nothing.
    pub paused: bool,
}

/// The fraction by which a steering influence with the given gain pulls the
/// velocity during `elapsed` seconds: a tenth of gain times elapsed time,
/// confined to the range 0 to 1.
pub open spec fn blend_factor(gain: i32, elapsed: i32) -> int {
    clamp_unit(trunc_div(gain * elapsed, BLEND_SCALE as int))
}

/// The distance covered at `speed` during `elapsed` seconds.
pub open spec fn step_length(speed: i32, elapsed: i32) -> int {
    trunc_div(speed * elapsed, ONE as int)
}

/// A step is never longer than the largest speed times the largest time.
pub proof fn lemma_step_length_bounds(speed: i32, elapsed: i32)
    ensures
        -0x4000_0000_0000 <= step_length(speed, elapsed) <= 0x4000_0000_0000,
{
    assert(-0x4000_0000_0000_0000 <= speed * elapsed <= 0x4000_0000_0000_0000)
        by (nonlinear_arith)
        requires
            -0x8000_0000 <= speed <= 0x8000_0000,
            -0x8000_0000 <= elapsed <= 0x8000_0000,
    ;
    crate::fixed::lemma_trunc_div_bounds(speed * elapsed, ONE as int);
}

impl Settings {
    /// The settings a simulation starts with.
    pub open spec fn initial() -> Settings {
        Settings {
            move_speed: (100 * ONE) as i32,
            vision_distance: (100 * ONE) as i32,
            visual_scale: ONE,
            separation_gain: 0,
            cohesion_gain: 0,
            alignment_gain: ONE,
            target_boid_count: 100,
            paused: false,
        }
    }

    /// Whether none of the three steering influences is switched on.
    pub open spec fn gains_are_zero(self) -> bool {
        self.cohesion_gain == 0 && self.alignment_gain == 0 && self.separation_gain == 0
    }

    /// The scale at which agents are drawn.
    pub fn visual_scale(&self) -> (scale: i32)
        ensures
            scale == self.visual_scale,
    {
        self.visual_scale
    }

    /// Computes `blend_factor`.
    pub fn blend_factor(gain: i32, elapsed: i32) -> (factor: i32)
        ensures
            factor == blend_factor(gain, elapsed),
            0 <= factor <= ONE,
    {
        assert(-0x4000_0000_0000_0000 <= gain * elapsed <= 0x4000_0000_0000_0000)
            by (nonlinear_arith)
            requires
                -0x8000_0000 <= gain <= 0x8000_0000,
                -0x8000_0000 <= elapsed <= 0x8000_0000,
        ;
        let product: i64 = (gain as i64) * (elapsed as i64);
        let raw: i128 = div_toward_zero(product as i128, BLEND_SCALE as i128);
        if raw < 0 {
            0
        } else if raw > ONE as i128 {
            ONE
        } else {
            raw as i32
        }
    }

    /// Computes `step_length`.
    pub fn step_length(speed: i32, elapsed: i32) -> (step: i64)
        ensures
            step == step_length(speed, elapsed),
            -0x4000_0000_0000 <= step <= 0x4000_0000_0000,
    {
        assert(-0x4000_0000_0000_0000 <= speed * elapsed <= 0x4000_0000_0000_0000)
            by (nonlinear_arith)
            requires
                -0x8000_0000 <= speed <= 0x8000_0000,
                -0x8000_0000 <= elapsed <= 0x8000_0000,
        ;
        let product: i64 = (speed as i64) * (elapsed as i64);
        proof {
            crate::fixed::lemma_trunc_div_bounds(product as int, ONE as int);
        }
        let step: i128 = div_toward_zero(product as i128, ONE as i128);
        assert(-0x4000_0000_0000 <= step <= 0x4000_0000_0000);
        step as i64
    }
}

impl Default for Settings {
    fn default() -> (settings: Settings)
        ensures
            settings == Settings::initial(),
    {
        Settings {
            move_speed: 6553600,
            vision_distance: 6553600,
            visual_scale: ONE,
            separation_gain: 0,
            cohesion_gain: 0,
            alignment_gain: ONE,
            target_boid_count: 100,
            paused: false,
        }
    }
}

} // verus!
