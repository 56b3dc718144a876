//! One agent of the flock: its state and what a tick does to it.

use crate::fixed::{div_toward_zero, lemma_trunc_div_bounds, magnitude, trunc_div, ONE};
use crate::settings::{blend_factor, step_length, Settings};
use crate::vector::{lemma_scaled_to_bounds, Accum, Point, Vec2};
use crate::world::WorldBounds;
use vstd::prelude::*;

verus! {

/// One simulated agent.
///
/// The three accumulators and the neighbour count are scratch space of a tick:
/// the neighbour scan fills them and the steering blend consumes and clears
/// them.
#[derive(Clone, Copy, Debug, PartialEq, Eq, Structural)]
pub struct Boid {
    /// Where the agent is.
    pub position: Point,
    /// Where the agent is heading. Only the direction matters for the motion;
    /// the speed comes from the settings.
    pub velocity: Vec2,
    /// Sum of the positions of the neighbours.
    pub cohesion_accum: Accum,
    /// Sum of the velocities of the neighbours.
    pub alignment_accum: Accum,
    /// Sum of the unit vectors that point away from each neighbour.
    pub separation_accum: Accum,
    /// Number of neighbours.
    pub neighbor_count: usize,
}

/// What one or more neighbours contribute to an agent, as mathematical
/// integers.
pub struct Influence {
    pub count: int,
    pub cohesion_x: int,
    pub cohesion_y: int,
    pub alignment_x: int,
    pub alignment_y: int,
    pub separation_x: int,
    pub separation_y: int,
}

/// Whether `sum` can be the total of `count` terms that each lie between
/// `least` and `most`.
pub open spec fn sum_within(sum: int, count: int, least: int, most: int) -> bool {
    count * least <= sum <= count * most
}

impl Influence {
    /// The influence of no neighbour at all.
    pub open spec fn none() -> Influence {
        Influence {
            count: 0,
            cohesion_x: 0,
            cohesion_y: 0,
            alignment_x: 0,
            alignment_y: 0,
            separation_x: 0,
            separation_y: 0,
        }
    }

    /// What the single neighbour `other` contributes to `me`: one to the count,
    /// its position, its velocity, and the unit vector that leads from it to
    /// `me`.
    pub open spec fn of_neighbor(me: Boid, other: Boid) -> Influence {
        let away = me.position.offset_from(other.position).unit();
        Influence {
            count: 1,
            cohesion_x: other.position.x as int,
            cohesion_y: other.position.y as int,
            alignment_x: other.velocity.x as int,
            alignment_y: other.velocity.y as int,
            separation_x: away.x as int,
            separation_y: away.y as int,
        }
    }

    /// Field-wise sum.
    pub open spec fn plus(self, other: Influence) -> Influence {
        Influence {
            count: self.count + other.count,
            cohesion_x: self.cohesion_x + other.cohesion_x,
            cohesion_y: self.cohesion_y + other.cohesion_y,
            alignment_x: self.alignment_x + other.alignment_x,
            alignment_y: self.alignment_y + other.alignment_y,
            separation_x: self.separation_x + other.separation_x,
            separation_y: self.separation_y + other.separation_y,
        }
    }

    /// Each sum is no larger than the count times the largest single
    /// contribution.
    pub open spec fn bounded(self) -> bool {
        &&& 0 <= self.count
        &&& sum_within(self.cohesion_x, self.count, i32::MIN as int, i32::MAX as int)
        &&& sum_within(self.cohesion_y, self.count, i32::MIN as int, i32::MAX as int)
        &&& sum_within(self.alignment_x, self.count, i64::MIN as int, i64::MAX as int)
        &&& sum_within(self.alignment_y, self.count, i64::MIN as int, i64::MAX as int)
        &&& sum_within(self.separation_x, self.count, -ONE, ONE as int)
        &&& sum_within(self.separation_y, self.count, -ONE, ONE as int)
    }
}

impl Accum {
    /// The empty sum.
    pub open spec fn zero() -> Accum {
        Accum { x: 0, y: 0 }
    }

    /// The sum divided by the number of its terms, each component rounded
    /// toward zero.
    pub open spec fn mean(self, count: usize) -> Vec2 {
        Vec2 {
            x: trunc_div(self.x as int, count as int) as i64,
            y: trunc_div(self.y as int, count as int) as i64,
        }
    }
}

impl Boid {
    /// An agent at `position` heading along `velocity`, with clear scratch
    /// space.
    pub open spec fn at(position: Point, velocity: Vec2) -> Boid {
        Boid {
            position,
            velocity,
            cohesion_accum: Accum::zero(),
            alignment_accum: Accum::zero(),
            separation_accum: Accum::zero(),
            neighbor_count: 0,
        }
    }

    /// The same agent with clear scratch space.
    pub open spec fn cleared(self) -> Boid {
        Boid::at(self.position, self.velocity)
    }

    /// The influence that the scratch space currently holds.
    pub open spec fn influence(self) -> Influence {
        Influence {
            count: self.neighbor_count as int,
            cohesion_x: self.cohesion_accum.x as int,
            cohesion_y: self.cohesion_accum.y as int,
            alignment_x: self.alignment_accum.x as int,
            alignment_y: self.alignment_accum.y as int,
            separation_x: self.separation_accum.x as int,
            separation_y: self.separation_accum.y as int,
        }
    }

    /// The same agent with its scratch space holding `influence`.
    pub open spec fn with_influence(self, influence: Influence) -> Boid {
        Boid {
            position: self.position,
            velocity: self.velocity,
            cohesion_accum: Accum {
                x: influence.cohesion_x as i128,
                y: influence.cohesion_y as i128,
            },
            alignment_accum: Accum {
                x: influence.alignment_x as i128,
                y: influence.alignment_y as i128,
            },
            separation_accum: Accum {
                x: influence.separation_x as i128,
                y: influence.separation_y as i128,
            },
            neighbor_count: influence.count as usize,
        }
    }

    /// The accumulators are consistent with the neighbour count: none exceeds
    /// what that many neighbours can add up to. The neighbour scan establishes
    /// this, and clear scratch space has it.
    pub open spec fn well_formed(self) -> bool {
        self.influence().bounded()
    }

    /// The point the cohesion pulls toward, relative to the agent: the mean
    /// position of its neighbours minus its own.
    pub open spec fn cohesion_target(self) -> Vec2 {
        let mean = self.cohesion_accum.mean(self.neighbor_count);
        Vec2 { x: (mean.x - self.position.x) as i64, y: (mean.y - self.position.y) as i64 }
    }

    /// The heading the alignment pulls toward: the direction of the mean
    /// velocity of the neighbours.
    pub open spec fn alignment_target(self) -> Vec2 {
        self.alignment_accum.mean(self.neighbor_count).unit()
    }

    /// The heading the separation pulls toward: the direction of the mean of
    /// the unit vectors that point away from the neighbours.
    pub open spec fn separation_target(self) -> Vec2 {
        self.separation_accum.mean(self.neighbor_count).unit()
    }

    /// Cohesion acts when there is a neighbour, the blend fraction is above
    /// zero and the target is not the agent's own position.
    pub open spec fn cohesion_applies(self, settings: Settings, elapsed: i32) -> bool {
        &&& self.neighbor_count > 0
        &&& blend_factor(settings.cohesion_gain, elapsed) > 0
        &&& !self.cohesion_target().is_zero()
    }

    /// Alignment acts when there is a neighbour, the blend fraction is above
    /// zero and the mean velocity of the neighbours is not zero.
    pub open spec fn alignment_applies(self, settings: Settings, elapsed: i32) -> bool {
        &&& self.neighbor_count > 0
        &&& blend_factor(settings.alignment_gain, elapsed) > 0
        &&& !self.alignment_accum.mean(self.neighbor_count).is_zero()
    }

    /// Separation acts when there is a neighbour, the blend fraction is above
    /// zero and the directions away from the neighbours do not cancel out.
    pub open spec fn separation_applies(self, settings: Settings, elapsed: i32) -> bool {
        &&& self.neighbor_count > 0
        &&& blend_factor(settings.separation_gain, elapsed) > 0
        &&& !self.separation_accum.mean(self.neighbor_count).is_zero()
    }

    /// Whether any of the three influences acts.
    pub open spec fn is_steered(self, settings: Settings, elapsed: i32) -> bool {
        ||| self.cohesion_applies(settings, elapsed)
        ||| self.alignment_applies(settings, elapsed)
        ||| self.separation_applies(settings, elapsed)
    }

    /// The velocity after cohesion alone.
    pub open spec fn after_cohesion(self, settings: Settings, elapsed: i32) -> Vec2 {
        if self.cohesion_applies(settings, elapsed) {
            self.velocity.blended(
                self.cohesion_target(),
                blend_factor(settings.cohesion_gain, elapsed),
            )
        } else {
            self.velocity
        }
    }

    /// The velocity after cohesion and then alignment.
    pub open spec fn after_alignment(self, settings: Settings, elapsed: i32) -> Vec2 {
        let v = self.after_cohesion(settings, elapsed);
        if self.alignment_applies(settings, elapsed) {
            v.blended(self.alignment_target(), blend_factor(settings.alignment_gain, elapsed))
        } else {
            v
        }
    }

    /// The velocity after cohesion, then alignment, then separation, each
    /// pulling the result of the one before.
    pub open spec fn after_separation(self, settings: Settings, elapsed: i32) -> Vec2 {
        let v = self.after_alignment(settings, elapsed);
        if self.separation_applies(settings, elapsed) {
            v.blended(self.separation_target(), blend_factor(settings.separation_gain, elapsed))
        } else {
            v
        }
    }

    /// The velocity after the whole steering blend. Where an influence acts,
    /// it is the unit vector of what the three blends give; where none acts,
    /// it is the velocity as it was.
    pub open spec fn steered_velocity(self, settings: Settings, elapsed: i32) -> Vec2 {
        if self.is_steered(settings, elapsed) {
            self.after_separation(settings, elapsed).unit()
        } else {
            self.velocity
        }
    }

    /// The agent after the steering blend: new velocity, clear scratch space,
    /// same position.
    pub open spec fn steered(self, settings: Settings, elapsed: i32) -> Boid {
        Boid::at(self.position, self.steered_velocity(settings, elapsed))
    }

    /// How far the agent travels in `elapsed` seconds: along its velocity, at
    /// the speed of the settings.
    pub open spec fn displacement(self, settings: Settings, elapsed: i32) -> Vec2 {
        self.velocity.scaled_to(step_length(settings.move_speed, elapsed))
    }

    /// The agent after integration and border wrap.
    pub open spec fn moved(self, settings: Settings, elapsed: i32, bounds: WorldBounds) -> Boid {
        let step = self.displacement(settings, elapsed);
        Boid {
            position: bounds.wrapped_point(self.position.x + step.x, self.position.y + step.y),
            ..self
        }
    }

    /// The agent with one more neighbour taken into account.
    pub open spec fn absorbed(self, other: Boid) -> Boid {
        self.with_influence(self.influence().plus(Influence::of_neighbor(self, other)))
    }

    /// Creates an agent with clear scratch space.
    pub fn new(position: Point, velocity: Vec2) -> (boid: Boid)
        ensures
            boid == Boid::at(position, velocity),
            boid.well_formed(),
    {
        Boid {
            position,
            velocity,
            cohesion_accum: Accum { x: 0, y: 0 },
            alignment_accum: Accum { x: 0, y: 0 },
            separation_accum: Accum { x: 0, y: 0 },
            neighbor_count: 0,
        }
    }

    /// Clears the scratch space.
    pub fn reset(&mut self)
        ensures
            *final(self) == old(self).cleared(),
            final(self).well_formed(),
    {
        self.cohesion_accum = Accum { x: 0, y: 0 };
        self.separation_accum = Accum { x: 0, y: 0 };
        self.alignment_accum = Accum { x: 0, y: 0 };
        self.neighbor_count = 0;
    }

    /// Takes the neighbour `other` into account.
    pub fn absorb(&mut self, other: &Boid)
        requires
            old(self).well_formed(),
            old(self).neighbor_count < usize::MAX,
        ensures
            *final(self) == old(self).absorbed(*other),
            final(self).influence() == old(self).influence().plus(
                Influence::of_neighbor(*old(self), *other),
            ),
            final(self).well_formed(),
    {
        let away: Vec2 = self.position.minus(&other.position).normalized();
        let count: usize = self.neighbor_count;
        proof {
            let grown = self.influence().plus(Influence::of_neighbor(*self, *other));
            lemma_influence_takes_neighbor(self.influence(), *self, *other);
            lemma_bounded_influence_fits(*self, grown);
        }
        self.cohesion_accum = Accum {
            x: self.cohesion_accum.x + other.position.x as i128,
            y: self.cohesion_accum.y + other.position.y as i128,
        };
        self.alignment_accum = Accum {
            x: self.alignment_accum.x + other.velocity.x as i128,
            y: self.alignment_accum.y + other.velocity.y as i128,
        };
        self.separation_accum = Accum {
            x: self.separation_accum.x + away.x as i128,
            y: self.separation_accum.y + away.y as i128,
        };
        self.neighbor_count = count + 1;
    }

    /// The steering blend: pulls the velocity toward the cohesion target, then
    /// toward the alignment target, then toward the separation target,
    /// normalises the result and clears the scratch space. Where no influence
    /// acts, as for an agent without neighbours, the velocity stays exactly as
    /// it was.
    pub fn steer(&mut self, settings: &Settings, elapsed: i32)
        requires
            old(self).well_formed(),
        ensures
            *final(self) == old(self).steered(*settings, elapsed),
            final(self).well_formed(),
    {
        let mut velocity: Vec2 = self.velocity;
        let mut turned: bool = false;
        if self.neighbor_count > 0 {
            let count: i128 = self.neighbor_count as i128;
            proof {
                lemma_means_fit(*self);
            }
            let pull: i32 = Settings::blend_factor(settings.cohesion_gain, elapsed);
            if pull > 0 {
                let mean_x: i128 = div_toward_zero(self.cohesion_accum.x, count);
                let mean_y: i128 = div_toward_zero(self.cohesion_accum.y, count);
                assert(i32::MIN <= mean_x <= i32::MAX && i32::MIN <= mean_y <= i32::MAX);
                let target = Vec2 {
                    x: (mean_x - self.position.x as i128) as i64,
                    y: (mean_y - self.position.y as i128) as i64,
                };
                if target.x != 0 || target.y != 0 {
                    velocity = velocity.blend(&target, pull);
                    turned = true;
                }
            }
            let pull: i32 = Settings::blend_factor(settings.alignment_gain, elapsed);
            if pull > 0 {
                let mean_x: i128 = div_toward_zero(self.alignment_accum.x, count);
                let mean_y: i128 = div_toward_zero(self.alignment_accum.y, count);
                assert(i64::MIN <= mean_x <= i64::MAX && i64::MIN <= mean_y <= i64::MAX);
                let mean = Vec2 { x: mean_x as i64, y: mean_y as i64 };
                if mean.x != 0 || mean.y != 0 {
                    velocity = velocity.blend(&mean.normalized(), pull);
                    turned = true;
                }
            }
            let pull: i32 = Settings::blend_factor(settings.separation_gain, elapsed);
            if pull > 0 {
                let mean_x: i128 = div_toward_zero(self.separation_accum.x, count);
                let mean_y: i128 = div_toward_zero(self.separation_accum.y, count);
                assert(-ONE <= mean_x <= ONE && -ONE <= mean_y <= ONE);
                let mean = Vec2 { x: mean_x as i64, y: mean_y as i64 };
                if mean.x != 0 || mean.y != 0 {
                    velocity = velocity.blend(&mean.normalized(), pull);
                    turned = true;
                }
            }
        }
        if turned {
            velocity = velocity.normalized();
        }
        self.velocity = velocity;
        self.reset();
    }

    /// Integration and border wrap: moves the agent along its velocity by the
    /// distance that the speed covers in `elapsed` seconds, then wraps the new
    /// position into the world.
    pub fn advance(&mut self, settings: &Settings, elapsed: i32, bounds: &WorldBounds)
        ensures
            *final(self) == old(self).moved(*settings, elapsed, *bounds),
    {
        let step: i64 = Settings::step_length(settings.move_speed, elapsed);
        let travel: Vec2 = self.velocity.with_length(step);
        self.position = bounds.wrap(self.position.x as i64 + travel.x, self.position.y as i64 + travel.y);
    }
}

impl Default for Boid {
    /// An agent at the origin that heads up the vertical axis.
    fn default() -> (boid: Boid)
        ensures
            boid == Boid::at(Point { x: 0, y: 0 }, Vec2 { x: 0, y: ONE as i64 }),
    {
        Boid::new(Point { x: 0, y: 0 }, Vec2 { x: 0, y: ONE as i64 })
    }
}

/// The mean of terms that lie between two bounds lies between them too.
pub proof fn lemma_mean_within(sum: int, count: int, least: int, most: int)
    requires
        count > 0,
        least <= 0 <= most,
        sum_within(sum, count, least, most),
    ensures
        least <= trunc_div(sum, count) <= most,
{
    lemma_trunc_div_bounds(sum, count);
    let q = magnitude(trunc_div(sum, count));
    if sum >= 0 {
        assert(q <= most) by (nonlinear_arith)
            requires
                q * count <= count * most,
                count > 0,
        ;
    } else {
        assert(count * (-least) == -(count * least)) by (nonlinear_arith);
        assert(q <= -least) by (nonlinear_arith)
            requires
                q * count <= count * (-least),
                count > 0,
        ;
    }
}

/// For an agent with consistent scratch space and at least one neighbour, the
/// three means and the cohesion target fit their types: each is the plain
/// quotient or difference.
pub proof fn lemma_means_fit(boid: Boid)
    requires
        boid.well_formed(),
        boid.neighbor_count > 0,
    ensures
        ({
            let count = boid.neighbor_count;
            let position = boid.cohesion_accum.mean(count);
            let heading = boid.alignment_accum.mean(count);
            let away = boid.separation_accum.mean(count);
            &&& position.x == trunc_div(boid.cohesion_accum.x as int, count as int)
            &&& position.y == trunc_div(boid.cohesion_accum.y as int, count as int)
            &&& i32::MIN <= position.x <= i32::MAX
            &&& i32::MIN <= position.y <= i32::MAX
            &&& heading.x == trunc_div(boid.alignment_accum.x as int, count as int)
            &&& heading.y == trunc_div(boid.alignment_accum.y as int, count as int)
            &&& away.x == trunc_div(boid.separation_accum.x as int, count as int)
            &&& away.y == trunc_div(boid.separation_accum.y as int, count as int)
            &&& -ONE <= away.x <= ONE
            &&& -ONE <= away.y <= ONE
            &&& boid.cohesion_target().x == position.x - boid.position.x
            &&& boid.cohesion_target().y == position.y - boid.position.y
        }),
{
    let inf = boid.influence();
    lemma_mean_within(inf.cohesion_x, inf.count, i32::MIN as int, i32::MAX as int);
    lemma_mean_within(inf.cohesion_y, inf.count, i32::MIN as int, i32::MAX as int);
    lemma_mean_within(inf.alignment_x, inf.count, i64::MIN as int, i64::MAX as int);
    lemma_mean_within(inf.alignment_y, inf.count, i64::MIN as int, i64::MAX as int);
    lemma_mean_within(inf.separation_x, inf.count, -ONE, ONE as int);
    lemma_mean_within(inf.separation_y, inf.count, -ONE, ONE as int);
}

/// A sum of `count` terms stays within its bounds when one more term within
/// the bounds is added.
pub proof fn lemma_sum_takes_term(sum: int, count: int, term: int, least: int, most: int)
    requires
        sum_within(sum, count, least, most),
        least <= term <= most,
    ensures
        sum_within(sum + term, count + 1, least, most),
{
    assert((count + 1) * least == count * least + least) by (nonlinear_arith);
    assert((count + 1) * most == count * most + most) by (nonlinear_arith);
}

/// While the count fits 64 bits, sums of 64-bit terms fit 128 bits.
pub proof fn lemma_sum_fits(sum: int, count: int, least: int, most: int)
    requires
        0 <= count <= usize::MAX,
        i64::MIN <= least <= 0 <= most <= i64::MAX,
        sum_within(sum, count, least, most),
    ensures
        i128::MIN < sum < i128::MAX,
{
    assert(count * least >= 0xffff_ffff_ffff_ffff * (-0x8000_0000_0000_0000)) by (nonlinear_arith)
        requires
            0 <= count <= 0xffff_ffff_ffff_ffff,
            -0x8000_0000_0000_0000 <= least <= 0,
    ;
    assert(count * most <= 0xffff_ffff_ffff_ffff * 0x8000_0000_0000_0000) by (nonlinear_arith)
        requires
            0 <= count <= 0xffff_ffff_ffff_ffff,
            0 <= most <= 0x8000_0000_0000_0000,
    ;
}

/// What a single neighbour contributes lies within the bounds of one term.
pub proof fn lemma_neighbor_term_bounds(me: Boid, other: Boid)
    ensures
        -ONE <= Influence::of_neighbor(me, other).separation_x <= ONE,
        -ONE <= Influence::of_neighbor(me, other).separation_y <= ONE,
{
    lemma_scaled_to_bounds(me.position.offset_from(other.position), ONE as int);
}

/// An influence within its bounds stays within them when one more neighbour
/// is added, and fits the scratch space while the count fits.
pub proof fn lemma_influence_takes_neighbor(held: Influence, me: Boid, other: Boid)
    requires
        held.bounded(),
    ensures
        held.plus(Influence::of_neighbor(me, other)).bounded(),
{
    let term = Influence::of_neighbor(me, other);
    lemma_neighbor_term_bounds(me, other);
    lemma_sum_takes_term(held.cohesion_x, held.count, term.cohesion_x, i32::MIN as int, i32::MAX as int);
    lemma_sum_takes_term(held.cohesion_y, held.count, term.cohesion_y, i32::MIN as int, i32::MAX as int);
    lemma_sum_takes_term(held.alignment_x, held.count, term.alignment_x, i64::MIN as int, i64::MAX as int);
    lemma_sum_takes_term(held.alignment_y, held.count, term.alignment_y, i64::MIN as int, i64::MAX as int);
    lemma_sum_takes_term(held.separation_x, held.count, term.separation_x, -ONE, ONE as int);
    lemma_sum_takes_term(held.separation_y, held.count, term.separation_y, -ONE, ONE as int);
}

/// A bounded influence whose count fits a `usize` is held by the scratch
/// space without loss.
pub proof fn lemma_bounded_influence_fits(boid: Boid, held: Influence)
    requires
        held.bounded(),
        held.count <= usize::MAX,
    ensures
        boid.with_influence(held).influence() == held,
        boid.with_influence(held).well_formed(),
{
    lemma_sum_fits(held.cohesion_x, held.count, i32::MIN as int, i32::MAX as int);
    lemma_sum_fits(held.cohesion_y, held.count, i32::MIN as int, i32::MAX as int);
    lemma_sum_fits(held.alignment_x, held.count, i64::MIN as int, i64::MAX as int);
    lemma_sum_fits(held.alignment_y, held.count, i64::MIN as int, i64::MAX as int);
    lemma_sum_fits(held.separation_x, held.count, -ONE, ONE as int);
    lemma_sum_fits(held.separation_y, held.count, -ONE, ONE as int);
}

} // verus!
