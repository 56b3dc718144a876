//! What holds of the simulation as a whole, proved from the definitions of its
//! stages.

use crate::boid::{lemma_bounded_influence_fits, Boid, Influence};
use crate::fixed::ONE;
use crate::flock::{
    are_neighbors, influence_on, influence_upto, lemma_influence_bounded,
    lemma_neighbors_symmetric, scanned, steered, ticked,
};
use crate::fixed::magnitude;
use crate::norm::{length_tolerance, lemma_scaled_not_longer, lemma_scaled_not_much_shorter};
use crate::settings::{lemma_step_length_bounds, step_length, Settings};
use crate::spawn::initial_heading;
use crate::vector::{lemma_scaled_to_bounds, Vec2};
use crate::world::{half_extent, wrapped, WorldBounds};
use vstd::prelude::*;

verus! {

/// What one tick is given besides the flock.
pub struct Step {
    pub settings: Settings,
    pub elapsed: i32,
    pub bounds: WorldBounds,
}

/// The flock after one tick for each of `steps`, in order.
pub open spec fn after_ticks(boids: Seq<Boid>, steps: Seq<Step>) -> Seq<Boid>
    decreases steps.len(),
{
    if steps.len() == 0 {
        boids
    } else {
        let last = steps.last();
        ticked(after_ticks(boids, steps.drop_last()), last.settings, last.elapsed, last.bounds)
    }
}

/// An agent without neighbours among the first `upto` agents holds no
/// influence from them.
pub proof fn lemma_no_neighbors_no_influence(boids: Seq<Boid>, i: int, vision: i32, upto: int)
    requires
        forall|j: int| 0 <= j < upto ==> !are_neighbors(boids, i, j, vision),
    ensures
        influence_upto(boids, i, vision, upto) == Influence::none(),
    decreases upto,
{
    if upto > 0 {
        lemma_no_neighbors_no_influence(boids, i, vision, upto - 1);
    }
}

/// The agents among the first `upto` that agent `i` sees.
pub open spec fn in_sight(boids: Seq<Boid>, i: int, vision: i32, upto: int) -> Set<int> {
    Set::new(|j: int| 0 <= j < upto && are_neighbors(boids, i, j, vision))
}

/// The neighbour count is the number of agents in sight.
pub proof fn lemma_count_is_number_in_sight(boids: Seq<Boid>, i: int, vision: i32, upto: int)
    requires
        0 <= upto,
    ensures
        in_sight(boids, i, vision, upto).finite(),
        influence_upto(boids, i, vision, upto).count == in_sight(boids, i, vision, upto).len(),
    decreases upto,
{
    let now = in_sight(boids, i, vision, upto);
    if upto == 0 {
        assert(now =~= Set::<int>::empty());
    } else {
        let before = in_sight(boids, i, vision, upto - 1);
        lemma_count_is_number_in_sight(boids, i, vision, upto - 1);
        if are_neighbors(boids, i, upto - 1, vision) {
            assert(now =~= before.insert(upto - 1));
        } else {
            assert(now =~= before);
        }
    }
}

/// After a scan every agent holds exactly the influence of its neighbours:
/// nothing is lost when the sums are stored.
pub proof fn lemma_scan_gathers_influence(boids: Seq<Boid>, i: int, vision: i32)
    requires
        0 <= i < boids.len() <= usize::MAX,
    ensures
        scanned(boids, vision)[i].influence() == influence_on(boids, i, vision),
        scanned(boids, vision)[i].well_formed(),
        scanned(boids, vision)[i].position == boids[i].position,
        scanned(boids, vision)[i].velocity == boids[i].velocity,
{
    lemma_influence_bounded(boids, i, vision, boids.len() as int);
    lemma_bounded_influence_fits(boids[i], influence_on(boids, i, vision));
}

/// Whatever the scratch space holds before a scan has no effect on what it
/// holds after: the scan reads positions and velocities only.
pub proof fn lemma_scan_ignores_scratch(first: Seq<Boid>, second: Seq<Boid>, vision: i32)
    requires
        first.len() == second.len(),
        forall|i: int|
            0 <= i < first.len() ==> (#[trigger] first[i]).position == second[i].position
                && first[i].velocity == second[i].velocity,
    ensures
        scanned(first, vision) == scanned(second, vision),
{
    assert forall|i: int| 0 <= i < first.len() implies #[trigger] scanned(first, vision)[i]
        == scanned(second, vision)[i] by {
        lemma_same_influence(first, second, i, vision, first.len() as int);
    }
}

/// Flocks that agree on positions and velocities agree on every influence.
pub proof fn lemma_same_influence(
    first: Seq<Boid>,
    second: Seq<Boid>,
    i: int,
    vision: i32,
    upto: int,
)
    requires
        first.len() == second.len(),
        0 <= i < first.len(),
        0 <= upto <= first.len(),
        forall|k: int|
            0 <= k < first.len() ==> (#[trigger] first[k]).position == second[k].position
                && first[k].velocity == second[k].velocity,
    ensures
        influence_upto(first, i, vision, upto) == influence_upto(second, i, vision, upto),
    decreases upto,
{
    if upto > 0 {
        lemma_same_influence(first, second, i, vision, upto - 1);
    }
}

/// A tick does not depend on what the scratch space held before it.
pub proof fn lemma_tick_ignores_scratch(
    first: Seq<Boid>,
    second: Seq<Boid>,
    settings: Settings,
    elapsed: i32,
    bounds: WorldBounds,
)
    requires
        !settings.paused,
        first.len() == second.len(),
        forall|i: int|
            0 <= i < first.len() ==> (#[trigger] first[i]).position == second[i].position
                && first[i].velocity == second[i].velocity,
    ensures
        ticked(first, settings, elapsed, bounds) == ticked(second, settings, elapsed, bounds),
{
    lemma_scan_ignores_scratch(first, second, settings.vision_distance);
}

/// A running tick leaves every scratch space clear, ready for the next scan.
pub proof fn lemma_tick_clears_scratch(
    boids: Seq<Boid>,
    i: int,
    settings: Settings,
    elapsed: i32,
    bounds: WorldBounds,
)
    requires
        0 <= i < boids.len(),
        !settings.paused,
    ensures
        ticked(boids, settings, elapsed, bounds)[i] == ticked(
            boids,
            settings,
            elapsed,
            bounds,
        )[i].cleared(),
{
}

/// In a world at least two units wide and high, a running tick leaves every
/// agent inside the world.
pub proof fn lemma_tick_keeps_agents_inside(
    boids: Seq<Boid>,
    i: int,
    settings: Settings,
    elapsed: i32,
    bounds: WorldBounds,
)
    requires
        0 <= i < boids.len(),
        !settings.paused,
        bounds.width >= 2 * ONE,
        bounds.height >= 2 * ONE,
    ensures
        bounds.contains(ticked(boids, settings, elapsed, bounds)[i].position),
{
    lemma_tick_position(boids, i, settings, elapsed, bounds);
    let turned = steered(scanned(boids, settings.vision_distance), settings, elapsed)[i];
    let travel = turned.displacement(settings, elapsed);
    lemma_wrap_lands_inside(turned.position.x + travel.x, bounds.width);
    lemma_wrap_lands_inside(turned.position.y + travel.y, bounds.height);
}

/// The neighbour count never falls as more agents are taken into account.
pub proof fn lemma_count_grows(boids: Seq<Boid>, i: int, vision: i32, low: int, high: int)
    requires
        low <= high,
    ensures
        influence_upto(boids, i, vision, low).count <= influence_upto(
            boids,
            i,
            vision,
            high,
        ).count,
    decreases high - low,
{
    if low < high {
        lemma_count_grows(boids, i, vision, low, high - 1);
    }
}

/// Two agents that see each other both count each other: a pair closer than
/// the vision distance adds to the scratch space of both its members, never to
/// that of one alone.
pub proof fn lemma_pair_counts_both(boids: Seq<Boid>, i: int, j: int, vision: i32)
    requires
        0 <= i < boids.len(),
        0 <= j < boids.len(),
        are_neighbors(boids, i, j, vision),
    ensures
        are_neighbors(boids, j, i, vision),
        influence_on(boids, i, vision).count >= 1,
        influence_on(boids, j, vision).count >= 1,
{
    lemma_neighbors_symmetric(boids, i, j, vision);
    let n = boids.len() as int;
    lemma_influence_bounded(boids, i, vision, j);
    lemma_influence_bounded(boids, j, vision, i);
    lemma_count_grows(boids, i, vision, j + 1, n);
    lemma_count_grows(boids, j, vision, i + 1, n);
}

/// In a flock of two agents that see each other, the scan gives each exactly
/// what the other contributes.
pub proof fn lemma_lone_pair_scan(boids: Seq<Boid>, vision: i32)
    requires
        boids.len() == 2,
        are_neighbors(boids, 0, 1, vision),
    ensures
        scanned(boids, vision)[0].influence() == Influence::of_neighbor(boids[0], boids[1]),
        scanned(boids, vision)[1].influence() == Influence::of_neighbor(boids[1], boids[0]),
{
    lemma_neighbors_symmetric(boids, 0, 1, vision);
    reveal_with_fuel(influence_upto, 3);
    lemma_scaled_to_bounds(
        boids[0].position.offset_from(boids[1].position),
        ONE as int,
    );
    lemma_scaled_to_bounds(
        boids[1].position.offset_from(boids[0].position),
        ONE as int,
    );
}

/// An isolated agent keeps its velocity: where no other agent lies within the
/// vision distance, a tick leaves the velocity as it was, whatever the gains.
pub proof fn lemma_isolated_keeps_velocity(
    boids: Seq<Boid>,
    i: int,
    settings: Settings,
    elapsed: i32,
    bounds: WorldBounds,
)
    requires
        0 <= i < boids.len(),
        forall|j: int| 0 <= j < boids.len() ==> !are_neighbors(boids, i, j, settings.vision_distance),
    ensures
        ticked(boids, settings, elapsed, bounds)[i].velocity == boids[i].velocity,
{
    lemma_no_neighbors_no_influence(boids, i, settings.vision_distance, boids.len() as int);
}

/// A paused tick changes nothing.
pub proof fn lemma_paused_tick_freezes(
    boids: Seq<Boid>,
    settings: Settings,
    elapsed: i32,
    bounds: WorldBounds,
)
    requires
        settings.paused,
    ensures
        ticked(boids, settings, elapsed, bounds) == boids,
{
}

/// However many ticks run while the simulation is paused, every agent stays
/// exactly as it was.
pub proof fn lemma_paused_run_freezes(boids: Seq<Boid>, steps: Seq<Step>)
    requires
        forall|k: int| 0 <= k < steps.len() ==> (#[trigger] steps[k]).settings.paused,
    ensures
        after_ticks(boids, steps) == boids,
    decreases steps.len(),
{
    if steps.len() > 0 {
        let earlier = steps.drop_last();
        assert forall|k: int| 0 <= k < earlier.len() implies (#[trigger] earlier[k]).settings.paused by {
        }
        lemma_paused_run_freezes(boids, earlier);
    }
}

/// A tick never changes the number of agents.
pub proof fn lemma_tick_keeps_population(
    boids: Seq<Boid>,
    settings: Settings,
    elapsed: i32,
    bounds: WorldBounds,
)
    ensures
        ticked(boids, settings, elapsed, bounds).len() == boids.len(),
{
}

/// No run of ticks changes the number of agents.
pub proof fn lemma_run_keeps_population(boids: Seq<Boid>, steps: Seq<Step>)
    ensures
        after_ticks(boids, steps).len() == boids.len(),
    decreases steps.len(),
{
    if steps.len() > 0 {
        lemma_run_keeps_population(boids, steps.drop_last());
    }
}

/// Replay is deterministic: two runs that start from the same flock and are
/// given the same settings, elapsed times and bounds agree after every tick.
pub proof fn lemma_replay_is_deterministic(
    first: Seq<Boid>,
    second: Seq<Boid>,
    first_steps: Seq<Step>,
    second_steps: Seq<Step>,
    ticks: int,
)
    requires
        first == second,
        first_steps == second_steps,
        0 <= ticks <= first_steps.len(),
    ensures
        after_ticks(first, first_steps.take(ticks)) == after_ticks(
            second,
            second_steps.take(ticks),
        ),
{
}

/// With all three gains at zero the steering blend leaves every velocity as
/// it was.
pub proof fn lemma_zero_gains_keep_velocity(
    boids: Seq<Boid>,
    i: int,
    settings: Settings,
    elapsed: i32,
    bounds: WorldBounds,
)
    requires
        0 <= i < boids.len(),
        settings.gains_are_zero(),
    ensures
        ticked(boids, settings, elapsed, bounds)[i].velocity == boids[i].velocity,
{
}

/// With all three gains at zero an agent flies straight: a running tick puts
/// it where the wrap sends the point that it reaches by travelling along the
/// velocity that it had before the tick.
pub proof fn lemma_zero_gains_fly_straight(
    boids: Seq<Boid>,
    i: int,
    settings: Settings,
    elapsed: i32,
    bounds: WorldBounds,
)
    requires
        0 <= i < boids.len(),
        settings.gains_are_zero(),
        !settings.paused,
    ensures
        ({
            let travel = boids[i].velocity.scaled_to(step_length(settings.move_speed, elapsed));
            let after = ticked(boids, settings, elapsed, bounds)[i];
            &&& after.velocity == boids[i].velocity
            &&& after.position.x == wrapped(boids[i].position.x + travel.x, bounds.width)
            &&& after.position.y == wrapped(boids[i].position.y + travel.y, bounds.height)
        }),
{
    lemma_tick_position(boids, i, settings, elapsed, bounds);
}

/// The distance travelled in a tick equals speed times elapsed time within the
/// tolerance of the arithmetic: the displacement is never longer than the
/// step, and for an agent with a heading it is shorter by no more than
/// `length_tolerance`.
pub proof fn lemma_displacement_length(boid: Boid, settings: Settings, elapsed: i32)
    ensures
        ({
            let step = step_length(settings.move_speed, elapsed);
            let travel = boid.displacement(settings, elapsed);
            let least = magnitude(step) - length_tolerance(step);
            &&& travel.len_sq() <= step * step
            &&& !boid.velocity.is_zero() && least >= 0 ==> travel.len_sq() >= least * least
        }),
{
    let step = step_length(settings.move_speed, elapsed);
    lemma_step_length_bounds(settings.move_speed, elapsed);
    lemma_scaled_not_longer(boid.velocity, step);
    if !boid.velocity.is_zero() && magnitude(step) >= length_tolerance(step) {
        lemma_scaled_not_much_shorter(boid.velocity, step);
    }
}

/// A velocity that the steering blend has turned has unit length within the
/// tolerance of the arithmetic, unless the blends cancelled it altogether.
pub proof fn lemma_steered_has_unit_length(boid: Boid, settings: Settings, elapsed: i32)
    requires
        boid.is_steered(settings, elapsed),
    ensures
        boid.steered_velocity(settings, elapsed).len_sq() <= ONE * ONE,
        !boid.after_separation(settings, elapsed).is_zero() ==> boid.steered_velocity(
            settings,
            elapsed,
        ).len_sq() >= (ONE - 5) * (ONE - 5),
{
    let blended = boid.after_separation(settings, elapsed);
    lemma_scaled_not_longer(blended, ONE as int);
    if !blended.is_zero() {
        lemma_scaled_not_much_shorter(blended, ONE as int);
    }
}

/// Every heading that start-up can give has unit length within the tolerance
/// of the arithmetic.
pub proof fn lemma_heading_has_unit_length(dx: i32, dy: i32)
    ensures
        initial_heading(dx, dy).len_sq() <= ONE * ONE,
        initial_heading(dx, dy).len_sq() >= (ONE - 5) * (ONE - 5),
{
    if dx == 0 && dy == 0 {
        assert(initial_heading(dx, dy).len_sq() == ONE * ONE) by (nonlinear_arith)
            requires
                initial_heading(dx, dy) == (Vec2 { x: 0, y: ONE as i64 }),
        ;
    } else {
        let v = Vec2 { x: dx as i64, y: dy as i64 };
        lemma_scaled_not_longer(v, ONE as int);
        lemma_scaled_not_much_shorter(v, ONE as int);
    }
}

/// A running tick puts every agent where the wrap sends the point that it
/// reaches by travelling along its steered velocity.
pub proof fn lemma_tick_position(
    boids: Seq<Boid>,
    i: int,
    settings: Settings,
    elapsed: i32,
    bounds: WorldBounds,
)
    requires
        0 <= i < boids.len(),
        !settings.paused,
    ensures
        ({
            let turned = steered(scanned(boids, settings.vision_distance), settings, elapsed)[i];
            let travel = turned.displacement(settings, elapsed);
            let after = ticked(boids, settings, elapsed, bounds)[i];
            &&& turned.position == boids[i].position
            &&& after.position.x == wrapped(turned.position.x + travel.x, bounds.width)
            &&& after.position.y == wrapped(turned.position.y + travel.y, bounds.height)
        }),
{
    let turned = steered(scanned(boids, settings.vision_distance), settings, elapsed)[i];
    let travel = turned.displacement(settings, elapsed);
    lemma_step_length_bounds(settings.move_speed, elapsed);
    lemma_scaled_to_bounds(
        turned.velocity,
        step_length(settings.move_speed, elapsed),
    );
    lemma_wrap_fits(turned.position.x + travel.x, bounds.width);
    lemma_wrap_fits(turned.position.y + travel.y, bounds.height);
}

/// The wrap is exact: a coordinate beyond the far edge lands one unit inside
/// the near edge, a coordinate at or beyond the near edge lands one unit
/// inside the far edge, and any other coordinate stays where it is.
pub proof fn lemma_wrap_is_exact(coordinate: int, extent: i32)
    ensures
        coordinate > half_extent(extent) ==> wrapped(coordinate, extent) == -half_extent(extent)
            + ONE,
        coordinate <= half_extent(extent) && coordinate <= -half_extent(extent) ==> wrapped(
            coordinate,
            extent,
        ) == half_extent(extent) - ONE,
        -half_extent(extent) < coordinate <= half_extent(extent) ==> wrapped(coordinate, extent)
            == coordinate,
{
}

/// A wrapped coordinate always fits a position.
pub proof fn lemma_wrap_fits(coordinate: int, extent: i32)
    ensures
        i32::MIN <= wrapped(coordinate, extent) <= i32::MAX,
{
}

/// In a world at least two units across, a wrapped coordinate lies inside the
/// world, so that wrapping it again changes nothing.
pub proof fn lemma_wrap_lands_inside(coordinate: int, extent: i32)
    requires
        extent >= 2 * ONE,
    ensures
        -half_extent(extent) < wrapped(coordinate, extent) <= half_extent(extent),
        wrapped(wrapped(coordinate, extent), extent) == wrapped(coordinate, extent),
{
}

} // verus!
