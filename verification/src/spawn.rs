//! Start-up: filling a flock with agents at random places, heading random ways.

use crate::boid::Boid;
use crate::fixed::ONE;
use crate::flock::Flock;
use crate::settings::Settings;
use crate::vector::{Point, Vec2};
use crate::world::{half_extent, WorldBounds};
use rand::Rng;
use vstd::prelude::*;

verus! {

/// Why a flock could not be created.
#[derive(Clone, Copy, Debug, PartialEq, Eq, Structural)]
pub enum InitError {
    /// No world bounds were available.
    MissingBounds,
    /// The world is less than two raw units wide or high, so it has no inside.
    InvalidBounds,
}

/// The generator that `rand::thread_rng` hands out. Nothing is known of its
/// state.
#[verifier::external_type_specification]
#[verifier::external_body]
pub struct ExThreadRng(rand::rngs::ThreadRng);

/// `rand::thread_rng` returns the calling thread's generator; nothing is
/// claimed of it. The call panics where the system offers no source of
/// randomness, which no argument could prevent.
pub assume_specification[ rand::thread_rng ]() -> (rng: rand::rngs::ThreadRng)
;

/// `Rng::gen_range` on the half-open range `low..high` of `i32`. The range
/// must not be empty, else the call panics; what is drawn lies in the range.
/// Which value comes is left open.
#[verifier::external_body]
fn draw_between(rng: &mut rand::rngs::ThreadRng, low: i32, high: i32) -> (drawn: i32)
    requires
        low < high,
    ensures
        low <= drawn < high,
{
    rng.gen_range(low..high)
}

/// Whether the world has an inside: on both axes the half extent is at least
/// one raw unit.
pub open spec fn has_inside(bounds: WorldBounds) -> bool {
    half_extent(bounds.width) >= 1 && half_extent(bounds.height) >= 1
}

/// The heading for a drawn direction: its unit vector, or straight up the
/// vertical axis where the draw gave no direction at all.
pub open spec fn initial_heading(dx: i32, dy: i32) -> Vec2 {
    if dx == 0 && dy == 0 {
        Vec2 { x: 0, y: ONE as i64 }
    } else {
        Vec2 { x: dx as i64, y: dy as i64 }.unit()
    }
}

/// The agent made from four drawn numbers: a position and a direction.
pub open spec fn boid_from_draws(x: i32, y: i32, dx: i32, dy: i32) -> Boid {
    Boid::at(Point { x, y }, initial_heading(dx, dy))
}

/// What holds of every agent that start-up creates: its scratch space is
/// clear, it lies inside the world, and its velocity is the heading of some
/// direction with both components between -1 and 1.
pub open spec fn freshly_spawned(boid: Boid, bounds: WorldBounds) -> bool {
    &&& boid == boid.cleared()
    &&& bounds.contains(boid.position)
    &&& exists|dx: i32, dy: i32|
        -ONE <= dx < ONE && -ONE <= dy < ONE && boid.velocity == #[trigger] initial_heading(dx, dy)
}

/// The number of agents that start-up creates: the target count, or none where
/// that is negative.
pub open spec fn spawn_count(settings: Settings) -> nat {
    if settings.target_boid_count > 0 {
        settings.target_boid_count as nat
    } else {
        0
    }
}

/// What holds of a flock that start-up created: it has the number of agents
/// that the settings ask for, and each of them is freshly spawned.
pub open spec fn is_spawned_flock(boids: Seq<Boid>, settings: Settings, bounds: WorldBounds) -> bool {
    &&& boids.len() == spawn_count(settings)
    &&& forall|i: int| 0 <= i < boids.len() ==> freshly_spawned(#[trigger] boids[i], bounds)
}

/// Computes `boid_from_draws`.
pub fn spawn_one(x: i32, y: i32, dx: i32, dy: i32) -> (boid: Boid)
    ensures
        boid == boid_from_draws(x, y, dx, dy),
        boid.well_formed(),
{
    let velocity = if dx == 0 && dy == 0 {
        Vec2 { x: 0, y: ONE as i64 }
    } else {
        Vec2 { x: dx as i64, y: dy as i64 }.normalized()
    };
    Boid::new(Point { x, y }, velocity)
}

/// Creates the flock: as many agents as the settings ask for, each at a
/// random place inside the world and with a random heading of unit length.
///
/// Fails with `MissingBounds` where no bounds are given and with
/// `InvalidBounds` where the world has no inside.
pub fn spawn_boids(settings: &Settings, bounds: Option<WorldBounds>) -> (made: Result<
    Flock,
    InitError,
>)
    ensures
        bounds is None ==> made == Err::<Flock, InitError>(InitError::MissingBounds),
        bounds is Some && !has_inside(bounds->Some_0) ==> made == Err::<Flock, InitError>(
            InitError::InvalidBounds,
        ),
        bounds is Some && has_inside(bounds->Some_0) ==> made is Ok && is_spawned_flock(
            made->Ok_0@,
            *settings,
            bounds->Some_0,
        ),
{
    let world = match bounds {
        None => {
            return Err(InitError::MissingBounds);
        },
        Some(world) => world,
    };
    let half_width: i32 = world.width / 2;
    let half_height: i32 = world.height / 2;
    if half_width < 1 || half_height < 1 {
        return Err(InitError::InvalidBounds);
    }
    let count: usize = if settings.target_boid_count > 0 {
        settings.target_boid_count as usize
    } else {
        0
    };
    let mut rng = rand::thread_rng();
    let mut flock = Flock::new();
    let mut made: usize = 0;
    while made < count
        invariant
            made <= count,
            flock@.len() == made,
            half_width == half_extent(world.width),
            half_height == half_extent(world.height),
            half_width >= 1,
            half_height >= 1,
            forall|i: int| 0 <= i < flock@.len() ==> freshly_spawned(#[trigger] flock@[i], world),
        decreases count - made,
    {
        let x: i32 = draw_between(&mut rng, -half_width + 1, half_width + 1);
        let y: i32 = draw_between(&mut rng, -half_height + 1, half_height + 1);
        let dx: i32 = draw_between(&mut rng, -ONE, ONE);
        let dy: i32 = draw_between(&mut rng, -ONE, ONE);
        let boid = spawn_one(x, y, dx, dy);
        assert(freshly_spawned(boid, world)) by {
        }
        let ghost before = flock@;
        flock.push(boid);
        assert forall|i: int| 0 <= i < flock@.len() implies freshly_spawned(
            #[trigger] flock@[i],
            world,
        ) by {
            if i < before.len() {
            }
        }
        made += 1;
    }
    Ok(flock)
}

} // verus!
