use boids::boid::Boid;
use boids::fixed::ONE;
use boids::flock::Flock;
use boids::settings::Settings;
use boids::vector::{Point, Vec2};
use boids::world::{wrap_coordinate, WorldBounds};

fn screen() -> WorldBounds {
    WorldBounds { width: 1600 * ONE, height: 900 * ONE }
}

fn half_width() -> i32 {
    800 * ONE
}

fn half_height() -> i32 {
    450 * ONE
}

#[test]
fn a_coordinate_beyond_the_far_edge_enters_at_the_near_edge() {
    assert_eq!(wrap_coordinate(half_width() as i64 + 1, 1600 * ONE), -half_width() + ONE);
    assert_eq!(wrap_coordinate(half_width() as i64 + 12345, 1600 * ONE), -half_width() + ONE);
    assert_eq!(wrap_coordinate(i64::MAX, 1600 * ONE), -half_width() + ONE);
}

#[test]
fn a_coordinate_at_or_beyond_the_near_edge_enters_at_the_far_edge() {
    assert_eq!(wrap_coordinate(-(half_width() as i64), 1600 * ONE), half_width() - ONE);
    assert_eq!(wrap_coordinate(-(half_width() as i64) - 1, 1600 * ONE), half_width() - ONE);
    assert_eq!(wrap_coordinate(i64::MIN, 1600 * ONE), half_width() - ONE);
}

#[test]
fn a_coordinate_inside_the_world_stays() {
    assert_eq!(wrap_coordinate(half_width() as i64, 1600 * ONE), half_width());
    assert_eq!(wrap_coordinate(-(half_width() as i64) + 1, 1600 * ONE), -half_width() + 1);
    assert_eq!(wrap_coordinate(0, 1600 * ONE), 0);
}

#[test]
fn wrapping_twice_is_wrapping_once() {
    for coordinate in [i64::MIN, -(half_width() as i64), -5, 0, half_width() as i64, i64::MAX] {
        let once = wrap_coordinate(coordinate, 1600 * ONE);
        assert_eq!(wrap_coordinate(once as i64, 1600 * ONE), once);
    }
}

#[test]
fn the_axes_wrap_independently() {
    let bounds = screen();
    assert_eq!(
        bounds.wrap(half_width() as i64 + 1, 77),
        Point { x: -half_width() + ONE, y: 77 }
    );
    assert_eq!(
        bounds.wrap(-3, half_height() as i64 + 1),
        Point { x: -3, y: -half_height() + ONE }
    );
    assert_eq!(
        bounds.wrap(-(half_width() as i64), -(half_height() as i64)),
        Point { x: half_width() - ONE, y: half_height() - ONE }
    );
}

#[test]
fn a_world_without_extent_still_wraps() {
    assert_eq!(wrap_coordinate(1, 0), ONE);
    assert_eq!(wrap_coordinate(0, 0), -ONE);
    assert_eq!(wrap_coordinate(-1, 0), -ONE);
    assert_eq!(wrap_coordinate(5, i32::MIN), (1 << 30) + ONE);
    assert_eq!(wrap_coordinate(i64::MIN, i32::MIN), -(1 << 30) - ONE);
}

#[test]
fn an_odd_extent_rounds_its_half_toward_zero() {
    assert_eq!(wrap_coordinate(3, 7), 3);
    assert_eq!(wrap_coordinate(4, 7), -3 + ONE);
    assert_eq!(wrap_coordinate(-3, 7), 3 - ONE);
    assert_eq!(wrap_coordinate(-2, 7), -2);
}

#[test]
fn an_agent_advances_by_speed_times_time() {
    let settings = Settings::default();
    let mut boid = Boid::new(Point { x: 0, y: 0 }, Vec2 { x: 3, y: 4 });
    boid.advance(&settings, ONE / 2, &screen());
    assert_eq!(boid.position, Point { x: 30 * ONE, y: 40 * ONE });
    assert_eq!(boid.velocity, Vec2 { x: 3, y: 4 });
}

#[test]
fn the_length_of_the_velocity_does_not_change_the_distance() {
    let settings = Settings::default();
    for scale in [1i64, 1000, 1 << 20, 1 << 40, 1 << 60] {
        let mut boid = Boid::new(Point { x: 0, y: 0 }, Vec2 { x: 3 * scale, y: -4 * scale });
        boid.advance(&settings, ONE / 2, &screen());
        assert_eq!(boid.position, Point { x: 30 * ONE, y: -40 * ONE });
    }
}

#[test]
fn the_distance_travelled_is_the_step_within_tolerance() {
    let settings = Settings::default();
    let step = Settings::step_length(settings.move_speed, ONE / 60) as i128;
    for velocity in [
        Vec2 { x: 1, y: 1 },
        Vec2 { x: 65427, y: 109 },
        Vec2 { x: -9663, y: 47631 },
        Vec2 { x: i64::MAX, y: 1 },
        Vec2 { x: -5, y: i64::MIN },
    ] {
        let mut boid = Boid::new(Point { x: 0, y: 0 }, velocity);
        boid.advance(&settings, ONE / 60, &screen());
        let dx = boid.position.x as i128;
        let dy = boid.position.y as i128;
        let squared = dx * dx + dy * dy;
        assert!(squared <= step * step);
        assert!(squared >= (step - 5) * (step - 5));
    }
}

#[test]
fn an_agent_without_heading_stays_where_it_is() {
    let mut boid = Boid::new(Point { x: 11, y: -12 }, Vec2 { x: 0, y: 0 });
    boid.advance(&Settings::default(), ONE, &screen());
    assert_eq!(boid.position, Point { x: 11, y: -12 });
}

#[test]
fn an_agent_that_leaves_on_the_right_enters_on_the_left() {
    let settings = Settings::default();
    let mut boid = Boid::new(Point { x: half_width() - 1, y: 5 * ONE }, Vec2 { x: 1, y: 0 });
    boid.advance(&settings, ONE / 60, &screen());
    assert_eq!(boid.position, Point { x: -half_width() + ONE, y: 5 * ONE });
}

#[test]
fn an_agent_that_leaves_on_the_left_enters_on_the_right() {
    let settings = Settings::default();
    let mut boid = Boid::new(Point { x: -half_width() + 1, y: 5 * ONE }, Vec2 { x: -1, y: 0 });
    boid.advance(&settings, ONE / 60, &screen());
    assert_eq!(boid.position, Point { x: half_width() - ONE, y: 5 * ONE });
}

#[test]
fn an_agent_that_leaves_at_the_top_enters_at_the_bottom() {
    let settings = Settings::default();
    let mut boid = Boid::new(Point { x: 5 * ONE, y: half_height() - 1 }, Vec2 { x: 0, y: 1 });
    boid.advance(&settings, ONE / 60, &screen());
    assert_eq!(boid.position, Point { x: 5 * ONE, y: -half_height() + ONE });
    let mut boid = Boid::new(Point { x: 5 * ONE, y: -half_height() + 1 }, Vec2 { x: 0, y: -1 });
    boid.advance(&settings, ONE / 60, &screen());
    assert_eq!(boid.position, Point { x: 5 * ONE, y: half_height() - ONE });
}

#[test]
fn the_largest_step_from_the_farthest_corner_still_wraps() {
    let settings = Settings { move_speed: i32::MIN, ..Settings::default() };
    let mut boid = Boid::new(Point { x: i32::MIN, y: i32::MAX }, Vec2 { x: 1, y: -1 });
    boid.advance(&settings, i32::MIN, &screen());
    assert_eq!(boid.position, Point { x: -half_width() + ONE, y: half_height() - ONE });
}

#[test]
fn integration_moves_every_agent() {
    let settings = Settings::default();
    let mut flock = Flock::new();
    flock.push(Boid::new(Point { x: 0, y: 0 }, Vec2 { x: 3, y: 4 }));
    flock.push(Boid::new(Point { x: half_width() - 1, y: 0 }, Vec2 { x: 1, y: 0 }));
    flock.push(Boid::new(Point { x: 9, y: 9 }, Vec2 { x: 0, y: 0 }));
    flock.integrate(&settings, ONE / 2, &screen());
    assert_eq!(flock.position(0), Some(Point { x: 30 * ONE, y: 40 * ONE }));
    assert_eq!(flock.position(1), Some(Point { x: -half_width() + ONE, y: 0 }));
    assert_eq!(flock.position(2), Some(Point { x: 9, y: 9 }));
    assert_eq!(flock.len(), 3);
}

#[test]
fn wrapping_the_borders_moves_only_agents_outside() {
    let mut flock = Flock::new();
    flock.push(Boid::new(Point { x: 900 * ONE, y: -600 * ONE }, Vec2 { x: 1, y: 2 }));
    flock.push(Boid::new(Point { x: 100 * ONE, y: 100 * ONE }, Vec2 { x: 3, y: 4 }));
    flock.wrap_borders(&screen());
    assert_eq!(
        flock.get(0),
        Some(Boid::new(Point { x: -half_width() + ONE, y: half_height() - ONE }, Vec2 { x: 1, y: 2 }))
    );
    assert_eq!(
        flock.get(1),
        Some(Boid::new(Point { x: 100 * ONE, y: 100 * ONE }, Vec2 { x: 3, y: 4 }))
    );
}
