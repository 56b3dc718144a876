use boids::boid::Boid;
use boids::fixed::ONE;
use boids::flock::Flock;
use boids::settings::Settings;
use boids::vector::{Accum, Point, Vec2};
use boids::world::WorldBounds;

fn window() -> WorldBounds {
    WorldBounds { width: 1600 * ONE, height: 900 * ONE }
}

fn lively() -> Settings {
    Settings {
        move_speed: 100 * ONE,
        vision_distance: 15 * ONE,
        visual_scale: ONE,
        separation_gain: 3 * ONE,
        cohesion_gain: ONE,
        alignment_gain: 2 * ONE,
        target_boid_count: 4,
        paused: false,
    }
}

fn small_flock() -> Flock {
    let one = ONE as i64;
    let mut flock = Flock::new();
    flock.push(Boid::new(Point { x: 0, y: 0 }, Vec2 { x: one, y: 0 }));
    flock.push(Boid::new(Point { x: 10 * ONE, y: 0 }, Vec2 { x: 0, y: one }));
    flock.push(Boid::new(Point { x: 0, y: 20 * ONE }, Vec2 { x: -one, y: -one }));
    flock.push(Boid::new(Point { x: 500 * ONE, y: 500 * ONE }, Vec2 { x: one, y: one }));
    flock
}

#[test]
fn one_tick_scans_steers_moves_and_wraps() {
    let mut flock = small_flock();
    flock.tick(&lively(), ONE / 2, &window());
    assert_eq!(
        flock.boids,
        vec![
            Boid::new(Point { x: 3264008, y: 289250 }, Vec2 { x: 65280, y: 5785 }),
            Boid::new(Point { x: 3903, y: 3211389 }, Vec2 { x: -13029, y: 64227 }),
            Boid::new(Point { x: -2317047, y: -1006327 }, Vec2 { x: -65536, y: -65536 }),
            Boid::new(Point { x: 35085047, y: -29425664 }, Vec2 { x: 65536, y: 65536 }),
        ]
    );
}

#[test]
fn a_second_tick_starts_from_clear_scratch_space() {
    let mut flock = small_flock();
    flock.tick(&lively(), ONE / 2, &window());
    flock.tick(&lively(), ONE / 2, &window());
    assert_eq!(
        flock.boids,
        vec![
            Boid::new(Point { x: 6528016, y: 578500 }, Vec2 { x: 65280, y: 5785 }),
            Boid::new(Point { x: -647554, y: 6422778 }, Vec2 { x: -13029, y: 64227 }),
            Boid::new(Point { x: -4634094, y: -3323374 }, Vec2 { x: -65536, y: -65536 }),
            Boid::new(Point { x: 37402094, y: -27108617 }, Vec2 { x: 65536, y: 65536 }),
        ]
    );
}

#[test]
fn a_tick_with_the_default_settings_aligns_and_moves() {
    let one = ONE as i64;
    let mut flock = Flock::new();
    flock.push(Boid::new(Point { x: 0, y: 0 }, Vec2 { x: one, y: 0 }));
    flock.push(Boid::new(Point { x: 10 * ONE, y: 0 }, Vec2 { x: 0, y: one }));
    flock.tick(&Settings::default(), ONE / 60, &window());
    assert_eq!(
        flock.boids,
        vec![
            Boid::new(Point { x: 109199, y: 181 }, Vec2 { x: 65535, y: 109 }),
            Boid::new(Point { x: 655541, y: 109199 }, Vec2 { x: 109, y: 65535 }),
        ]
    );
}

#[test]
fn a_paused_tick_changes_nothing() {
    let mut flock = small_flock();
    flock.boids[1].neighbor_count = 3;
    flock.boids[1].cohesion_accum = Accum { x: 1, y: 2 };
    let before = flock.boids.clone();
    let settings = Settings { paused: true, ..lively() };
    for _ in 0..25 {
        flock.tick(&settings, ONE / 60, &window());
    }
    assert_eq!(flock.boids, before);
}

#[test]
fn a_paused_tick_does_not_wrap_agents_outside_the_world() {
    let mut flock = Flock::new();
    flock.push(Boid::new(Point { x: i32::MAX, y: i32::MIN }, Vec2 { x: 1, y: 1 }));
    let settings = Settings { paused: true, ..Settings::default() };
    flock.tick(&settings, ONE, &window());
    assert_eq!(flock.position(0), Some(Point { x: i32::MAX, y: i32::MIN }));
}

#[test]
fn ticks_never_change_the_population() {
    let mut flock = small_flock();
    for round in 0..40 {
        flock.tick(&lively(), ONE / 30, &window());
        assert_eq!(flock.len(), 4, "after tick {}", round);
    }
    let mut empty = Flock::new();
    empty.tick(&lively(), ONE, &window());
    assert_eq!(empty.len(), 0);
}

#[test]
fn two_runs_from_the_same_start_agree_tick_by_tick() {
    let mut first = small_flock();
    let mut second = small_flock();
    let times = [ONE / 60, ONE / 30, 0, ONE, ONE / 7, 3 * ONE, ONE / 60];
    for elapsed in times {
        first.tick(&lively(), elapsed, &window());
        second.tick(&lively(), elapsed, &window());
        assert_eq!(first.boids, second.boids);
    }
}

#[test]
fn an_isolated_agent_keeps_its_velocity_through_a_tick() {
    let mut flock = small_flock();
    let before = flock.velocity(3);
    flock.tick(&lively(), ONE / 2, &window());
    assert_eq!(flock.velocity(3), before);
    assert_eq!(flock.velocity(2), Some(Vec2 { x: -(ONE as i64), y: -(ONE as i64) }));
}

#[test]
fn with_zero_gains_every_agent_flies_straight() {
    let settings = Settings { separation_gain: 0, cohesion_gain: 0, alignment_gain: 0, ..lively() };
    let mut flock = small_flock();
    let start = flock.boids.clone();
    let step = Settings::step_length(settings.move_speed, ONE / 60) as i128;
    flock.tick(&settings, ONE / 60, &WorldBounds { width: 2000 * ONE, height: 2000 * ONE });
    for (now, then) in flock.boids.iter().zip(start.iter()) {
        assert_eq!(now.velocity, then.velocity);
        let dx = (now.position.x - then.position.x) as i128;
        let dy = (now.position.y - then.position.y) as i128;
        let squared = dx * dx + dy * dy;
        assert!(squared <= step * step);
        assert!(squared >= (step - 5) * (step - 5));
    }
}

#[test]
fn a_tick_of_no_time_moves_nothing() {
    let mut flock = small_flock();
    let before = small_flock();
    flock.tick(&lively(), 0, &WorldBounds { width: 2000 * ONE, height: 2000 * ONE });
    assert_eq!(flock.boids, before.boids);
}

#[test]
fn the_bounds_may_change_between_ticks() {
    let settings = Settings { move_speed: 0, ..Settings::default() };
    let mut flock = Flock::new();
    flock.push(Boid::new(Point { x: 300 * ONE, y: 0 }, Vec2 { x: 1, y: 0 }));
    flock.tick(&settings, ONE, &window());
    assert_eq!(flock.position(0), Some(Point { x: 300 * ONE, y: 0 }));
    flock.tick(&settings, ONE, &WorldBounds { width: 400 * ONE, height: 400 * ONE });
    assert_eq!(flock.position(0), Some(Point { x: -199 * ONE, y: 0 }));
}

#[test]
fn the_accessors_answer_for_agents_that_exist() {
    let flock = small_flock();
    assert_eq!(flock.len(), 4);
    assert_eq!(flock.position(1), Some(Point { x: 10 * ONE, y: 0 }));
    assert_eq!(flock.velocity(1), Some(Vec2 { x: 0, y: ONE as i64 }));
    assert_eq!(flock.get(3), Some(flock.boids[3]));
    assert_eq!(flock.position(4), None);
    assert_eq!(flock.velocity(4), None);
    assert_eq!(flock.get(usize::MAX), None);
    assert_eq!(Settings::default().visual_scale(), ONE);
}
