use raytracer::ray::{Event, Path, Radiance, Ray, T_MAX_BITS, T_MIN_BITS};
use raytracer::scalar::Scalar;
use raytracer::vector::Vec3;

/// Runs a path against a scene that answers with `events`, one after the
/// other, and then for ever with the last of them. Returns what the path
/// brings and how often the scene was asked.
fn trace(depth: i32, events: &[Event]) -> (Radiance, usize) {
    let mut path = Path::new(depth);
    let mut asked = 0;
    loop {
        if let Some(radiance) = path.radiance() {
            return (radiance, asked);
        }
        let event = events[asked.min(events.len() - 1)];
        asked += 1;
        path = path.step(event);
    }
}

#[test]
fn path_without_budget_is_black_and_asks_nothing() {
    assert_eq!(trace(0, &[Event::Miss]), (Radiance::Black, 0));
    assert_eq!(trace(-3, &[Event::Miss]), (Radiance::Black, 0));
    assert_eq!(trace(i32::MIN, &[Event::Hit]), (Radiance::Black, 0));
}

#[test]
fn path_that_misses_at_once_brings_the_sky() {
    assert_eq!(trace(50, &[Event::Miss]), (Radiance::Sky { bounces: 0 }, 1));
    assert_eq!(trace(1, &[Event::Miss]), (Radiance::Sky { bounces: 0 }, 1));
}

#[test]
fn path_counts_its_bounces() {
    let events = [Event::Hit, Event::Hit, Event::Hit, Event::Miss];
    assert_eq!(trace(50, &events), (Radiance::Sky { bounces: 3 }, 4));
    assert_eq!(trace(4, &events), (Radiance::Sky { bounces: 3 }, 4));
}

#[test]
fn path_in_a_closed_scene_ends_with_its_budget() {
    assert_eq!(trace(50, &[Event::Hit]), (Radiance::Black, 50));
    assert_eq!(trace(1, &[Event::Hit]), (Radiance::Black, 1));
    assert_eq!(trace(3, &[Event::Hit, Event::Hit, Event::Hit, Event::Miss]), (Radiance::Black, 3));
}

#[test]
fn path_that_has_ended_stays_as_it_is() {
    let sky = Path::new(5).step(Event::Hit).step(Event::Miss);
    assert_eq!(sky.radiance(), Some(Radiance::Sky { bounces: 1 }));
    let sky = sky.step(Event::Hit).step(Event::Hit).step(Event::Miss);
    assert_eq!(sky.radiance(), Some(Radiance::Sky { bounces: 1 }));
    let black = Path::new(1).step(Event::Hit).step(Event::Miss);
    assert_eq!(black.radiance(), Some(Radiance::Black));
}

#[test]
fn path_with_the_largest_budget_starts() {
    let path = Path::new(i32::MAX);
    assert_eq!(path.radiance(), None);
    let path = path.step(Event::Hit).step(Event::Miss);
    assert_eq!(path.radiance(), Some(Radiance::Sky { bounces: 1 }));
}

#[test]
fn ray_keeps_its_origin_and_direction() {
    let scalar = |value: f64| Scalar::from_bits(value.to_bits());
    let origin = Vec3::new(scalar(1.0), scalar(1.0), scalar(1.0));
    let direction = Vec3::new(scalar(3.0), scalar(4.0), scalar(0.0));
    let ray = Ray::new(origin, direction);
    assert_eq!(ray.origin.x.to_bits(), 1.0f64.to_bits());
    assert_eq!(ray.direction.x.to_bits(), 3.0f64.to_bits());
    assert_eq!(ray.direction.y.to_bits(), 4.0f64.to_bits());
    assert_eq!(ray.direction.z.to_bits(), 0.0f64.to_bits());
}

#[test]
fn interval_of_hits_runs_from_a_little_above_zero_to_the_largest_single() {
    assert_eq!(T_MIN_BITS, 0.0001f64.to_bits());
    assert_eq!(T_MAX_BITS, (f32::MAX as f64).to_bits());
}
