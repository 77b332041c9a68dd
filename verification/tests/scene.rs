use rand::rngs::StdRng;
use rand::{Rng, SeedableRng};
use raytracer::canvas::Canvas;
use raytracer::hittable::{front_face, Hittable, Record};
use raytracer::hittable_list::HittableList;
use raytracer::ray::{Event, Path, Radiance, Ray, T_MAX_BITS, T_MIN_BITS};
use raytracer::render::{pixel_count, pixel_position, pixel_span, render};
use raytracer::scalar::Scalar;
use raytracer::sphere::{select_root, Root};
use raytracer::vector::Vec3;

type V = [f64; 3];

fn add(a: V, b: V) -> V {
    [a[0] + b[0], a[1] + b[1], a[2] + b[2]]
}

fn sub(a: V, b: V) -> V {
    [a[0] - b[0], a[1] - b[1], a[2] - b[2]]
}

fn scale(k: f64, a: V) -> V {
    [k * a[0], k * a[1], k * a[2]]
}

fn dot(a: V, b: V) -> f64 {
    a[0] * b[0] + a[1] * b[1] + a[2] * b[2]
}

fn unit(a: V) -> V {
    let length = dot(a, a).sqrt();
    [a[0] / length, a[1] / length, a[2] / length]
}

fn scalar(value: f64) -> Scalar {
    Scalar::from_bits(value.to_bits())
}

struct Sphere {
    center: V,
    radius: f64,
}

fn vec3(a: V) -> Vec3 {
    Vec3::new(scalar(a[0]), scalar(a[1]), scalar(a[2]))
}

fn numbers(a: Vec3) -> V {
    [f64::from_bits(a.x.to_bits()), f64::from_bits(a.y.to_bits()), f64::from_bits(a.z.to_bits())]
}

type Scene = HittableList<Sphere>;

fn two_spheres() -> Scene {
    HittableList::new(vec![
        Sphere { center: [0.0, 0.0, -1.0], radius: 0.5 },
        Sphere { center: [0.0, -100.5, -1.0], radius: 100.0 },
    ])
}

impl Hittable for Sphere {
    fn hit(&self, r: &Ray, t_min: Scalar, t_max: Scalar) -> Option<Record> {
        let (origin, direction) = (numbers(r.origin), numbers(r.direction));
        let oc = sub(origin, self.center);
        let a = dot(direction, direction);
        let half_b = dot(oc, direction);
        let c = dot(oc, oc) - self.radius * self.radius;
        let discriminant = half_b * half_b - a * c;
        let root = discriminant.sqrt();
        let near = (-half_b - root) / a;
        let far = (-half_b + root) / a;
        let t = match select_root(scalar(discriminant), scalar(near), scalar(far), t_min, t_max)? {
            Root::Near => near,
            Root::Far => far,
        };
        let p = add(origin, scale(t, direction));
        let outward = scale(1.0 / self.radius, sub(p, self.center));
        let front = front_face(scalar(dot(direction, outward)));
        Some(Record::new(vec3(p), vec3(outward), scalar(t), front))
    }
}

fn hit_scene(scene: &Scene, origin: V, direction: V) -> Option<Record> {
    scene.hit(
        &Ray::new(vec3(origin), vec3(direction)),
        Scalar::from_bits(T_MIN_BITS),
        Scalar::from_bits(T_MAX_BITS),
    )
}

fn sky(direction: V) -> V {
    let t = 0.5 * (unit(direction)[1] + 1.0);
    add(scale(1.0 - t, [1.0, 1.0, 1.0]), scale(t, [0.5, 0.7, 1.0]))
}

/// The colour along a ray, and how often the scene was asked for it.
fn color(
    scene: &Scene,
    origin: V,
    direction: V,
    depth: i32,
    source: &mut dyn FnMut() -> f64,
) -> (V, u32) {
    let (mut origin, mut direction) = (origin, direction);
    let mut path = Path::new(depth);
    let mut asked = 0;
    loop {
        match path.radiance() {
            Some(Radiance::Black) => return ([0.0, 0.0, 0.0], asked),
            Some(Radiance::Sky { bounces }) => {
                let mut color = sky(direction);
                for _ in 0..bounces {
                    color = scale(0.5, color);
                }
                return (color, asked);
            }
            None => {}
        }
        asked += 1;
        let event = match hit_scene(scene, origin, direction) {
            Some(record) => {
                let angle = std::f64::consts::TAU * source();
                let z = 2.0 * source() - 1.0;
                let r = (1.0 - z * z).sqrt();
                let p = numbers(record.p);
                let random = [r * angle.cos(), r * angle.sin(), z];
                let target = add(add(p, numbers(record.normal)), random);
                origin = p;
                direction = sub(target, p);
                Event::Hit
            }
            None => Event::Miss,
        };
        path = path.step(event);
    }
}

fn camera_ray(u: f64, v: f64) -> (V, V) {
    let origin = [0.0, 0.0, 0.0];
    let horizontal = [16.0 / 9.0 * 2.0, 0.0, 0.0];
    let vertical = [0.0, 2.0, 0.0];
    let corner = sub(
        sub(sub(origin, scale(0.5, horizontal)), scale(0.5, vertical)),
        [0.0, 0.0, 1.0],
    );
    (origin, sub(add(add(corner, scale(u, horizontal)), scale(v, vertical)), origin))
}

fn bytes(color: V) -> [u8; 3] {
    vec3(color).to_rgb(vec3(scale(255.99, color)))
}

/// The image of the scene, and the largest number of times that the scene
/// was asked along one path.
fn picture(
    scene: &Scene,
    width: u32,
    height: u32,
    samples: u32,
    depth: i32,
    source: &mut dyn FnMut() -> f64,
) -> (Canvas, u32) {
    let count = pixel_count(width, height).unwrap();
    let mut most_asked = 0;
    let mut colors = Vec::new();
    for index in 0..count {
        let (x, y) = pixel_position(index, width);
        let mut sum = [0.0, 0.0, 0.0];
        for _ in 0..samples {
            let u = (source() + x as f64) / pixel_span(width) as f64;
            let v = 1.0 - (source() + y as f64) / pixel_span(height) as f64;
            let (origin, direction) = camera_ray(u, v);
            let (sample, asked) = color(scene, origin, direction, depth, source);
            most_asked = most_asked.max(asked);
            sum = add(sum, sample);
        }
        let mean = scale(1.0 / samples as f64, sum);
        colors.push(bytes([mean[0].sqrt(), mean[1].sqrt(), mean[2].sqrt()]));
    }
    (render(width, height, &colors).unwrap(), most_asked)
}

fn middle() -> f64 {
    0.5
}

#[test]
fn two_spheres_top_row_is_the_sky() {
    let (canvas, _) = picture(&two_spheres(), 16, 9, 1, 1, &mut middle);
    for x in 0..16u32 {
        let u = (0.5 + x as f64) / 15.0;
        let direction = [-16.0 / 9.0 + u * 32.0 / 9.0, 0.875, -1.0];
        let length = (direction[0] * direction[0] + 0.875 * 0.875 + 1.0).sqrt();
        let t = 0.5 * (0.875 / length + 1.0);
        let sky = [1.0 - t + t * 0.5, 1.0 - t + t * 0.7, 1.0];
        let pixel = canvas.pixel(x, 0).unwrap();
        for channel in 0..3 {
            let expected = (sky[channel].sqrt() * 255.99).min(255.0) as i32;
            assert!((pixel[channel] as i32 - expected).abs() <= 1, "{:?} at {}", pixel, x);
        }
        assert_eq!(pixel[2], 255);
        assert!(pixel[0] < pixel[1] && pixel[1] < pixel[2]);
    }
}

#[test]
fn two_spheres_centre_is_black_at_depth_one() {
    let (canvas, asked) = picture(&two_spheres(), 16, 9, 1, 1, &mut middle);
    assert_eq!(canvas.pixel(7, 4), Some([0, 0, 0]));
    assert_eq!(canvas.pixel(8, 4), Some([0, 0, 0]));
    assert_eq!(canvas.pixel(8, 8), Some([0, 0, 0]));
    assert_eq!(asked, 1);
}

#[test]
fn two_spheres_centre_is_at_most_half_the_sky_at_depth_two() {
    let (canvas, asked) = picture(&two_spheres(), 16, 9, 1, 2, &mut middle);
    let full = (0.5f64.sqrt() * 255.99) as u8;
    for x in 7..9 {
        let pixel = canvas.pixel(x, 4).unwrap();
        assert!(pixel.iter().all(|channel| *channel <= full), "{:?}", pixel);
    }
    assert!(asked <= 2);
}

#[test]
fn scene_is_asked_no_more_often_than_the_depth() {
    for depth in [-1, 0, 1, 2, 5, 50] {
        let mut rng = StdRng::seed_from_u64(11);
        let mut source = || rng.gen::<f64>();
        let (_, asked) = picture(&two_spheres(), 16, 9, 2, depth, &mut source);
        assert!(asked as i64 <= depth.max(0) as i64, "{} at depth {}", asked, depth);
    }
}

#[test]
fn closed_scene_uses_the_whole_depth_and_is_black() {
    let inside = HittableList::new(vec![Sphere { center: [0.0, 0.0, 0.0], radius: 10.0 }]);
    let mut rng = StdRng::seed_from_u64(5);
    let mut source = || rng.gen::<f64>();
    let (canvas, asked) = picture(&inside, 4, 3, 1, 50, &mut source);
    assert_eq!(asked, 50);
    for y in 0..3 {
        for x in 0..4 {
            assert_eq!(canvas.pixel(x, y), Some([0, 0, 0]));
        }
    }
}

#[test]
fn seeded_render_repeats_bit_for_bit() {
    let mut images = Vec::new();
    for _ in 0..2 {
        let mut rng = StdRng::seed_from_u64(2024);
        let mut source = || rng.gen::<f64>();
        let (canvas, _) = picture(&two_spheres(), 16, 9, 4, 50, &mut source);
        let mut pixels = Vec::new();
        for y in 0..9 {
            for x in 0..16 {
                pixels.push(canvas.pixel(x, y).unwrap());
            }
        }
        images.push(pixels);
    }
    assert_eq!(images[0], images[1]);
    assert!(images[0].iter().any(|pixel| *pixel != [0, 0, 0]));
}

#[test]
fn empty_scene_is_all_sky() {
    let (canvas, asked) = picture(&HittableList::new(vec![]), 16, 9, 1, 50, &mut middle);
    assert_eq!(asked, 1);
    for y in 0..9 {
        for x in 0..16 {
            assert_eq!(canvas.pixel(x, y).unwrap()[2], 255);
        }
    }
}

#[test]
fn image_of_one_pixel_looks_straight_ahead() {
    let (canvas, asked) = picture(&HittableList::new(vec![]), 1, 1, 1, 50, &mut middle);
    assert_eq!(asked, 1);
    assert_eq!(canvas.pixel(0, 0), Some([221, 236, 255]));
    assert_eq!(canvas.pixel(1, 0), None);
    let (canvas, asked) = picture(&two_spheres(), 1, 1, 1, 1, &mut middle);
    assert_eq!(asked, 1);
    assert_eq!(canvas.pixel(0, 0), Some([0, 0, 0]));
}
