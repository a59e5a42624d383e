use cgmath::{InnerSpace, Quaternion};
use raymarcher::color;
use raymarcher::fractals::{
    clamp_distance, EscapeTime, Julia, Orbit, QUATERNION_ESTIMATE_SCALE_BITS,
};
use raymarcher::frame::FrameBuffer;
use raymarcher::ray::{Marcher, Probe, Progress, RayResult, StepLimit, HIT_THRESHOLD_BITS};
use raymarcher::raymarcher::{
    check_camera_basis, check_length, check_resolution, pixel_position, sample_count, subsample,
    specular_term, RayMarcherConfig,
};
use raymarcher::scalar::Scalar;
use raymarcher::vec3::Vec3;

const EPS: f64 = 1e-7;

fn s(x: f64) -> Scalar {
    Scalar::from_bits(x.to_bits())
}

fn f(x: Scalar) -> f64 {
    f64::from_bits(x.to_bits())
}

#[derive(Clone, Copy, Debug, PartialEq)]
struct V {
    x: f64,
    y: f64,
    z: f64,
}

fn vec(x: f64, y: f64, z: f64) -> V {
    V { x, y, z }
}

fn held(a: V) -> Vec3 {
    Vec3::new(s(a.x), s(a.y), s(a.z))
}

fn plain(a: Vec3) -> V {
    vec(f(a.x), f(a.y), f(a.z))
}

fn add(a: V, b: V) -> V {
    vec(a.x + b.x, a.y + b.y, a.z + b.z)
}

fn sub(a: V, b: V) -> V {
    vec(a.x - b.x, a.y - b.y, a.z - b.z)
}

fn scale(k: f64, a: V) -> V {
    vec(k * a.x, k * a.y, k * a.z)
}

fn dot(a: V, b: V) -> f64 {
    a.x * b.x + a.y * b.y + a.z * b.z
}

fn cross(a: V, b: V) -> V {
    vec(a.y * b.z - a.z * b.y, a.z * b.x - a.x * b.z, a.x * b.y - a.y * b.x)
}

fn magnitude(a: V) -> f64 {
    dot(a, a).sqrt()
}

fn normalized(a: V) -> V {
    let m = magnitude(a);
    assert_eq!(check_length(s(m)), Ok(()));
    scale(1.0 / m, a)
}

fn reflect(a: V, norm: V) -> V {
    let norm = normalized(norm);
    sub(a, scale(2.0 * dot(a, norm), norm))
}

enum Field {
    Julia(Julia),
    Sphere { center: V, radius: f64, color: V },
}

impl Field {
    fn distance_to(&self, point: V, t: f64) -> f64 {
        match self {
            Field::Sphere { center, radius, .. } => magnitude(sub(point, *center)) - radius,
            Field::Julia(julia) => {
                let c = Quaternion::new(f(julia.c.s), f(julia.c.x), f(julia.c.y), f(julia.c.z));
                let (z0, dz0) = julia.seed(held(point), s(t));
                let mut z = Quaternion::new(f(z0.s), f(z0.x), f(z0.y), f(z0.z));
                let mut dz = Quaternion::new(f(dz0.s), f(dz0.x), f(dz0.y), f(dz0.z));
                let mut orbit = Orbit::new(EscapeTime::quaternion());
                while orbit.has_budget() {
                    let z_new = z * z + c;
                    dz = 2.0 * z * dz;
                    z = z_new;
                    if !orbit.record(s(z.magnitude())) {
                        break;
                    }
                }
                let estimate = z.magnitude() * z.magnitude().ln() / dz.magnitude();
                f(clamp_distance(s(estimate))) * f64::from_bits(QUATERNION_ESTIMATE_SCALE_BITS)
            }
        }
    }

    fn get_color(&self, t: f64) -> V {
        match self {
            Field::Sphere { color, .. } => *color,
            Field::Julia(julia) => plain(julia.get_color(s(t))),
        }
    }

    fn gradient(&self, p: V, t: f64) -> V {
        let x = self.distance_to(vec(p.x + EPS, p.y, p.z), t)
            - self.distance_to(vec(p.x - EPS, p.y, p.z), t);
        let y = self.distance_to(vec(p.x, p.y + EPS, p.z), t)
            - self.distance_to(vec(p.x, p.y - EPS, p.z), t);
        let z = self.distance_to(vec(p.x, p.y, p.z + EPS), t)
            - self.distance_to(vec(p.x, p.y, p.z - EPS), t);
        vec(x, y, z)
    }
}

fn cast_ray(field: &Field, point: V, dir: V, backplanes: V, t: f64) -> Option<RayResult> {
    let dir = normalized(dir);
    let mut marcher = Marcher::new(held(backplanes), StepLimit::Unlimited);
    let mut current_point = point;
    let mut ray_len = 0.0;
    loop {
        let radius = field.distance_to(current_point, t);
        ray_len += radius;
        current_point = add(point, scale(ray_len, dir));
        let probe = Probe { radius: s(radius), ray_len: s(ray_len), point: held(current_point) };
        match marcher.observe(probe) {
            Progress::Hit(result) => return Some(result),
            Progress::Miss => return None,
            Progress::Advance => {}
        }
    }
}

fn phong(field: &Field, config: &RayMarcherConfig, hit: &RayResult, t: f64) -> Option<V> {
    let hit_point = plain(hit.hit_point);
    let gradient = field.gradient(hit_point, t);
    if check_length(s(magnitude(gradient))).is_err() {
        return None;
    }
    let light_vec = normalized(sub(plain(config.light_pos), hit_point));
    let norm = normalized(gradient);
    let s_dot_n = dot(norm, light_vec);
    let reflect_vec = reflect(scale(-1.0, light_vec), norm);
    let view_vec = sub(plain(config.camera_pos), hit_point);
    let r_dot_v = dot(reflect_vec, normalized(view_vec));
    let raised = r_dot_v.powf(f(config.specular_shininess));
    let specular = f(specular_term(s(r_dot_v), s(raised)));
    Some(add(scale(s_dot_n, field.get_color(t)), scale(specular, plain(config.specular_color))))
}

fn camera_ray_dir(x: f64, y: f64, config: &RayMarcherConfig, (width, height): (usize, usize)) -> V {
    let cam_pos = plain(config.camera_pos);
    let u = -(x / width as f64 * 2.0 - 1.0);
    let v = y / height as f64 * 2.0 - 1.0;
    let look_dir = normalized(sub(plain(config.look_at), cam_pos));
    let right_vec = cross(vec(0.0, -1.0, 0.0), look_dir);
    assert_eq!(check_camera_basis(held(right_vec)), Ok(()));
    let down_vec = cross(look_dir, right_vec);
    let zoomed_cam_pos = add(cam_pos, scale(f(config.camera_zoom), look_dir));
    let pix_pos = add(add(zoomed_cam_pos, scale(u, right_vec)), scale(v, down_vec));
    normalized(sub(pix_pos, cam_pos))
}

/// The colours of the samples of one pixel, and whether each of them hit.
fn samples(
    field: &Field,
    config: &RayMarcherConfig,
    buffer_idx: usize,
    resolution: (usize, usize),
    t: f64,
) -> Vec<(V, bool)> {
    let (x, y) = pixel_position(buffer_idx, resolution.0);
    let level = config.anti_aliasing_level;
    let count = sample_count(level).expect("a valid level");
    let subpixel_size = 1.0 / level as f64;
    let mut all = Vec::new();
    for k in 0..count {
        let (sub_x, sub_y) = subsample(level, k);
        let ray_dir = camera_ray_dir(
            x as f64 + sub_x as f64 * subpixel_size,
            y as f64 + sub_y as f64 * subpixel_size,
            config,
            resolution,
        );
        let hit =
            cast_ray(field, plain(config.camera_pos), ray_dir, plain(config.backplane_positions), t);
        let lit = match &hit {
            Some(result) => Some(phong(field, config, result, t).unwrap_or(vec(0.0, 0.0, 0.0))),
            None => None,
        };
        all.push((plain(config.trace(lit.map(held))), hit.is_some()));
    }
    all
}

fn send_pixel_ray(
    field: &Field,
    config: &RayMarcherConfig,
    buffer_idx: usize,
    resolution: (usize, usize),
    t: f64,
) -> V {
    let all = samples(field, config, buffer_idx, resolution, t);
    let mut pixel_sum = vec(0.0, 0.0, 0.0);
    for (color, _) in all.iter() {
        pixel_sum = add(pixel_sum, *color);
    }
    scale(1.0 / all.len() as f64, pixel_sum)
}

fn pixel(color: V) -> u32 {
    color::pixel(held(color))
}

fn render(field: &Field, config: &RayMarcherConfig, resolution: (usize, usize), t: f64) -> Vec<u32> {
    assert_eq!(config.validate(), Ok(()));
    let (width, height) = resolution;
    let mut buffer = FrameBuffer::new(width, height).ok().expect("a small image");
    assert_eq!(check_resolution(width, height, buffer.pixels().len()), Ok(()));
    for row in 0..height {
        let line: Vec<u32> = (row * width..row * width + width)
            .map(|i| pixel(send_pixel_ray(field, config, i, resolution, t)))
            .collect();
        assert_eq!(buffer.store_scanline(row, &line), Ok(()));
    }
    buffer.pixels().clone()
}

fn julia_scene() -> (Field, RayMarcherConfig) {
    let julia = Julia {
        c: raymarcher::fractals::Quaternion { s: s(-1.0), x: s(0.2), y: s(0.0), z: s(0.0) },
        color: held(vec(0.8, 0.0, 0.0)),
    };
    let mut config = RayMarcherConfig::default();
    config.anti_aliasing_level = 1;
    config.background_color = held(vec(0.0, 0.0, 1.0));
    (Field::Julia(julia), config)
}

#[test]
fn the_julia_set_fills_the_centre_and_leaves_the_corners() {
    let (field, config) = julia_scene();
    let resolution = (64, 64);
    let mut hits_near_centre = 0;
    for y in 24..40 {
        for x in 24..40 {
            let all = samples(&field, &config, y * 64 + x, resolution, 0.0);
            assert_eq!(all.len(), 1);
            if all[0].1 {
                hits_near_centre += 1;
            }
        }
    }
    assert!(hits_near_centre > 0);
    for &(x, y) in [(0, 0), (63, 0), (0, 63), (63, 63)].iter() {
        let all = samples(&field, &config, y * 64 + x, resolution, 0.0);
        assert!(!all[0].1, "corner {:?}", (x, y));
        assert_eq!(all[0].0, vec(0.0, 0.0, 1.0));
        assert_eq!(pixel(send_pixel_ray(&field, &config, y * 64 + x, resolution, 0.0)), 0x0000_00FF);
    }
}

#[test]
fn rendering_twice_gives_the_same_image() {
    let (field, config) = julia_scene();
    let first = render(&field, &config, (24, 24), 0.0);
    let second = render(&field, &config, (24, 24), 0.0);
    assert_eq!(first.len(), 24 * 24);
    assert_eq!(first, second);
    assert!(first.iter().any(|&p| p != 0x0000_00FF));
    assert!(first.iter().any(|&p| p == 0x0000_00FF));
}

#[test]
fn the_anti_aliased_pixel_lies_between_its_samples() {
    let (field, mut config) = julia_scene();
    config.anti_aliasing_level = 4;
    let resolution = (16, 16);
    for idx in 0..256 {
        let all = samples(&field, &config, idx, resolution, 0.0);
        assert_eq!(all.len(), 16);
        let average = send_pixel_ray(&field, &config, idx, resolution, 0.0);
        for channel in 0..3 {
            let pick = |c: &V| [c.x, c.y, c.z][channel];
            let least = all.iter().map(|(c, _)| pick(c)).fold(f64::INFINITY, f64::min);
            let most = all.iter().map(|(c, _)| pick(c)).fold(f64::NEG_INFINITY, f64::max);
            assert!(least - 1e-12 <= pick(&average) && pick(&average) <= most + 1e-12);
        }
    }
    config.anti_aliasing_level = 1;
    for idx in [0, 100, 136, 255] {
        let single = samples(&field, &config, idx, resolution, 0.0);
        assert_eq!(send_pixel_ray(&field, &config, idx, resolution, 0.0), single[0].0);
    }
}

#[test]
fn the_normal_of_a_sphere_is_a_unit_vector() {
    let field = Field::Sphere { center: vec(0.0, 0.0, 0.0), radius: 1.0, color: vec(1.0, 0.0, 0.0) };
    let config = RayMarcherConfig::default();
    let mut checked = 0;
    for &target in
        [vec(0.0, 0.0, 0.0), vec(0.3, 0.1, -0.2), vec(-0.5, 0.4, 0.0), vec(0.0, -0.6, 0.5)].iter()
    {
        let origin = plain(config.camera_pos);
        let hit = cast_ray(&field, origin, sub(target, origin), vec(3.0, 3.0, 3.0), 0.0)
            .expect("the ray points into the sphere");
        let p = plain(hit.hit_point);
        let normal = normalized(field.gradient(p, 0.0));
        assert!((magnitude(normal) - 1.0).abs() < 1e-6);
        assert!((dot(normal, normalized(p)) - 1.0).abs() < 1e-6);
        assert!((magnitude(p) - 1.0).abs() <= f64::from_bits(HIT_THRESHOLD_BITS));
        checked += 1;
    }
    assert_eq!(checked, 4);
}

#[test]
fn the_normal_of_the_julia_set_is_a_unit_vector() {
    let (field, config) = julia_scene();
    let resolution = (32, 32);
    let mut checked = 0;
    for idx in 0..32 * 32 {
        let (x, y) = pixel_position(idx, 32);
        let dir = camera_ray_dir(x as f64, y as f64, &config, resolution);
        let origin = plain(config.camera_pos);
        if let Some(hit) = cast_ray(&field, origin, dir, plain(config.backplane_positions), 0.0) {
            let gradient = field.gradient(plain(hit.hit_point), 0.0);
            if check_length(s(magnitude(gradient))).is_ok() {
                assert!((magnitude(normalized(gradient)) - 1.0).abs() < 1e-6);
                checked += 1;
            }
        }
    }
    assert!(checked > 0);
}

#[test]
fn a_lit_sphere_is_brightest_towards_the_light() {
    let field = Field::Sphere { center: vec(0.0, 0.0, 0.0), radius: 1.0, color: vec(1.0, 0.0, 0.0) };
    let mut config = RayMarcherConfig::default();
    config.anti_aliasing_level = 1;
    let image = render(&field, &config, (32, 32), 0.0);
    let centre = image[16 * 32 + 16];
    assert_eq!(centre, 0x00FF_FFFF);
    assert_eq!(image[0], 0);
    assert_eq!(image[31], 0);
    assert_eq!(image[31 * 32], 0);
    assert_eq!(image[32 * 32 - 1], 0);
}
