use raymarcher::scalar::Scalar;
use raymarcher::vec3::Vec3;

fn s(x: f64) -> Scalar {
    Scalar::from_bits(x.to_bits())
}

fn v(x: f64, y: f64, z: f64) -> Vec3 {
    Vec3::new(s(x), s(y), s(z))
}

fn bits(a: Vec3) -> (u64, u64, u64) {
    (a.x.to_bits(), a.y.to_bits(), a.z.to_bits())
}

#[test]
fn from_f64_fills_every_component() {
    assert_eq!(bits(Vec3::from_f64(s(0.25))), bits(v(0.25, 0.25, 0.25)));
}

#[test]
fn default_is_the_origin() {
    assert_eq!(bits(Vec3::default()), bits(v(0.0, 0.0, 0.0)));
}

#[test]
fn whole_converts_three_integers() {
    assert_eq!(bits(Vec3::whole(0, -1, 0)), bits(v(0.0, -1.0, 0.0)));
    assert_eq!(bits(Vec3::whole(2, 4, 4)), bits(v(2.0, 4.0, 4.0)));
    assert_eq!(bits(Vec3::whole(-7, 1000, i32::MIN)), bits(v(-7.0, 1000.0, -2147483648.0)));
}

#[test]
fn from_a_tuple_keeps_the_order() {
    let a = Vec3::from((s(1.0), s(2.0), s(3.0)));
    assert_eq!(bits(a), bits(v(1.0, 2.0, 3.0)));
}

#[test]
fn negation_flips_every_sign() {
    assert_eq!(bits(-v(1.0, -2.0, 0.0)), bits(v(-1.0, 2.0, -0.0)));
    let n = -v(f64::NAN, f64::INFINITY, 1e-320);
    assert!(f64::from_bits(n.x.to_bits()).is_nan());
    assert_eq!(f64::from_bits(n.y.to_bits()), f64::NEG_INFINITY);
    assert_eq!(f64::from_bits(n.z.to_bits()), -1e-320);
}

#[test]
fn is_nan_finds_a_nan_in_any_component() {
    assert!(v(f64::NAN, 0.0, 0.0).is_nan());
    assert!(v(0.0, f64::NAN, 0.0).is_nan());
    assert!(v(0.0, 0.0, f64::NAN).is_nan());
    assert!(!v(0.0, f64::INFINITY, -1.0).is_nan());
}

#[test]
fn is_zero_takes_both_zeros() {
    assert!(v(0.0, -0.0, 0.0).is_zero());
    assert!(!v(0.0, 5e-324, 0.0).is_zero());
    assert!(!v(f64::NAN, 0.0, 0.0).is_zero());
}

#[test]
fn is_outside_compares_magnitudes_axis_by_axis() {
    let bounds = v(3.0, 3.0, 3.0);
    assert!(!v(0.0, 0.0, 0.0).is_outside(bounds));
    assert!(!v(3.0, -3.0, 3.0).is_outside(bounds));
    assert!(v(3.0000000000000004, 0.0, 0.0).is_outside(bounds));
    assert!(v(0.0, -3.5, 0.0).is_outside(bounds));
    assert!(v(0.0, 0.0, -4.0).is_outside(bounds));
    assert!(v(0.0, 0.0, f64::NEG_INFINITY).is_outside(bounds));
    assert!(!v(f64::NAN, 0.0, 0.0).is_outside(bounds));
    assert!(!v(10.0, 0.0, 0.0).is_outside(v(f64::NAN, 3.0, 3.0)));
    let samples = [0.0, -0.0, 1.0, -2.9, 3.0, -3.0, 3.1, -7.0, f64::NAN, f64::INFINITY];
    for &x in samples.iter() {
        for &y in samples.iter() {
            for &z in samples.iter() {
                let plain = x.abs() > 3.0 || y.abs() > 2.0 || z.abs() > 1.0;
                assert_eq!(v(x, y, z).is_outside(v(3.0, 2.0, 1.0)), plain);
            }
        }
    }
}
