use raymarcher::scalar::Scalar;
use raymarcher::sectioned::{ZSectioned, FACE_TOLERANCE_BITS};
use raymarcher::vec3::Vec3;

fn s(x: f64) -> Scalar {
    Scalar::from_bits(x.to_bits())
}

fn v(x: f64, y: f64, z: f64) -> Vec3 {
    Vec3::new(s(x), s(y), s(z))
}

#[test]
fn what_lies_beyond_the_plane_is_cut_away() {
    let cut = ZSectioned { z: s(0.5) };
    assert!(cut.is_cut_away(v(0.0, 0.0, 0.6)));
    assert!(!cut.is_cut_away(v(0.0, 0.0, 0.5)));
    assert!(!cut.is_cut_away(v(9.0, 9.0, -0.5)));
    assert!(!cut.is_cut_away(v(0.0, 0.0, f64::NAN)));
}

#[test]
fn the_cut_face_is_as_thick_as_the_tolerance() {
    assert_eq!(FACE_TOLERANCE_BITS, 1e-3f64.to_bits());
    let cut = ZSectioned { z: s(0.5) };
    for &z in [0.0, 0.498, 0.499, 0.4995, 0.5, 0.5005, 0.7, f64::NAN].iter() {
        let plain = (z - 0.5f64).abs() <= 1e-3 || z > 0.5;
        assert_eq!(cut.is_on_face(v(0.0, 0.0, z), s(z - 0.5)), plain, "{:?}", z);
    }
}

#[test]
fn the_cut_face_looks_along_y() {
    let n = ZSectioned::face_normal();
    assert_eq!(f64::from_bits(n.x.to_bits()), 0.0);
    assert_eq!(f64::from_bits(n.y.to_bits()), 1.0);
    assert_eq!(f64::from_bits(n.z.to_bits()), 0.0);
}
