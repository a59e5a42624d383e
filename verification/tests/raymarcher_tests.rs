use raymarcher::raymarcher::{
    check_camera_basis, check_length, check_resolution, pixel_position, sample_count,
    scanline_range, specular_term, subsample, ImageRenderConfiguration, RayMarcherConfig,
    RenderError, MAX_ANTI_ALIASING_LEVEL,
};
use raymarcher::scalar::Scalar;
use raymarcher::vec3::Vec3;

fn s(x: f64) -> Scalar {
    Scalar::from_bits(x.to_bits())
}

fn f(x: Scalar) -> f64 {
    f64::from_bits(x.to_bits())
}

fn v(x: f64, y: f64, z: f64) -> Vec3 {
    Vec3::new(s(x), s(y), s(z))
}

fn floats(a: Vec3) -> (f64, f64, f64) {
    (f(a.x), f(a.y), f(a.z))
}

#[test]
fn the_default_configuration_is_the_documented_one() {
    let config = RayMarcherConfig::default();
    assert_eq!(floats(config.camera_pos), (2.0, 4.0, 4.0));
    assert_eq!(floats(config.look_at), (0.0, 0.0, 0.0));
    assert_eq!(floats(config.light_pos), (2.0, 4.0, 4.0));
    assert_eq!(floats(config.background_color), (0.0, 0.0, 0.0));
    assert_eq!(f(config.camera_zoom), 3.0);
    assert_eq!(config.anti_aliasing_level, 4);
    assert_eq!(floats(config.backplane_positions), (3.0, 3.0, 3.0));
    assert_eq!(f(config.specular_shininess), 50.0);
    assert_eq!(floats(config.specular_color), (1.0, 1.0, 1.0));
    assert_eq!(config.validate(), Ok(()));
}

#[test]
fn validate_names_the_first_defect() {
    let good = RayMarcherConfig::default();
    for zoom in [0.0, -0.0, -1.0, f64::NAN, f64::NEG_INFINITY] {
        let mut config = good;
        config.camera_zoom = s(zoom);
        config.specular_shininess = s(-1.0);
        config.anti_aliasing_level = 0;
        assert_eq!(config.validate(), Err(RenderError::ZoomNotPositive));
    }
    for shininess in [0.0, -50.0, f64::NAN] {
        let mut config = good;
        config.specular_shininess = s(shininess);
        config.anti_aliasing_level = 0;
        assert_eq!(config.validate(), Err(RenderError::ShininessNotPositive));
    }
    let mut config = good;
    config.anti_aliasing_level = 0;
    assert_eq!(config.validate(), Err(RenderError::NoSamples));
    config.anti_aliasing_level = 65536;
    assert_eq!(config.validate(), Err(RenderError::TooManySamples));
    config.anti_aliasing_level = 65535;
    assert_eq!(config.validate(), Ok(()));
    config.camera_zoom = s(5e-324);
    config.specular_shininess = s(f64::INFINITY);
    config.anti_aliasing_level = 1;
    assert_eq!(config.validate(), Ok(()));
}

#[test]
fn a_miss_is_shaded_with_the_background_exactly() {
    let mut config = RayMarcherConfig::default();
    config.background_color = v(0.1, 0.7, -0.0);
    let color = config.trace(None);
    assert_eq!(color.x.to_bits(), 0.1f64.to_bits());
    assert_eq!(color.y.to_bits(), 0.7f64.to_bits());
    assert_eq!(color.z.to_bits(), (-0.0f64).to_bits());
    let lit = config.trace(Some(v(0.3, 0.2, 0.1)));
    assert_eq!(floats(lit), (0.3, 0.2, 0.1));
}

#[test]
fn the_highlight_vanishes_where_the_light_is_reflected_away() {
    for &(cosine, shininess) in
        [(0.5, 50.0), (1.0, 2.0), (0.0, 3.0), (-0.0, 3.0), (-0.5, 2.0), (-0.5, 3.0), (f64::NAN, 2.0)]
            .iter()
    {
        let cosine: f64 = cosine;
        let raised = cosine.powf(shininess);
        let plain = if cosine > 0.0 { raised } else { 0.0 };
        let got = f(specular_term(s(cosine), s(raised)));
        assert_eq!(got.to_bits(), plain.to_bits(), "{:?}", cosine);
    }
    assert_eq!(f(specular_term(s(0.5), s(0.25))), 0.25);
    assert_eq!(f(specular_term(s(-0.5), s(0.25))), 0.0);
}

#[test]
fn a_vector_without_length_cannot_be_normalized() {
    assert_eq!(check_length(s(0.0)), Err(RenderError::ZeroLengthVector));
    assert_eq!(check_length(s(-0.0)), Err(RenderError::ZeroLengthVector));
    assert_eq!(check_length(s(f64::NAN)), Err(RenderError::ZeroLengthVector));
    assert_eq!(check_length(s(1e-300)), Ok(()));
    assert_eq!(check_length(s(6.0)), Ok(()));
}

#[test]
fn a_camera_that_looks_along_the_vertical_is_refused() {
    assert_eq!(check_camera_basis(v(0.0, 0.0, -0.0)), Err(RenderError::DegenerateCamera));
    assert_eq!(check_camera_basis(v(f64::NAN, 0.0, 1.0)), Err(RenderError::DegenerateCamera));
    assert_eq!(check_camera_basis(v(0.6, 0.0, -0.3)), Ok(()));
}

#[test]
fn check_resolution_names_the_first_defect() {
    assert_eq!(check_resolution(0, 10, 0), Err(RenderError::EmptyResolution));
    assert_eq!(check_resolution(10, 0, 0), Err(RenderError::EmptyResolution));
    assert_eq!(check_resolution(usize::MAX, 2, 4), Err(RenderError::ResolutionTooLarge));
    assert_eq!(check_resolution(64, 64, 4095), Err(RenderError::ResolutionMismatch));
    assert_eq!(check_resolution(64, 64, 4096), Ok(()));
    assert_eq!(check_resolution(1024, 512, 1024 * 512), Ok(()));
}

#[test]
fn every_error_says_what_is_wrong() {
    let all = [
        RenderError::ZoomNotPositive,
        RenderError::ShininessNotPositive,
        RenderError::NoSamples,
        RenderError::TooManySamples,
        RenderError::ZeroLengthVector,
        RenderError::DegenerateCamera,
        RenderError::EmptyResolution,
        RenderError::ResolutionTooLarge,
        RenderError::ResolutionMismatch,
        RenderError::RowOutOfRange,
    ];
    let mut seen: Vec<String> = Vec::new();
    for e in all.iter() {
        let text = e.message();
        assert!(!text.is_empty());
        assert!(!seen.contains(&text));
        seen.push(text);
    }
    assert_eq!(RenderError::ZoomNotPositive.message(), "camera zoom must be greater than zero");
    assert_eq!(
        RenderError::ZeroLengthVector.message(),
        "cannot normalize a vector of length zero"
    );
}

#[test]
fn pixel_position_is_column_and_row() {
    assert_eq!(pixel_position(0, 64), (0, 0));
    assert_eq!(pixel_position(63, 64), (63, 0));
    assert_eq!(pixel_position(64, 64), (0, 1));
    assert_eq!(pixel_position(64 * 31 + 17, 64), (17, 31));
    assert_eq!(pixel_position(7, 1), (0, 7));
    for width in 1..20usize {
        for idx in 0..200usize {
            let (x, y) = pixel_position(idx, width);
            assert_eq!((x, y), (idx % width, idx / width));
            assert_eq!(y * width + x, idx);
        }
    }
}

#[test]
fn scanline_range_is_what_skip_and_take_visit() {
    for len in [0usize, 1, 5, 12, 64] {
        for width in 0..9usize {
            for row in 0..12usize {
                let buffer: Vec<usize> = (0..len).collect();
                let visited: Vec<usize> =
                    buffer.iter().cloned().skip(row * width).take(width).collect();
                let (start, end) = scanline_range(row, width, len);
                assert_eq!(buffer[start..end].to_vec(), visited, "{:?}", (row, width, len));
            }
        }
    }
    assert_eq!(scanline_range(3, 64, 64 * 64), (192, 256));
    assert_eq!(scanline_range(64, 64, 64 * 64), (4096, 4096));
    assert_eq!(scanline_range(usize::MAX, 2, 10), (10, 10));
}

#[test]
fn sample_count_is_the_level_squared() {
    assert_eq!(sample_count(1), Ok(1));
    assert_eq!(sample_count(2), Ok(4));
    assert_eq!(sample_count(4), Ok(16));
    assert_eq!(sample_count(65535), Ok(4294836225));
    assert_eq!(sample_count(0), Err(RenderError::NoSamples));
    assert_eq!(sample_count(65536), Err(RenderError::TooManySamples));
    assert_eq!(MAX_ANTI_ALIASING_LEVEL, 65535);
}

#[test]
fn subsamples_run_column_by_column() {
    let mut expected = Vec::new();
    for column in 0..4u32 {
        for row in 0..4u32 {
            expected.push((column, row));
        }
    }
    let got: Vec<(u32, u32)> = (0..16).map(|k| subsample(4, k)).collect();
    assert_eq!(got, expected);
    assert_eq!(subsample(1, 0), (0, 0));
    assert_eq!(subsample(3, 5), (1, 2));
    assert_eq!(subsample(65535, 4294836224), (65534, 65534));
}

#[test]
fn an_animation_renders_while_t_is_below_the_stop() {
    let sweep = ImageRenderConfiguration {
        width: 128,
        height: 128,
        t_start: s(0.0),
        t_stop: s(1.0),
        t_step: s(0.1),
    };
    let mut t = f(sweep.t_start);
    let mut frames = 0;
    while sweep.wants_frame(s(t)) {
        frames += 1;
        t += f(sweep.t_step);
    }
    let mut plain_t = 0.0;
    let mut plain_frames = 0;
    while plain_t < 1.0 {
        plain_frames += 1;
        plain_t += 0.1;
    }
    assert_eq!(frames, plain_frames);
    assert_eq!(frames, 11);
    assert!(!sweep.wants_frame(s(1.0)));
    assert!(!sweep.wants_frame(s(f64::NAN)));
}

#[test]
fn validate_refuses_a_camera_without_a_view() {
    let mut config = RayMarcherConfig::default();
    config.look_at = config.camera_pos;
    assert_eq!(config.validate(), Err(RenderError::ZeroLengthVector));
    config.camera_pos = v(0.0, 1.0, -0.0);
    config.look_at = v(-0.0, 1.0, 0.0);
    assert_eq!(config.validate(), Err(RenderError::ZeroLengthVector));
    config.look_at = v(0.0, -5.0, 0.0);
    assert_eq!(config.validate(), Err(RenderError::DegenerateCamera));
    config.look_at = v(1e-300, -5.0, 0.0);
    assert_eq!(config.validate(), Ok(()));
    config.camera_pos = v(f64::NAN, 1.0, 0.0);
    config.look_at = v(f64::NAN, 1.0, 0.0);
    assert_eq!(config.validate(), Ok(()));
}
