//! What a render pass is given, and the bookkeeping of a pass: which pixel a
//! buffer index is, which indices make a scanline, where the samples of a
//! pixel lie, and what colour a ray gets that hit nothing.
use crate::scalar::{Scalar, Value};
use crate::vec3::Vec3;
use vstd::prelude::*;
use vstd::string::StringExecFns;

verus! {

/// Why a render pass cannot start or go on.
#[derive(Clone, Copy, Debug, PartialEq, Eq, Structural)]
pub enum RenderError {
    /// The camera zoom is not a number greater than zero.
    ZoomNotPositive,
    /// The specular shininess is not a number greater than zero.
    ShininessNotPositive,
    /// The anti-aliasing level is zero: a pixel would have no sample.
    NoSamples,
    /// The anti-aliasing level squared does not fit 32 bits.
    TooManySamples,
    /// A vector of length zero, or of no length at all, was to be normalized.
    ZeroLengthVector,
    /// The camera looks straight along the world's vertical, so that it has
    /// no horizontal.
    DegenerateCamera,
    /// A width or a height is zero.
    EmptyResolution,
    /// A width times a height is more than a buffer can hold.
    ResolutionTooLarge,
    /// A buffer does not hold width times height pixels.
    ResolutionMismatch,
    /// A scanline below the last one was asked for.
    RowOutOfRange,
}

impl RenderError {
    /// The words of [`RenderError::message`].
    pub open spec fn text(self) -> Seq<char> {
        match self {
            RenderError::ZoomNotPositive => "camera zoom must be greater than zero"@,
            RenderError::ShininessNotPositive => "specular shininess must be greater than zero"@,
            RenderError::NoSamples => "anti-aliasing level must be at least one"@,
            RenderError::TooManySamples => "anti-aliasing level is too large"@,
            RenderError::ZeroLengthVector => "cannot normalize a vector of length zero"@,
            RenderError::DegenerateCamera => "camera looks along the vertical axis"@,
            RenderError::EmptyResolution => "width and height must be greater than zero"@,
            RenderError::ResolutionTooLarge => "width times height is too large"@,
            RenderError::ResolutionMismatch => "buffer does not hold width times height pixels"@,
            RenderError::RowOutOfRange => "row is not below the height"@,
        }
    }

    /// The error in words.
    pub fn message(&self) -> (r: String)
        ensures
            r@ == self.text(),
    {
        match self {
            RenderError::ZoomNotPositive => String::from_str("camera zoom must be greater than zero"),
            RenderError::ShininessNotPositive => String::from_str(
                "specular shininess must be greater than zero",
            ),
            RenderError::NoSamples => String::from_str("anti-aliasing level must be at least one"),
            RenderError::TooManySamples => String::from_str("anti-aliasing level is too large"),
            RenderError::ZeroLengthVector => String::from_str(
                "cannot normalize a vector of length zero",
            ),
            RenderError::DegenerateCamera => String::from_str("camera looks along the vertical axis"),
            RenderError::EmptyResolution => String::from_str(
                "width and height must be greater than zero",
            ),
            RenderError::ResolutionTooLarge => String::from_str("width times height is too large"),
            RenderError::ResolutionMismatch => String::from_str(
                "buffer does not hold width times height pixels",
            ),
            RenderError::RowOutOfRange => String::from_str("row is not below the height"),
        }
    }
}

/// The largest anti-aliasing level whose square fits 32 bits.
pub const MAX_ANTI_ALIASING_LEVEL: u32 = 0xFFFF;

/// Camera, light and material of a render pass.
#[derive(Clone, Copy, Debug)]
pub struct RayMarcherConfig {
    pub camera_pos: Vec3,
    pub look_at: Vec3,
    pub light_pos: Vec3,
    pub background_color: Vec3,
    pub camera_zoom: Scalar,
    /// The samples of a pixel form a grid of this many rows and columns.
    pub anti_aliasing_level: u32,
    /// A ray that passes one of the planes `x = ±backplane_positions.x`, and
    /// so for `y` and `z`, has missed.
    pub backplane_positions: Vec3,
    pub specular_shininess: Scalar,
    pub specular_color: Vec3,
}

impl Default for RayMarcherConfig {
    /// Camera and light at `(2, 4, 4)` looking at the origin, zoom 3, black
    /// background, a 4 by 4 sample grid, backplanes at 3, white highlights
    /// of shininess 50.
    fn default() -> (r: RayMarcherConfig)
        ensures
            r.camera_pos.x@ == Value::whole(2) && r.camera_pos.y@ == Value::whole(4)
                && r.camera_pos.z@ == Value::whole(4),
            r.look_at.x@ == Value::whole(0) && r.look_at.y@ == Value::whole(0) && r.look_at.z@
                == Value::whole(0),
            r.light_pos.x@ == Value::whole(2) && r.light_pos.y@ == Value::whole(4)
                && r.light_pos.z@ == Value::whole(4),
            r.background_color.x@ == Value::whole(0) && r.background_color.y@ == Value::whole(0)
                && r.background_color.z@ == Value::whole(0),
            r.camera_zoom@ == Value::whole(3),
            r.anti_aliasing_level == 4,
            r.backplane_positions.x@ == Value::whole(3) && r.backplane_positions.y@
                == Value::whole(3) && r.backplane_positions.z@ == Value::whole(3),
            r.specular_shininess@ == Value::whole(50),
            r.specular_color.x@ == Value::whole(1) && r.specular_color.y@ == Value::whole(1)
                && r.specular_color.z@ == Value::whole(1),
            r.defect() is None,
    {
        let r = RayMarcherConfig {
            camera_pos: Vec3::whole(2, 4, 4),
            look_at: Vec3::whole(0, 0, 0),
            light_pos: Vec3::whole(2, 4, 4),
            background_color: Vec3::whole(0, 0, 0),
            camera_zoom: Scalar::from_i32(3),
            anti_aliasing_level: 4,
            backplane_positions: Vec3::whole(3, 3, 3),
            specular_shininess: Scalar::from_i32(50),
            specular_color: Vec3::whole(1, 1, 1),
        };
        proof {
            Value::lemma_whole_is_positive(3);
            Value::lemma_whole_is_positive(50);
            Value::lemma_whole_is_ordered(2, 0);
        }
        r
    }
}

impl RayMarcherConfig {
    /// Whether the camera stands where it looks: the view direction would
    /// have no length.
    pub open spec fn looks_at_itself(self) -> bool {
        &&& self.camera_pos.x@.same(self.look_at.x@)
        &&& self.camera_pos.y@.same(self.look_at.y@)
        &&& self.camera_pos.z@.same(self.look_at.z@)
    }

    /// Whether the camera looks straight up or down: the view direction
    /// would have no part along `x` or `z`, and the camera no horizontal.
    pub open spec fn looks_along_vertical(self) -> bool {
        &&& self.camera_pos.x@.same(self.look_at.x@)
        &&& self.camera_pos.z@.same(self.look_at.z@)
    }

    /// What is wrong with the configuration, if anything: the first of a zoom
    /// that is not positive, a shininess that is not positive, a level of
    /// anti-aliasing that is zero or too large, a camera that stands where it
    /// looks, and a camera that looks along the vertical.
    pub open spec fn defect(self) -> Option<RenderError> {
        if !Value::zero().lt(self.camera_zoom@) {
            Some(RenderError::ZoomNotPositive)
        } else if !Value::zero().lt(self.specular_shininess@) {
            Some(RenderError::ShininessNotPositive)
        } else if self.anti_aliasing_level == 0 {
            Some(RenderError::NoSamples)
        } else if self.anti_aliasing_level > MAX_ANTI_ALIASING_LEVEL {
            Some(RenderError::TooManySamples)
        } else if self.looks_at_itself() {
            Some(RenderError::ZeroLengthVector)
        } else if self.looks_along_vertical() {
            Some(RenderError::DegenerateCamera)
        } else {
            None
        }
    }

    /// Checks the configuration before a pass. A NaN is not positive.
    ///
    /// What can only be seen in the numbers that the host computes from the
    /// configuration is left to [`check_length`] and [`check_camera_basis`].
    pub fn validate(&self) -> (r: Result<(), RenderError>)
        ensures
            match self.defect() {
                Some(e) => r == Err::<(), RenderError>(e),
                None => r is Ok,
            },
    {
        let zero = Scalar::zero();
        let same_x = self.camera_pos.x.same(self.look_at.x);
        let same_y = self.camera_pos.y.same(self.look_at.y);
        let same_z = self.camera_pos.z.same(self.look_at.z);
        if !self.camera_zoom.gt(zero) {
            Err(RenderError::ZoomNotPositive)
        } else if !self.specular_shininess.gt(zero) {
            Err(RenderError::ShininessNotPositive)
        } else if self.anti_aliasing_level == 0 {
            Err(RenderError::NoSamples)
        } else if self.anti_aliasing_level > MAX_ANTI_ALIASING_LEVEL {
            Err(RenderError::TooManySamples)
        } else if same_x && same_y && same_z {
            Err(RenderError::ZeroLengthVector)
        } else if same_x && same_z {
            Err(RenderError::DegenerateCamera)
        } else {
            Ok(())
        }
    }

    /// The colour of a ray: `lit`, the colour that the host computed at the
    /// hit point, where the ray hit the surface, and the background colour,
    /// exactly as configured, where it hit nothing.
    pub fn trace(&self, lit: Option<Vec3>) -> (r: Vec3)
        ensures
            r == (match lit {
                Some(color) => color,
                None => self.background_color,
            }),
    {
        match lit {
            Some(color) => color,
            None => self.background_color,
        }
    }
}

/// The weight of the specular highlight: `raised`, the cosine between the
/// reflected light and the view direction raised to the shininess, where
/// that cosine is greater than zero, and zero where it is not.
pub fn specular_term(r_dot_v: Scalar, raised: Scalar) -> (r: Scalar)
    ensures
        r == (if Value::zero().lt(r_dot_v@) {
            raised
        } else {
            Scalar { bits: 0 }
        }),
{
    if r_dot_v.gt(Scalar::zero()) {
        raised
    } else {
        Scalar::zero()
    }
}

/// Whether a vector of the given length can be normalized: its length must
/// be a number other than zero.
pub fn check_length(magnitude: Scalar) -> (r: Result<(), RenderError>)
    ensures
        r is Ok <==> !(magnitude@ is Nan) && magnitude@ != Value::zero(),
        r is Err ==> r == Err::<(), RenderError>(RenderError::ZeroLengthVector),
{
    if magnitude.is_nan() || magnitude.is_zero() {
        Err(RenderError::ZeroLengthVector)
    } else {
        Ok(())
    }
}

/// Whether the camera has a horizontal: `right`, the cross product of the
/// world's vertical and the view direction, must not vanish.
pub fn check_camera_basis(right: Vec3) -> (r: Result<(), RenderError>)
    ensures
        r is Ok <==> !right.has_nan() && !right.all_zero(),
        r is Err ==> r == Err::<(), RenderError>(RenderError::DegenerateCamera),
{
    if right.is_nan() || right.is_zero() {
        Err(RenderError::DegenerateCamera)
    } else {
        Ok(())
    }
}

/// What is wrong with a resolution and the buffer that is to hold its image,
/// if anything: the first of a side that is zero, a product that is too
/// large, and a buffer of another size.
pub open spec fn resolution_defect(width: usize, height: usize, len: usize) -> Option<RenderError> {
    if width == 0 || height == 0 {
        Some(RenderError::EmptyResolution)
    } else if width * height > usize::MAX {
        Some(RenderError::ResolutionTooLarge)
    } else if len != width * height {
        Some(RenderError::ResolutionMismatch)
    } else {
        None
    }
}

/// Checks a resolution against the length of the buffer before a pass.
pub fn check_resolution(width: usize, height: usize, len: usize) -> (r: Result<(), RenderError>)
    ensures
        match resolution_defect(width, height, len) {
            Some(e) => r == Err::<(), RenderError>(e),
            None => r is Ok,
        },
{
    if width == 0 || height == 0 {
        return Err(RenderError::EmptyResolution);
    }
    match width.checked_mul(height) {
        None => Err(RenderError::ResolutionTooLarge),
        Some(pixels) => if len != pixels {
            Err(RenderError::ResolutionMismatch)
        } else {
            Ok(())
        },
    }
}

/// The column and the row of the pixel at `buffer_idx` of a buffer that
/// holds its rows one after the other, `width` pixels each.
pub fn pixel_position(buffer_idx: usize, width: usize) -> (r: (usize, usize))
    requires
        width > 0,
    ensures
        r.0 == buffer_idx % width,
        r.1 == buffer_idx / width,
        r.0 < width,
        r.1 * width + r.0 == buffer_idx,
{
    proof {
        vstd::arithmetic::div_mod::lemma_fundamental_div_mod(buffer_idx as int, width as int);
        assert(width * (buffer_idx / width) == (buffer_idx / width) * width) by (nonlinear_arith);
    }
    (buffer_idx % width, buffer_idx / width)
}

/// The first index of scanline `row` in a buffer of `len` pixels, and the
/// index after its last: `width` pixels from `row * width` on, as far as the
/// buffer holds them.
pub open spec fn scanline(row: int, width: int, len: int) -> (int, int) {
    let start = if row * width < len {
        row * width
    } else {
        len
    };
    let end = if start + width < len {
        start + width
    } else {
        len
    };
    (start, end)
}

/// The scanlines of two different rows share no pixel.
pub proof fn lemma_scanlines_are_disjoint(a: int, b: int, width: int, len: int)
    requires
        0 <= a < b,
        0 <= width,
        0 <= len,
    ensures
        scanline(a, width, len).1 <= scanline(b, width, len).0,
{
    assert(a * width + width <= b * width) by (nonlinear_arith)
        requires
            0 <= a < b,
            0 <= width,
    ;
}

/// The scanlines of an image cover it: the pixel at index `i` lies in the
/// scanline of row `i / width`, in column `i % width`.
pub proof fn lemma_scanlines_cover(i: int, width: int, height: int)
    requires
        0 < width,
        0 <= i < width * height,
    ensures
        0 <= i / width < height,
        scanline(i / width, width, width * height).0 + i % width == i,
        i < scanline(i / width, width, width * height).1,
{
    let row = i / width;
    vstd::arithmetic::div_mod::lemma_fundamental_div_mod(i, width);
    assert(0 <= row < height && row * width == width * row && row * width + width <= width
        * height) by (nonlinear_arith)
        requires
            0 < width,
            0 <= i < width * height,
            i == width * row + i % width,
            0 <= i % width < width,
    ;
}

/// The indices of scanline `row`: the first, and the one after the last.
pub fn scanline_range(row: usize, width: usize, len: usize) -> (r: (usize, usize))
    ensures
        (r.0 as int, r.1 as int) == scanline(row as int, width as int, len as int),
        r.0 <= r.1 <= len,
        r.1 - r.0 <= width,
{
    let start = match row.checked_mul(width) {
        Some(start) => if start < len {
            start
        } else {
            len
        },
        None => len,
    };
    let end = if len - start > width {
        start + width
    } else {
        len
    };
    (start, end)
}

/// The number of samples of a pixel: the level of anti-aliasing squared.
pub fn sample_count(level: u32) -> (r: Result<u32, RenderError>)
    ensures
        level == 0 ==> r == Err::<u32, RenderError>(RenderError::NoSamples),
        level > MAX_ANTI_ALIASING_LEVEL ==> r == Err::<u32, RenderError>(
            RenderError::TooManySamples,
        ),
        0 < level <= MAX_ANTI_ALIASING_LEVEL ==> r == Ok::<u32, RenderError>(
            (level * level) as u32,
        ),
{
    if level == 0 {
        Err(RenderError::NoSamples)
    } else if level > MAX_ANTI_ALIASING_LEVEL {
        Err(RenderError::TooManySamples)
    } else {
        assert(level * level <= 0xFFFF * 0xFFFF) by (nonlinear_arith)
            requires
                0 < level <= 0xFFFF,
        ;
        Ok(level * level)
    }
}

/// Where a sample lies in its pixel: `(column, row)` of the sample grid. The
/// sample's offset from the pixel's corner is `column / level` of a pixel
/// along x and `row / level` along y. Samples are numbered column by column.
pub fn subsample(level: u32, index: u32) -> (r: (u32, u32))
    requires
        level > 0,
    ensures
        r.0 == index / level,
        r.1 == index % level,
        r.1 < level,
        r.0 * level + r.1 == index,
        index < level * level ==> r.0 < level,
{
    proof {
        vstd::arithmetic::div_mod::lemma_fundamental_div_mod(index as int, level as int);
        assert(level * (index / level) == (index / level) * level) by (nonlinear_arith);
        if index < level * level {
            assert(index / level < level) by (nonlinear_arith)
                requires
                    index < level * level,
                    level > 0,
                    index == (index / level) * level + index % level,
                    0 <= index % level,
            ;
        }
    }
    (index / level, index % level)
}

/// An animation: one image for every step of the parameter `t`.
#[derive(Clone, Copy, Debug)]
pub struct ImageRenderConfiguration {
    pub width: usize,
    pub height: usize,
    pub t_start: Scalar,
    pub t_stop: Scalar,
    pub t_step: Scalar,
}

impl ImageRenderConfiguration {
    /// Whether an image is rendered at `t`: it is while `t` is below `t_stop`.
    pub fn wants_frame(&self, t: Scalar) -> (r: bool)
        ensures
            r == t@.lt(self.t_stop@),
    {
        t.lt(self.t_stop)
    }
}

} // verus!
