//! The pixel buffer of one image, filled a scanline at a time.
//!
//! The pixels of a scanline are computed independently of each other and of
//! every other scanline. Storing a scanline touches its own pixels only, so
//! the scanlines of a pass may be stored in any order, and a finished pass
//! holds nothing of what the buffer held before.
use crate::raymarcher::RenderError;
use vstd::prelude::*;

verus! {

/// The pixels of a buffer after scanline `row` has been overwritten with `line`.
pub open spec fn with_row(pixels: Seq<u32>, width: int, row: int, line: Seq<u32>) -> Seq<u32> {
    Seq::new(
        pixels.len(),
        |i: int|
            if row * width <= i < row * width + width {
                line[i - row * width]
            } else {
                pixels[i]
            },
    )
}

/// The pixels of a buffer after the scanlines `0`, `1`, ... have been
/// overwritten with the lines of `lines`, in that order.
pub open spec fn with_rows(pixels: Seq<u32>, width: int, lines: Seq<Seq<u32>>) -> Seq<u32>
    decreases lines.len(),
{
    if lines.len() == 0 {
        pixels
    } else {
        with_row(with_rows(pixels, width, lines.drop_last()), width, lines.len() - 1, lines.last())
    }
}

/// Two different scanlines can be stored in either order.
pub proof fn lemma_rows_commute(
    pixels: Seq<u32>,
    width: int,
    a: int,
    line_a: Seq<u32>,
    b: int,
    line_b: Seq<u32>,
)
    requires
        width >= 0,
        a != b,
    ensures
        with_row(with_row(pixels, width, a, line_a), width, b, line_b) == with_row(
            with_row(pixels, width, b, line_b),
            width,
            a,
            line_a,
        ),
{
    assert(a * width + width <= b * width || b * width + width <= a * width) by (nonlinear_arith)
        requires
            width >= 0,
            a != b,
    ;
    assert(with_row(with_row(pixels, width, a, line_a), width, b, line_b) =~= with_row(
        with_row(pixels, width, b, line_b),
        width,
        a,
        line_a,
    ));
}

/// Storing a scanline a second time changes nothing.
pub proof fn lemma_row_again(pixels: Seq<u32>, width: int, row: int, line: Seq<u32>)
    ensures
        with_row(with_row(pixels, width, row, line), width, row, line) == with_row(
            pixels,
            width,
            row,
            line,
        ),
{
    assert(with_row(with_row(pixels, width, row, line), width, row, line) =~= with_row(
        pixels,
        width,
        row,
        line,
    ));
}

/// After a full pass every pixel is the one that the pass computed for its
/// place: the pixel in column `x` of scanline `y` is `lines[y][x]`.
pub proof fn lemma_pass_fills_every_pixel(
    pixels: Seq<u32>,
    width: int,
    lines: Seq<Seq<u32>>,
    x: int,
    y: int,
)
    requires
        width >= 0,
        pixels.len() >= width * lines.len(),
        0 <= x < width,
        0 <= y < lines.len(),
    ensures
        with_rows(pixels, width, lines).len() == pixels.len(),
        0 <= y * width + x < pixels.len(),
        with_rows(pixels, width, lines)[y * width + x] == lines[y][x],
    decreases lines.len(),
{
    let last = lines.len() - 1;
    lemma_with_rows_len(pixels, width, lines);
    assert(0 <= y * width && y * width + width <= lines.len() * width && width * lines.len()
        == lines.len() * width) by (nonlinear_arith)
        requires
            0 <= y < lines.len(),
            width >= 0,
    ;
    if y < last {
        assert(y * width + width <= last * width) by (nonlinear_arith)
            requires
                y < last,
                width >= 0,
        ;
        assert(width * lines.drop_last().len() <= width * lines.len()) by (nonlinear_arith)
            requires
                width >= 0,
                lines.drop_last().len() <= lines.len(),
        ;
        lemma_pass_fills_every_pixel(pixels, width, lines.drop_last(), x, y);
        assert(lines.drop_last()[y] == lines[y]);
    }
    lemma_with_rows_len(pixels, width, lines.drop_last());
}

/// Storing scanlines keeps the number of pixels.
pub proof fn lemma_with_rows_len(pixels: Seq<u32>, width: int, lines: Seq<Seq<u32>>)
    ensures
        with_rows(pixels, width, lines).len() == pixels.len(),
    decreases lines.len(),
{
    if lines.len() > 0 {
        lemma_with_rows_len(pixels, width, lines.drop_last());
    }
}

/// A full pass leaves nothing of what the buffer held before: two buffers of
/// one size hold the same pixels after the same pass, whatever they held.
pub proof fn lemma_pass_is_deterministic(
    first: Seq<u32>,
    second: Seq<u32>,
    width: int,
    lines: Seq<Seq<u32>>,
)
    requires
        width >= 0,
        first.len() == width * lines.len(),
        second.len() == first.len(),
    ensures
        with_rows(first, width, lines) == with_rows(second, width, lines),
{
    lemma_with_rows_len(first, width, lines);
    lemma_with_rows_len(second, width, lines);
    let a = with_rows(first, width, lines);
    let b = with_rows(second, width, lines);
    assert forall|i: int| 0 <= i < a.len() implies a[i] == b[i] by {
        if width > 0 {
            let y = i / width;
            let x = i % width;
            vstd::arithmetic::div_mod::lemma_fundamental_div_mod(i, width);
            assert(y < lines.len() && y * width + x == i && 0 <= y) by (nonlinear_arith)
                requires
                    0 <= i < width * lines.len(),
                    i == width * y + x,
                    0 <= x < width,
            ;
            lemma_pass_fills_every_pixel(first, width, lines, x, y);
            lemma_pass_fills_every_pixel(second, width, lines, x, y);
        } else {
            assert(width * lines.len() == 0) by (nonlinear_arith)
                requires
                    width == 0,
            ;
        }
    }
    assert(a =~= b);
}

/// One image: `height` scanlines of `width` pixels, one after the other.
pub struct FrameBuffer {
    width: usize,
    height: usize,
    pixels: Vec<u32>,
}

impl View for FrameBuffer {
    type V = Seq<u32>;

    closed spec fn view(&self) -> Seq<u32> {
        self.pixels@
    }
}

impl FrameBuffer {
    /// A buffer holds exactly width times height pixels. Every buffer that
    /// this module hands out does, and every method keeps it so.
    pub closed spec fn wf(self) -> bool {
        self.pixels.len() == self.width * self.height
    }

    /// The number of pixels of a scanline.
    pub closed spec fn spec_width(self) -> usize {
        self.width
    }

    /// The number of scanlines.
    pub closed spec fn spec_height(self) -> usize {
        self.height
    }

    /// A well-formed buffer holds width times height pixels.
    pub proof fn lemma_size(self)
        requires
            self.wf(),
        ensures
            self@.len() == self.spec_width() * self.spec_height(),
    {
    }

    /// A buffer of black pixels.
    pub fn new(width: usize, height: usize) -> (r: Result<FrameBuffer, RenderError>)
        ensures
            width * height > usize::MAX ==> r == Err::<FrameBuffer, RenderError>(
                RenderError::ResolutionTooLarge,
            ),
            width * height <= usize::MAX ==> r is Ok && r->Ok_0.wf() && r->Ok_0.spec_width()
                == width && r->Ok_0.spec_height() == height && r->Ok_0@ == Seq::new(
                (width * height) as nat,
                |i: int| 0u32,
            ),
    {
        let len = match width.checked_mul(height) {
            Some(len) => len,
            None => {
                return Err(RenderError::ResolutionTooLarge);
            },
        };
        let mut pixels: Vec<u32> = Vec::new();
        let mut i: usize = 0;
        while i < len
            invariant
                i <= len,
                pixels@ == Seq::new(i as nat, |k: int| 0u32),
            decreases len - i,
        {
            pixels.push(0);
            assert(pixels@ =~= Seq::new((i + 1) as nat, |k: int| 0u32));
            i = i + 1;
        }
        Ok(FrameBuffer { width, height, pixels })
    }

    /// The buffer of the given pixels, which must be width times height in number.
    pub fn from_pixels(width: usize, height: usize, pixels: Vec<u32>) -> (r: Result<
        FrameBuffer,
        RenderError,
    >)
        ensures
            pixels.len() != width * height ==> r == Err::<FrameBuffer, RenderError>(
                RenderError::ResolutionMismatch,
            ),
            pixels.len() == width * height ==> r is Ok && r->Ok_0.wf() && r->Ok_0.spec_width()
                == width && r->Ok_0.spec_height() == height && r->Ok_0@ == pixels@,
    {
        match width.checked_mul(height) {
            Some(len) => {
                if pixels.len() == len {
                    Ok(FrameBuffer { width, height, pixels })
                } else {
                    Err(RenderError::ResolutionMismatch)
                }
            },
            None => Err(RenderError::ResolutionMismatch),
        }
    }

    pub fn width(&self) -> (r: usize)
        ensures
            r == self.spec_width(),
    {
        self.width
    }

    pub fn height(&self) -> (r: usize)
        ensures
            r == self.spec_height(),
    {
        self.height
    }

    /// The pixels, scanline after scanline.
    pub fn pixels(&self) -> (r: &Vec<u32>)
        ensures
            r@ == self@,
            self.wf() ==> r.len() == self.spec_width() * self.spec_height(),
    {
        &self.pixels
    }

    /// The pixel in column `x` of scanline `y`, if the buffer has one there.
    pub fn get(&self, x: usize, y: usize) -> (r: Option<u32>)
        requires
            self.wf(),
        ensures
            x < self.spec_width() && y < self.spec_height() ==> r == Some(
                self@[y * self.spec_width() + x],
            ),
            !(x < self.spec_width() && y < self.spec_height()) ==> r is None,
    {
        if x < self.width && y < self.height {
            assert(y * self.width + x < self.width * self.height) by (nonlinear_arith)
                requires
                    x < self.width,
                    y < self.height,
            ;
            Some(self.pixels[y * self.width + x])
        } else {
            None
        }
    }

    /// Overwrites scanline `row` with `line` and leaves every other pixel as
    /// it is. A row that the buffer does not have, or a line that is not as
    /// long as a scanline, is refused, and the buffer stays as it is.
    pub fn store_scanline(&mut self, row: usize, line: &Vec<u32>) -> (r: Result<(), RenderError>)
        requires
            old(self).wf(),
        ensures
            final(self).wf(),
            final(self).spec_width() == old(self).spec_width(),
            final(self).spec_height() == old(self).spec_height(),
            row >= old(self).spec_height() ==> r == Err::<(), RenderError>(
                RenderError::RowOutOfRange,
            ) && final(self)@ == old(self)@,
            row < old(self).spec_height() && line.len() != old(self).spec_width() ==> r == Err::<
                (),
                RenderError,
            >(RenderError::ResolutionMismatch) && final(self)@ == old(self)@,
            row < old(self).spec_height() && line.len() == old(self).spec_width() ==> r is Ok
                && final(self)@ == with_row(
                old(self)@,
                old(self).spec_width() as int,
                row as int,
                line@,
            ),
    {
        if row >= self.height {
            return Err(RenderError::RowOutOfRange);
        }
        if line.len() != self.width {
            return Err(RenderError::ResolutionMismatch);
        }
        let width = self.width;
        assert(row * width + width <= width * self.height) by (nonlinear_arith)
            requires
                row < self.height,
                width >= 0,
        ;
        let start = row * width;
        let ghost before = self.pixels@;
        let mut x: usize = 0;
        while x < width
            invariant
                x <= width,
                width == line.len(),
                width == self.width,
                start == row * width,
                start + width <= self.pixels.len(),
                self.pixels.len() == before.len(),
                self.pixels.len() == self.width * self.height,
                self.height == old(self).height,
                forall|i: int|
                    0 <= i < before.len() ==> self.pixels@[i] == if start <= i < start + x {
                        line@[i - start]
                    } else {
                        before[i]
                    },
            decreases width - x,
        {
            self.pixels.set(start + x, line[x]);
            x = x + 1;
        }
        assert(self.pixels@ =~= with_row(before, width as int, row as int, line@));
        Ok(())
    }
}

/// Where an incremental render stands: the scanline that the next tick renders.
pub struct ScanCursor {
    row: usize,
    height: usize,
}

impl ScanCursor {
    #[verifier::type_invariant]
    spec fn in_frame(self) -> bool {
        self.row < self.height || self.row == 0
    }

    pub closed spec fn spec_row(self) -> usize {
        self.row
    }

    pub closed spec fn spec_height(self) -> usize {
        self.height
    }

    /// The scanline after `row` in a frame of `height` scanlines: the next
    /// one, and after the last one the first again.
    pub open spec fn following(row: usize, height: usize) -> usize {
        if row + 1 >= height {
            0
        } else {
            (row + 1) as usize
        }
    }

    /// A cursor at the first scanline of a frame of `height` scanlines.
    pub fn new(height: usize) -> (r: ScanCursor)
        ensures
            r.spec_row() == 0,
            r.spec_height() == height,
    {
        ScanCursor { row: 0, height }
    }

    /// The scanline to render now.
    pub fn row(&self) -> (r: usize)
        ensures
            r == self.spec_row(),
            r < self.spec_height() || r == 0,
    {
        proof {
            use_type_invariant(self);
        }
        self.row
    }

    /// Moves to the next scanline after one has been rendered, and says
    /// whether that one was the last of its frame.
    pub fn advance(&mut self) -> (finished: bool)
        ensures
            final(self).spec_height() == old(self).spec_height(),
            final(self).spec_row() == Self::following(old(self).spec_row(), old(self).spec_height()),
            finished == (old(self).spec_row() + 1 >= old(self).spec_height()),
    {
        proof {
            use_type_invariant(&*self);
        }
        if self.height == 0 || self.row >= self.height - 1 {
            self.row = 0;
            true
        } else {
            self.row = self.row + 1;
            false
        }
    }

    /// Starts over at the first scanline, of a frame that may have another height.
    pub fn restart(&mut self, height: usize)
        ensures
            final(self).spec_row() == 0,
            final(self).spec_height() == height,
    {
        self.row = 0;
        self.height = height;
    }
}

} // verus!
