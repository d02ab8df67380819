//! The display: two pixel buffers and three drawing primitives.

use vstd::prelude::*;

use crate::font::FontData;
use crate::font::GlyphSample;
use crate::font::font_parses;
use crate::font::load_font;
use crate::pixel::blend;
use crate::pixel::blend_spec;

verus! {

/// Why a display could not be constructed.
#[derive(Clone, Copy, Debug, PartialEq, Eq, Structural)]
pub enum DisplayError {
    /// A buffer's length does not equal `width * height`.
    BufferLength,
    /// A font byte blob could not be parsed.
    FontData,
}

/// A display: a pair of pixel buffers of `width * height` packed pixels
/// and the four font variants glyphs are drawn with.
///
/// `onscreen` stands for the memory the video hardware reads; `offscreen`
/// is its in-memory shadow.  Every primitive writes both in lockstep, so
/// whenever a call returns the two hold identical pixel values.
pub struct Display {
    pub width: usize,
    pub height: usize,
    pub onscreen: Vec<u32>,
    pub offscreen: Vec<u32>,
    pub font: rusttype::Font<'static>,
    pub font_bold: rusttype::Font<'static>,
    pub font_bold_italic: rusttype::Font<'static>,
    pub font_italic: rusttype::Font<'static>,
}

/// The linear buffer position of the pixel grid cell `(col, row)`.
pub open spec fn cell_index(width: int, row: int, col: int) -> int {
    row * width + col
}

impl Display {
    /// Both buffers hold exactly one pixel per cell of the
    /// `width x height` grid.
    pub open spec fn wf(self) -> bool {
        &&& self.onscreen@.len() == self.width * self.height
        &&& self.offscreen@.len() == self.width * self.height
    }

    /// The screen buffer and its shadow hold identical pixel values.
    pub open spec fn synced(self) -> bool {
        self.onscreen@ == self.offscreen@
    }

    /// The pixel at `(col, row)`, read from the shadow buffer.
    pub open spec fn pixel(self, row: int, col: int) -> u32 {
        self.offscreen@[cell_index(self.width as int, row, col)]
    }

    /// The fonts a display was constructed with never change.
    pub open spec fn same_fonts(self, other: Display) -> bool {
        &&& self.font == other.font
        &&& self.font_bold == other.font_bold
        &&& self.font_bold_italic == other.font_bold_italic
        &&& self.font_italic == other.font_italic
    }
}

/// Whether `(col, row)` lies inside the rectangle `[x, x+w) x [y, y+h)`.
pub open spec fn rect_covers(x: int, y: int, w: int, h: int, row: int, col: int) -> bool {
    &&& y <= row < y + h
    &&& x <= col < x + w
}

/// The pixel at `(col, row)` after filling the rectangle
/// `[x, x+w) x [y, y+h)` with `color` over `pre`.
pub open spec fn rect_pixel(
    pre: Display,
    x: int,
    y: int,
    w: int,
    h: int,
    color: u32,
    row: int,
    col: int,
) -> u32 {
    if rect_covers(x, y, w, h, row, col) {
        color
    } else {
        pre.pixel(row, col)
    }
}

/// The pixel at `(col, row)` after scrolling `pre` up by `rows` rows and
/// backfilling with `color`: rows shift up, the freed bottom rows become
/// solid `color`.
pub open spec fn scroll_pixel(pre: Display, rows: int, color: u32, row: int, col: int) -> u32 {
    if row < pre.height - rows {
        pre.pixel(row + rows, col)
    } else {
        color
    }
}

/// Whether glyph sample `s`, drawn at origin `(x, y)`, lands on the grid
/// cell `(col, row)`.
pub open spec fn sample_lands(s: GlyphSample, x: int, y: int, row: int, col: int) -> bool {
    x + s.dx == col && y + s.dy == row
}

/// The buffer after one glyph sample: a sample with positive coverage
/// whose offset from `(x, y)` stays inside the `width x height` grid
/// blends `color` into the cell it lands on; any other sample changes
/// nothing.
pub open spec fn apply_sample(
    buf: Seq<u32>,
    width: int,
    height: int,
    x: int,
    y: int,
    color: u32,
    s: GlyphSample,
) -> Seq<u32> {
    if x + s.dx < width && y + s.dy < height && s.coverage > 0 {
        buf.update(cell_index(width, y + s.dy, x + s.dx), blend_spec(color, s.coverage))
    } else {
        buf
    }
}

/// The buffer after a sequence of glyph samples, applied first to last.
pub open spec fn apply_samples_spec(
    buf: Seq<u32>,
    width: int,
    height: int,
    x: int,
    y: int,
    color: u32,
    samples: Seq<GlyphSample>,
) -> Seq<u32>
    decreases samples.len(),
{
    if samples.len() == 0 {
        buf
    } else {
        apply_samples_spec(
            apply_sample(buf, width, height, x, y, color, samples[0]),
            width,
            height,
            x,
            y,
            color,
            samples.skip(1),
        )
    }
}

/// Applying a sequence of samples and then one more is applying the
/// appended sequence.
proof fn lemma_apply_samples_push(
    buf: Seq<u32>,
    width: int,
    height: int,
    x: int,
    y: int,
    color: u32,
    samples: Seq<GlyphSample>,
    s: GlyphSample,
)
    ensures
        apply_samples_spec(buf, width, height, x, y, color, samples.push(s)) == apply_sample(
            apply_samples_spec(buf, width, height, x, y, color, samples),
            width,
            height,
            x,
            y,
            color,
            s,
        ),
    decreases samples.len(),
{
    let extended = samples.push(s);
    if samples.len() == 0 {
        assert(extended[0] == s);
        assert(extended.skip(1) =~= Seq::<GlyphSample>::empty());
        let buf1 = apply_sample(buf, width, height, x, y, color, s);
        assert(apply_samples_spec(buf, width, height, x, y, color, extended)
            == apply_samples_spec(buf1, width, height, x, y, color, extended.skip(1)));
        assert(apply_samples_spec(buf1, width, height, x, y, color, Seq::<GlyphSample>::empty())
            == buf1);
        assert(apply_samples_spec(buf, width, height, x, y, color, samples) == buf);
    } else {
        assert(extended[0] == samples[0]);
        assert(extended.skip(1) =~= samples.skip(1).push(s));
        let buf1 = apply_sample(buf, width, height, x, y, color, samples[0]);
        lemma_apply_samples_push(buf1, width, height, x, y, color, samples.skip(1), s);
        assert(apply_samples_spec(buf, width, height, x, y, color, extended)
            == apply_samples_spec(buf1, width, height, x, y, color, extended.skip(1)));
        assert(apply_samples_spec(buf, width, height, x, y, color, samples)
            == apply_samples_spec(buf1, width, height, x, y, color, samples.skip(1)));
    }
}

/// A glyph draw never writes outside the buffer: the buffer keeps its
/// length whatever the samples are.
pub proof fn lemma_apply_samples_len(
    buf: Seq<u32>,
    width: int,
    height: int,
    x: int,
    y: int,
    color: u32,
    samples: Seq<GlyphSample>,
)
    requires
        0 <= x,
        0 <= y,
        buf.len() == width * height,
    ensures
        apply_samples_spec(buf, width, height, x, y, color, samples).len() == buf.len(),
    decreases samples.len(),
{
    if samples.len() > 0 {
        let s = samples[0];
        let buf1 = apply_sample(buf, width, height, x, y, color, s);
        assert(buf1.len() == buf.len()) by {
            if x + s.dx < width && y + s.dy < height && s.coverage > 0 {
                lemma_index_in_bounds(width, height, y + s.dy, x + s.dx);
            }
        }
        lemma_apply_samples_len(buf1, width, height, x, y, color, samples.skip(1));
    }
}

/// A glyph draw leaves every pixel that no sample lands on unchanged —
/// in particular, samples whose offsets fall outside the grid are
/// dropped without touching anything.
pub proof fn lemma_apply_samples_untouched(
    buf: Seq<u32>,
    width: int,
    height: int,
    x: int,
    y: int,
    color: u32,
    samples: Seq<GlyphSample>,
    row: int,
    col: int,
)
    requires
        0 <= row < height,
        0 <= col < width,
        0 <= x,
        0 <= y,
        buf.len() == width * height,
        forall|k: int|
            0 <= k < samples.len() ==> !(#[trigger] sample_lands(samples[k], x, y, row, col)),
    ensures
        apply_samples_spec(buf, width, height, x, y, color, samples)[cell_index(width, row, col)]
            == buf[cell_index(width, row, col)],
    decreases samples.len(),
{
    if samples.len() > 0 {
        let s = samples[0];
        assert(sample_lands(samples[0], x, y, row, col) == sample_lands(s, x, y, row, col));
        let buf1 = apply_sample(buf, width, height, x, y, color, s);
        assert(buf1[cell_index(width, row, col)] == buf[cell_index(width, row, col)]
            && buf1.len() == buf.len()) by {
            if x + s.dx < width && y + s.dy < height && s.coverage > 0 {
                lemma_index_in_bounds(width, height, row, col);
                lemma_index_in_bounds(width, height, y + s.dy, x + s.dx);
                if cell_index(width, y + s.dy, x + s.dx) == cell_index(width, row, col) {
                    lemma_index_injective(width, y + s.dy, x + s.dx, row, col);
                }
            }
        }
        assert(forall|k: int|
            0 <= k < samples.skip(1).len() ==> samples.skip(1)[k] == samples[k + 1]);
        lemma_apply_samples_untouched(
            buf1,
            width,
            height,
            x,
            y,
            color,
            samples.skip(1),
            row,
            col,
        );
    }
}

/// A zero-coverage sample leaves the buffer unchanged.
pub proof fn lemma_zero_coverage_sample(
    buf: Seq<u32>,
    width: int,
    height: int,
    x: int,
    y: int,
    color: u32,
    s: GlyphSample,
)
    requires
        s.coverage == 0,
    ensures
        apply_sample(buf, width, height, x, y, color, s) == buf,
{
}

/// An in-bounds sample with full coverage writes exactly the colour to
/// the pixel it lands on, for a colour whose unused top byte is clear.
pub proof fn lemma_full_coverage_sample(
    buf: Seq<u32>,
    width: int,
    height: int,
    x: int,
    y: int,
    color: u32,
    s: GlyphSample,
)
    requires
        s.coverage == 255,
        color <= 0xFFFFFF,
        0 <= x,
        0 <= y,
        x + s.dx < width,
        y + s.dy < height,
        buf.len() == width * height,
    ensures
        apply_sample(buf, width, height, x, y, color, s)[cell_index(width, y + s.dy, x + s.dx)]
            == color,
{
    crate::pixel::lemma_blend_full_coverage_exact(color);
    lemma_index_in_bounds(width, height, y + s.dy, x + s.dx);
}

/// Full coverage writes the colour itself, through a whole draw: if
/// sample `k` has full coverage and lands inside the grid, and no later
/// sample lands on the same pixel (one glyph's rasterization visits each
/// pixel of its bounding box once), then after applying the whole
/// sequence that pixel holds exactly `color`, for a colour whose unused
/// top byte is clear.
pub proof fn lemma_apply_samples_full_coverage(
    buf: Seq<u32>,
    width: int,
    height: int,
    x: int,
    y: int,
    color: u32,
    samples: Seq<GlyphSample>,
    k: int,
)
    requires
        0 <= x,
        0 <= y,
        buf.len() == width * height,
        color <= 0xFFFFFF,
        0 <= k < samples.len(),
        samples[k].coverage == 255,
        x + samples[k].dx < width,
        y + samples[k].dy < height,
        forall|j: int|
            k < j < samples.len() ==> !(#[trigger] sample_lands(
                samples[j],
                x,
                y,
                y + samples[k].dy,
                x + samples[k].dx,
            )),
    ensures
        apply_samples_spec(buf, width, height, x, y, color, samples)[cell_index(
            width,
            y + samples[k].dy,
            x + samples[k].dx,
        )] == color,
    decreases k,
{
    let s = samples[k];
    let row = y + s.dy;
    let col = x + s.dx;
    let first = samples[0];
    let buf1 = apply_sample(buf, width, height, x, y, color, first);
    assert(buf1.len() == buf.len()) by {
        if x + first.dx < width && y + first.dy < height && first.coverage > 0 {
            lemma_index_in_bounds(width, height, y + first.dy, x + first.dx);
        }
    }
    let rest = samples.skip(1);
    assert(forall|j: int| 0 <= j < rest.len() ==> rest[j] == samples[j + 1]);
    if k == 0 {
        lemma_full_coverage_sample(buf, width, height, x, y, color, s);
        assert forall|j: int| 0 <= j < rest.len() implies !(#[trigger] sample_lands(
            rest[j],
            x,
            y,
            row,
            col,
        )) by {
            assert(rest[j] == samples[j + 1]);
            assert(!sample_lands(samples[j + 1], x, y, row, col));
        }
        lemma_apply_samples_untouched(buf1, width, height, x, y, color, rest, row, col);
    } else {
        assert(rest[k - 1] == samples[k]);
        assert forall|j: int| k - 1 < j < rest.len() implies !(#[trigger] sample_lands(
            rest[j],
            x,
            y,
            y + rest[k - 1].dy,
            x + rest[k - 1].dx,
        )) by {
            assert(rest[j] == samples[j + 1]);
            assert(!sample_lands(samples[j + 1], x, y, row, col));
        }
        lemma_apply_samples_full_coverage(buf1, width, height, x, y, color, rest, k - 1);
    }
}

/// A cell of the pixel grid has a linear position inside the buffer.
proof fn lemma_index_in_bounds(width: int, height: int, row: int, col: int)
    requires
        0 <= row < height,
        0 <= col < width,
    ensures
        0 <= cell_index(width, row, col) < width * height,
{
    assert(0 <= row * width + col < width * height) by (nonlinear_arith)
        requires
            0 <= row < height,
            0 <= col < width,
    ;
}

/// Distinct cells of the pixel grid have distinct linear positions.
proof fn lemma_index_injective(width: int, r1: int, c1: int, r2: int, c2: int)
    requires
        0 <= c1 < width,
        0 <= c2 < width,
        0 <= r1,
        0 <= r2,
        cell_index(width, r1, c1) == cell_index(width, r2, c2),
    ensures
        r1 == r2 && c1 == c2,
{
    assert(r1 == r2 && c1 == c2) by (nonlinear_arith)
        requires
            0 <= c1 < width,
            0 <= c2 < width,
            0 <= r1,
            0 <= r2,
            r1 * width + c1 == r2 * width + c2,
    ;
}

impl Display {
    /// Fill the rectangle `[x, x+w) x [y, y+h)` with `color`, clamped to
    /// the buffer bounds.  A rectangle of zero width or height, or one
    /// lying entirely outside the buffer, changes nothing.
    pub fn rect(&mut self, x: usize, y: usize, w: usize, h: usize, color: u32)
        requires
            old(self).wf(),
            old(self).synced(),
        ensures
            final(self).wf(),
            final(self).synced(),
            final(self).width == old(self).width,
            final(self).height == old(self).height,
            final(self).same_fonts(*old(self)),
            forall|row: int, col: int|
                0 <= row < old(self).height && 0 <= col < old(self).width
                    ==> #[trigger] final(self).pixel(row, col) == rect_pixel(
                    *old(self),
                    x as int,
                    y as int,
                    w as int,
                    h as int,
                    color,
                    row,
                    col,
                ),
    {
        let width = self.width;
        let height = self.height;
        let start_y = if y < height {
            y
        } else {
            height
        };
        let end_y = if y >= height {
            height
        } else if h >= height - y {
            height
        } else {
            y + h
        };
        let start_x = if x < width {
            x
        } else {
            width
        };
        let end_x = if x >= width {
            width
        } else if w >= width - x {
            width
        } else {
            x + w
        };
        let buffer_len = self.offscreen.len();
        proof {
            assert(width * height <= buffer_len);
        }
        let mut row = start_y;
        while row < end_y
            invariant
                old(self).wf(),
                self.wf(),
                width * height <= usize::MAX,
                self.onscreen@ == self.offscreen@,
                self.width == old(self).width,
                self.height == old(self).height,
                self.same_fonts(*old(self)),
                width == self.width,
                height == self.height,
                start_y <= row <= end_y,
                end_y <= height,
                start_x <= end_x <= width,
                forall|r: int, c: int|
                    0 <= r < height && 0 <= c < width ==> self.offscreen@[#[trigger] cell_index(
                        width as int,
                        r,
                        c,
                    )] == (if start_y <= r < row && start_x <= c < end_x {
                        color
                    } else {
                        old(self).offscreen@[cell_index(width as int, r, c)]
                    }),
            decreases end_y - row,
        {
            let mut col = start_x;
            while col < end_x
                invariant
                    old(self).wf(),
                    self.wf(),
                    width * height <= usize::MAX,
                    self.onscreen@ == self.offscreen@,
                    self.width == old(self).width,
                    self.height == old(self).height,
                    self.same_fonts(*old(self)),
                    width == self.width,
                    height == self.height,
                    start_y <= row < end_y,
                    end_y <= height,
                    start_x <= col <= end_x,
                    end_x <= width,
                    forall|r: int, c: int|
                        0 <= r < height && 0 <= c < width ==> self.offscreen@[#[trigger] cell_index(
                            width as int,
                            r,
                            c,
                        )] == (if (start_y <= r < row && start_x <= c < end_x) || (r == row
                            && start_x <= c < col) {
                            color
                        } else {
                            old(self).offscreen@[cell_index(width as int, r, c)]
                        }),
                decreases end_x - col,
            {
                proof {
                    lemma_index_in_bounds(width as int, height as int, row as int, col as int);
                }
                let idx = row * width + col;
                self.offscreen[idx] = color;
                self.onscreen[idx] = color;
                proof {
                    assert(idx == cell_index(width as int, row as int, col as int));
                    assert forall|r: int, c: int| 0 <= r < height && 0 <= c < width implies
                        self.offscreen@[#[trigger] cell_index(width as int, r, c)] == (if (start_y
                        <= r < row && start_x <= c < end_x) || (r == row && start_x <= c < col + 1) {
                        color
                    } else {
                        old(self).offscreen@[cell_index(width as int, r, c)]
                    }) by {
                        lemma_index_in_bounds(width as int, height as int, r, c);
                        if cell_index(width as int, r, c) == idx {
                            lemma_index_injective(width as int, r, c, row as int, col as int);
                        }
                    }
                }
                col = col + 1;
            }
            row = row + 1;
        }
        proof {
            assert forall|r: int, c: int| 0 <= r < old(self).height && 0 <= c < old(
                self,
            ).width implies #[trigger] self.pixel(r, c) == rect_pixel(
                *old(self),
                x as int,
                y as int,
                w as int,
                h as int,
                color,
                r,
                c,
            ) by {
                lemma_index_in_bounds(width as int, height as int, r, c);
            }
        }
    }

    /// Scroll the buffer contents up by `rows` rows, backfilling the freed
    /// bottom rows with `color`.  A scroll of zero rows, or of the whole
    /// buffer height or more, changes nothing.
    pub fn scroll(&mut self, rows: usize, color: u32)
        requires
            old(self).wf(),
            old(self).synced(),
        ensures
            final(self).wf(),
            final(self).synced(),
            final(self).width == old(self).width,
            final(self).height == old(self).height,
            final(self).same_fonts(*old(self)),
            rows == 0 || rows >= old(self).height ==> final(self).offscreen@ == old(
                self,
            ).offscreen@ && final(self).onscreen@ == old(self).onscreen@,
            0 < rows < old(self).height ==> forall|row: int, col: int|
                0 <= row < old(self).height && 0 <= col < old(self).width
                    ==> #[trigger] final(self).pixel(row, col) == scroll_pixel(
                    *old(self),
                    rows as int,
                    color,
                    row,
                    col,
                ),
    {
        let width = self.width;
        let height = self.height;
        if rows == 0 || rows >= height {
            return ;
        }
        let kept = height - rows;
        let buffer_len = self.offscreen.len();
        proof {
            assert(width * height <= usize::MAX);
        }
        let mut row: usize = 0;
        while row < kept
            invariant
                old(self).wf(),
                self.wf(),
                width * height <= usize::MAX,
                self.onscreen@ == old(self).onscreen@,
                self.width == old(self).width,
                self.height == old(self).height,
                self.same_fonts(*old(self)),
                width == self.width,
                height == self.height,
                0 < rows < height,
                kept == height - rows,
                0 <= row <= kept,
                forall|r: int, c: int|
                    0 <= r < height && 0 <= c < width ==> self.offscreen@[#[trigger] cell_index(
                        width as int,
                        r,
                        c,
                    )] == (if r < row {
                        old(self).offscreen@[cell_index(width as int, r + rows, c)]
                    } else {
                        old(self).offscreen@[cell_index(width as int, r, c)]
                    }),
            decreases kept - row,
        {
            let mut col: usize = 0;
            while col < width
                invariant
                    old(self).wf(),
                    self.wf(),
                    width * height <= usize::MAX,
                    self.onscreen@ == old(self).onscreen@,
                    self.width == old(self).width,
                    self.height == old(self).height,
                    self.same_fonts(*old(self)),
                    width == self.width,
                    height == self.height,
                    0 < rows < height,
                    kept == height - rows,
                    0 <= row < kept,
                    0 <= col <= width,
                    forall|r: int, c: int|
                        0 <= r < height && 0 <= c < width ==> self.offscreen@[#[trigger] cell_index(
                            width as int,
                            r,
                            c,
                        )] == (if r < row || (r == row && c < col) {
                            old(self).offscreen@[cell_index(width as int, r + rows, c)]
                        } else {
                            old(self).offscreen@[cell_index(width as int, r, c)]
                        }),
                decreases width - col,
            {
                proof {
                    lemma_index_in_bounds(width as int, height as int, row as int, col as int);
                    lemma_index_in_bounds(
                        width as int,
                        height as int,
                        row as int + rows as int,
                        col as int,
                    );
                }
                let src = (row + rows) * width + col;
                let dst = row * width + col;
                let shifted = self.offscreen[src];
                self.offscreen[dst] = shifted;
                proof {
                    assert(dst == cell_index(width as int, row as int, col as int));
                    assert(src == cell_index(width as int, row as int + rows as int, col as int));
                    assert(shifted == old(self).offscreen@[cell_index(
                        width as int,
                        row as int + rows as int,
                        col as int,
                    )]);
                    assert forall|r: int, c: int| 0 <= r < height && 0 <= c < width implies
                        self.offscreen@[#[trigger] cell_index(width as int, r, c)] == (if r < row
                        || (r == row && c < col + 1) {
                        old(self).offscreen@[cell_index(width as int, r + rows, c)]
                    } else {
                        old(self).offscreen@[cell_index(width as int, r, c)]
                    }) by {
                        lemma_index_in_bounds(width as int, height as int, r, c);
                        if cell_index(width as int, r, c) == dst {
                            lemma_index_injective(width as int, r, c, row as int, col as int);
                        }
                    }
                }
                col = col + 1;
            }
            row = row + 1;
        }
        let mut fill_row = kept;
        while fill_row < height
            invariant
                old(self).wf(),
                self.wf(),
                width * height <= usize::MAX,
                self.onscreen@ == old(self).onscreen@,
                self.width == old(self).width,
                self.height == old(self).height,
                self.same_fonts(*old(self)),
                width == self.width,
                height == self.height,
                0 < rows < height,
                kept == height - rows,
                kept <= fill_row <= height,
                forall|r: int, c: int|
                    0 <= r < height && 0 <= c < width ==> self.offscreen@[#[trigger] cell_index(
                        width as int,
                        r,
                        c,
                    )] == (if r < kept {
                        old(self).offscreen@[cell_index(width as int, r + rows, c)]
                    } else if r < fill_row {
                        color
                    } else {
                        old(self).offscreen@[cell_index(width as int, r, c)]
                    }),
            decreases height - fill_row,
        {
            let mut col: usize = 0;
            while col < width
                invariant
                    old(self).wf(),
                    self.wf(),
                    width * height <= usize::MAX,
                    self.onscreen@ == old(self).onscreen@,
                    self.width == old(self).width,
                    self.height == old(self).height,
                    self.same_fonts(*old(self)),
                    width == self.width,
                    height == self.height,
                    0 < rows < height,
                    kept == height - rows,
                    kept <= fill_row < height,
                    0 <= col <= width,
                    forall|r: int, c: int|
                        0 <= r < height && 0 <= c < width ==> self.offscreen@[#[trigger] cell_index(
                            width as int,
                            r,
                            c,
                        )] == (if r < kept {
                            old(self).offscreen@[cell_index(width as int, r + rows, c)]
                        } else if r < fill_row || (r == fill_row && c < col) {
                            color
                        } else {
                            old(self).offscreen@[cell_index(width as int, r, c)]
                        }),
                decreases width - col,
            {
                proof {
                    lemma_index_in_bounds(width as int, height as int, fill_row as int, col as int);
                }
                let idx = fill_row * width + col;
                self.offscreen[idx] = color;
                proof {
                    assert(idx == cell_index(width as int, fill_row as int, col as int));
                    assert forall|r: int, c: int| 0 <= r < height && 0 <= c < width implies
                        self.offscreen@[#[trigger] cell_index(width as int, r, c)] == (if r < kept {
                        old(self).offscreen@[cell_index(width as int, r + rows, c)]
                    } else if r < fill_row || (r == fill_row && c < col + 1) {
                        color
                    } else {
                        old(self).offscreen@[cell_index(width as int, r, c)]
                    }) by {
                        lemma_index_in_bounds(width as int, height as int, r, c);
                        if cell_index(width as int, r, c) == idx {
                            lemma_index_injective(width as int, r, c, fill_row as int, col as int);
                        }
                    }
                }
                col = col + 1;
            }
            fill_row = fill_row + 1;
        }
        let ghost merged = self.offscreen@;
        let mut i: usize = 0;
        while i < buffer_len
            invariant
                self.offscreen@ == merged,
                self.onscreen@.len() == buffer_len,
                self.offscreen@.len() == buffer_len,
                0 <= i <= buffer_len,
                forall|j: int| 0 <= j < i ==> self.onscreen@[j] == merged[j],
                self.width == old(self).width,
                self.height == old(self).height,
                self.same_fonts(*old(self)),
            decreases buffer_len - i,
        {
            let merged_pixel = self.offscreen[i];
            self.onscreen[i] = merged_pixel;
            i = i + 1;
        }
        proof {
            assert(self.onscreen@ =~= self.offscreen@);
            assert forall|row: int, col: int| 0 <= row < old(self).height && 0 <= col < old(
                self,
            ).width implies #[trigger] self.pixel(row, col) == scroll_pixel(
                *old(self),
                rows as int,
                color,
                row,
                col,
            ) by {
                lemma_index_in_bounds(width as int, height as int, row, col);
                if row < kept {
                    lemma_index_in_bounds(width as int, height as int, row + rows, col);
                }
            }
        }
    }

    /// Blend the coverage samples of one rasterized glyph, whose origin
    /// is at `(x, y)`, into both buffers.  A sample whose offset falls
    /// outside the buffer is silently dropped; a zero-coverage sample
    /// leaves its pixel untouched; any other sample overwrites its pixel
    /// with `color` scaled by the coverage.
    pub fn apply_samples(&mut self, x: usize, y: usize, color: u32, samples: &Vec<GlyphSample>)
        requires
            old(self).wf(),
            old(self).synced(),
        ensures
            final(self).wf(),
            final(self).synced(),
            final(self).width == old(self).width,
            final(self).height == old(self).height,
            final(self).same_fonts(*old(self)),
            final(self).offscreen@ == apply_samples_spec(
                old(self).offscreen@,
                old(self).width as int,
                old(self).height as int,
                x as int,
                y as int,
                color,
                samples@,
            ),
    {
        let width = self.width;
        let height = self.height;
        let buffer_len = self.offscreen.len();
        proof {
            assert(width * height <= usize::MAX);
        }
        let mut i: usize = 0;
        while i < samples.len()
            invariant
                old(self).wf(),
                self.wf(),
                width * height <= usize::MAX,
                self.onscreen@ == self.offscreen@,
                self.width == old(self).width,
                self.height == old(self).height,
                self.same_fonts(*old(self)),
                width == self.width,
                height == self.height,
                0 <= i <= samples@.len(),
                self.offscreen@ == apply_samples_spec(
                    old(self).offscreen@,
                    width as int,
                    height as int,
                    x as int,
                    y as int,
                    color,
                    samples@.take(i as int),
                ),
            decreases samples@.len() - i,
        {
            let s = samples[i];
            let ghost applied_so_far = self.offscreen@;
            if s.coverage > 0 {
                let dx = s.dx as usize;
                let dy = s.dy as usize;
                if dx < width && x < width - dx && dy < height && y < height - dy {
                    let col = x + dx;
                    let row = y + dy;
                    proof {
                        lemma_index_in_bounds(width as int, height as int, row as int, col as int);
                    }
                    let idx = row * width + col;
                    let blended = blend(color, s.coverage);
                    self.offscreen[idx] = blended;
                    self.onscreen[idx] = blended;
                    proof {
                        assert(idx == cell_index(width as int, y as int + s.dy, x as int + s.dx));
                    }
                }
            }
            proof {
                assert(self.offscreen@ == apply_sample(
                    applied_so_far,
                    width as int,
                    height as int,
                    x as int,
                    y as int,
                    color,
                    s,
                ));
                lemma_apply_samples_push(
                    old(self).offscreen@,
                    width as int,
                    height as int,
                    x as int,
                    y as int,
                    color,
                    samples@.take(i as int),
                    s,
                );
                assert(samples@.take(i as int + 1) =~= samples@.take(i as int).push(s));
            }
            i = i + 1;
        }
        proof {
            assert(samples@.take(samples@.len() as int) =~= samples@);
        }
    }

    /// The font variant selected by the `{bold, italic}` pair.
    pub open spec fn font_variant(self, bold: bool, italic: bool) -> rusttype::Font<'static> {
        if bold && italic {
            self.font_bold_italic
        } else if bold {
            self.font_bold
        } else if italic {
            self.font_italic
        } else {
            self.font
        }
    }

    /// Borrow the font variant selected by the `{bold, italic}` pair.
    pub fn font_for(&self, bold: bool, italic: bool) -> (font: &rusttype::Font<'static>)
        ensures
            *font == self.font_variant(bold, italic),
    {
        if bold && italic {
            &self.font_bold_italic
        } else if bold {
            &self.font_bold
        } else if italic {
            &self.font_italic
        } else {
            &self.font
        }
    }

    /// Construct a display over the given buffers and font data.
    ///
    /// Both buffers must hold exactly `width * height` pixels; anything
    /// else is a `BufferLength` error.  Each font blob must parse as a
    /// TrueType font; anything else is a `FontData` error.  On success the
    /// screen buffer's contents are copied into the shadow buffer, so the
    /// two start out identical.
    pub fn new(
        width: usize,
        height: usize,
        onscreen: Vec<u32>,
        offscreen: Vec<u32>,
        fonts: FontData,
    ) -> (result: Result<Display, DisplayError>)
        ensures
            (match result {
                Ok(d) => {
                    &&& d.wf()
                    &&& d.synced()
                    &&& d.width == width
                    &&& d.height == height
                    &&& d.onscreen@ == onscreen@
                    &&& d.offscreen@ == onscreen@
                    &&& onscreen@.len() == width * height
                    &&& offscreen@.len() == width * height
                },
                Err(DisplayError::BufferLength) => !(onscreen@.len() == width * height
                    && offscreen@.len() == width * height),
                Err(DisplayError::FontData) => onscreen@.len() == width * height
                    && offscreen@.len() == width * height,
            }),
            onscreen@.len() == width * height && offscreen@.len() == width * height
                && font_parses(fonts.regular@) && font_parses(fonts.bold@) && font_parses(
                fonts.italic@,
            ) && font_parses(fonts.bold_italic@) ==> result is Ok,
            result matches Err(DisplayError::FontData) ==> !(font_parses(fonts.regular@)
                && font_parses(fonts.bold@) && font_parses(fonts.italic@) && font_parses(
                fonts.bold_italic@,
            )),
    {
        let on_len = onscreen.len();
        let off_len = offscreen.len();
        let area = match width.checked_mul(height) {
            Some(area) => area,
            None => {
                return Err(DisplayError::BufferLength);
            },
        };
        if on_len != area || off_len != area {
            return Err(DisplayError::BufferLength);
        }
        let FontData { regular, bold, italic, bold_italic } = fonts;
        let font = match load_font(regular) {
            Some(font) => font,
            None => {
                return Err(DisplayError::FontData);
            },
        };
        let font_bold = match load_font(bold) {
            Some(font) => font,
            None => {
                return Err(DisplayError::FontData);
            },
        };
        let font_italic = match load_font(italic) {
            Some(font) => font,
            None => {
                return Err(DisplayError::FontData);
            },
        };
        let font_bold_italic = match load_font(bold_italic) {
            Some(font) => font,
            None => {
                return Err(DisplayError::FontData);
            },
        };
        let mut shadow = offscreen;
        let mut i: usize = 0;
        while i < area
            invariant
                onscreen@.len() == area,
                shadow@.len() == area,
                0 <= i <= area,
                forall|j: int| 0 <= j < i ==> shadow@[j] == onscreen@[j],
            decreases area - i,
        {
            let screen_pixel = onscreen[i];
            shadow[i] = screen_pixel;
            i = i + 1;
        }
        proof {
            assert(shadow@ =~= onscreen@);
        }
        Ok(
            Display {
                width,
                height,
                onscreen,
                offscreen: shadow,
                font,
                font_bold,
                font_bold_italic,
                font_italic,
            },
        )
    }
}

/// Filling the whole buffer — the rectangle `[0, width) x [0, height)` —
/// sets every pixel to the fill colour.
pub proof fn lemma_full_rect_fills(pre: Display, color: u32, row: int, col: int)
    requires
        0 <= row < pre.height,
        0 <= col < pre.width,
    ensures
        rect_pixel(pre, 0, 0, pre.width as int, pre.height as int, color, row, col) == color,
{
}

/// A rectangle of zero width or zero height changes no pixel.
pub proof fn lemma_empty_rect_is_noop(
    pre: Display,
    x: int,
    y: int,
    w: int,
    h: int,
    color: u32,
    row: int,
    col: int,
)
    requires
        w == 0 || h == 0,
    ensures
        rect_pixel(pre, x, y, w, h, color, row, col) == pre.pixel(row, col),
{
}

} // verus!


