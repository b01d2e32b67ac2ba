use crate::canvas::{
    blank_canvas, canvas_bytes, canvas_height, canvas_samples, canvas_width, put_sample, Canvas,
};
use crate::error::BuildError;
use crate::glyph::{is_lit, lit, RasterGlyph};
use crate::packer::{pack_bits, packed};
use vstd::arithmetic::div_mod::{lemma_div_is_ordered, lemma_fundamental_div_mod, lemma_mod_bound};
use vstd::prelude::*;

verus! {

/// A finished atlas: the pixel grid and the size of one glyph cell.
pub struct MonoFontData {
    data: Canvas,
    glyph_width: usize,
    glyph_height: usize,
    columns: usize,
    rows: usize,
}

/// What an atlas holds.
pub struct AtlasView {
    /// One sample per pixel, row after row: 0 for off, 255 for on.
    pub samples: Seq<u8>,
    /// Width of one glyph cell, in pixels.
    pub glyph_width: nat,
    /// Height of one glyph cell, in pixels.
    pub glyph_height: nat,
    /// Glyph cells on one row of the grid.
    pub columns: nat,
    /// Rows of glyph cells.
    pub rows: nat,
}

impl AtlasView {
    /// Pixels on one row of the image.
    pub open spec fn width(self) -> nat {
        self.columns * self.glyph_width
    }

    /// Rows of pixels of the image.
    pub open spec fn height(self) -> nat {
        self.rows * self.glyph_height
    }

    /// The grid has a column, and a sample for each pixel and no more.
    pub open spec fn well_formed(self) -> bool {
        &&& self.columns > 0
        &&& self.samples.len() == self.width() * self.height()
    }
}

impl View for MonoFontData {
    type V = AtlasView;

    closed spec fn view(&self) -> AtlasView {
        AtlasView {
            samples: canvas_samples(self.data),
            glyph_width: self.glyph_width as nat,
            glyph_height: self.glyph_height as nat,
            columns: self.columns as nat,
            rows: self.rows as nat,
        }
    }
}

/// The cell width of an atlas of these glyphs: the largest width that one
/// of them asks for.
pub open spec fn cell_width(glyphs: Seq<RasterGlyph>) -> int
    decreases glyphs.len(),
{
    if glyphs.len() == 0 {
        0
    } else {
        let rest = cell_width(glyphs.drop_last());
        let own = glyphs.last().needed_width();
        if own > rest {
            own
        } else {
            rest
        }
    }
}

/// The cell height of an atlas of these glyphs: the largest height that one
/// of them asks for.
pub open spec fn cell_height(glyphs: Seq<RasterGlyph>) -> int
    decreases glyphs.len(),
{
    if glyphs.len() == 0 {
        0
    } else {
        let rest = cell_height(glyphs.drop_last());
        let own = glyphs.last().needed_height();
        if own > rest {
            own
        } else {
            rest
        }
    }
}

/// Rows of a grid that holds `count` cells, `columns` to a row: `count`
/// divided by `columns`, rounded up.
pub open spec fn grid_rows(count: int, columns: int) -> int {
    if count <= 0 {
        0
    } else {
        (count - 1) / columns + 1
    }
}

/// Width of the image, in pixels.
pub open spec fn atlas_width(glyphs: Seq<RasterGlyph>, columns: int) -> int {
    columns * cell_width(glyphs)
}

/// Height of the image, in pixels.
pub open spec fn atlas_height(glyphs: Seq<RasterGlyph>, columns: int) -> int {
    grid_rows(glyphs.len() as int, columns) * cell_height(glyphs)
}

/// Column at which the bitmap of the glyph at position `i` starts: the left
/// edge of its cell and its left bearing.
pub open spec fn left_edge(glyphs: Seq<RasterGlyph>, columns: int, i: int) -> int {
    (i % columns) * cell_width(glyphs) + glyphs[i].left
}

/// Row at which the bitmap of the glyph at position `i` starts: the top edge
/// of its cell and half of what the cell height leaves above its top bearing.
pub open spec fn top_edge(glyphs: Seq<RasterGlyph>, columns: int, i: int) -> int {
    (i / columns) * cell_height(glyphs) + (cell_height(glyphs) - glyphs[i].top) / 2
}

/// Whether the glyph at position `i` turns the pixel at (`x`, `y`) on.
pub open spec fn glyph_paints(
    glyphs: Seq<RasterGlyph>,
    threshold: u8,
    columns: int,
    i: int,
    x: int,
    y: int,
) -> bool {
    paints(glyphs[i], left_edge(glyphs, columns, i), top_edge(glyphs, columns, i), threshold, x, y)
}

/// Whether one of the first `n` glyphs turns the pixel at (`x`, `y`) on.
pub open spec fn painted_by_first(
    glyphs: Seq<RasterGlyph>,
    threshold: u8,
    columns: int,
    n: int,
    x: int,
    y: int,
) -> bool {
    exists|i: int| 0 <= i < n && #[trigger] glyph_paints(glyphs, threshold, columns, i, x, y)
}

/// The sample at (`x`, `y`) of the atlas: fully on where a glyph paints it,
/// off elsewhere.
pub open spec fn atlas_sample(
    glyphs: Seq<RasterGlyph>,
    threshold: u8,
    columns: int,
    x: int,
    y: int,
) -> u8 {
    if painted_by_first(glyphs, threshold, columns, glyphs.len() as int, x, y) {
        255u8
    } else {
        0u8
    }
}

/// Whether the glyphs can be laid out: each is well formed with a top
/// bearing that is not above the cell height, the image has a size that the
/// pixel grid can take, and no lit pixel falls off its right or lower edge.
pub open spec fn placeable(glyphs: Seq<RasterGlyph>, threshold: u8, columns: int) -> bool {
    &&& forall|i: int| 0 <= i < glyphs.len() ==> (#[trigger] glyphs[i]).well_formed()
    &&& atlas_width(glyphs, columns) <= u32::MAX
    &&& atlas_height(glyphs, columns) <= u32::MAX
    &&& atlas_width(glyphs, columns) * atlas_height(glyphs, columns) <= isize::MAX
    &&& forall|i: int|
        0 <= i < glyphs.len() ==> (#[trigger] glyphs[i]).top <= cell_height(glyphs)
    &&& forall|i: int, x: int, y: int| #[trigger]
        glyph_paints(glyphs, threshold, columns, i, x, y) && 0 <= i < glyphs.len() ==> x
            < atlas_width(glyphs, columns) && y < atlas_height(glyphs, columns)
}

/// The atlas of these glyphs on a grid `columns` cells wide.
pub open spec fn atlas_view(glyphs: Seq<RasterGlyph>, threshold: u8, columns: int) -> AtlasView {
    let width = atlas_width(glyphs, columns);
    let height = atlas_height(glyphs, columns);
    AtlasView {
        samples: Seq::new(
            (width * height) as nat,
            |p: int| atlas_sample(glyphs, threshold, columns, p % width, p / width),
        ),
        glyph_width: cell_width(glyphs) as nat,
        glyph_height: cell_height(glyphs) as nat,
        columns: columns as nat,
        rows: grid_rows(glyphs.len() as int, columns) as nat,
    }
}

/// What building an atlas gives: an error for no glyph at all, another for
/// glyphs that cannot be laid out, and else the one atlas of these glyphs.
pub open spec fn atlas_outcome(
    glyphs: Seq<RasterGlyph>,
    threshold: u8,
    columns: int,
    result: Result<MonoFontData, BuildError>,
) -> bool {
    match result {
        Ok(atlas) => {
            &&& glyphs.len() > 0
            &&& placeable(glyphs, threshold, columns)
            &&& atlas@ == atlas_view(glyphs, threshold, columns)
        },
        Err(e) => if glyphs.len() == 0 {
            e == BuildError::EmptyCharacterSet
        } else {
            e == BuildError::GlyphSourceFailure && !placeable(glyphs, threshold, columns)
        },
    }
}

/// Position of the pixel at column `x` of row `y` in a row-major grid that is
/// `width` pixels wide.
pub open spec fn pixel_index(width: int, x: int, y: int) -> int {
    y * width + x
}

/// Whether `glyph`, with the top left corner of its bitmap at
/// (`left_edge`, `top_edge`), turns the pixel at (`x`, `y`) on. Nothing is
/// painted on column 0 or on row 0.
pub open spec fn paints(
    glyph: RasterGlyph,
    left_edge: int,
    top_edge: int,
    threshold: u8,
    x: int,
    y: int,
) -> bool {
    &&& x > 0
    &&& y > 0
    &&& 0 <= x - left_edge < glyph.width
    &&& 0 <= y - top_edge < glyph.rows
    &&& lit(glyph.sample(x - left_edge, y - top_edge), threshold)
}

/// Whether the bitmap pixel that lands on (`x`, `y`) comes before column `gx`
/// of row `gy` in reading order.
spec fn stamped_before(left_edge: int, top_edge: int, gx: int, gy: int, x: int, y: int) -> bool {
    y - top_edge < gy || (y - top_edge == gy && x - left_edge < gx)
}

proof fn lemma_pixel_in_grid(width: int, height: int, x: int, y: int)
    requires
        0 <= x < width,
        0 <= y < height,
    ensures
        0 <= pixel_index(width, x, y) < width * height,
{
    assert(y * width + x < width * height) by (nonlinear_arith)
        requires
            0 <= x < width,
            0 <= y < height,
    ;
    assert(0 <= y * width) by (nonlinear_arith)
        requires
            0 <= y,
            0 < width,
    ;
}

proof fn lemma_pixel_index_injective(width: int, x1: int, y1: int, x2: int, y2: int)
    requires
        0 <= x1 < width,
        0 <= x2 < width,
        pixel_index(width, x1, y1) == pixel_index(width, x2, y2),
    ensures
        x1 == x2,
        y1 == y2,
{
    assert(y1 == y2) by (nonlinear_arith)
        requires
            0 <= x1 < width,
            0 <= x2 < width,
            y1 * width + x1 == y2 * width + x2,
    ;
}

/// Copies the lit pixels of one glyph onto the canvas. Gives up, with
/// `false`, at the first lit pixel that would land outside the canvas.
fn stamp(
    canvas: &mut Canvas,
    glyph: &RasterGlyph,
    left_edge: i64,
    top_edge: i64,
    threshold: u8,
    width: u32,
    height: u32,
) -> (fits: bool)
    requires
        glyph.well_formed(),
        -0x1_0000_0000 <= left_edge <= 0x2_0000_0000,
        -0x1_0000_0000 <= top_edge <= 0x2_0000_0000,
        canvas_width(*old(canvas)) == width,
        canvas_height(*old(canvas)) == height,
        canvas_samples(*old(canvas)).len() == width * height,
    ensures
        canvas_width(*final(canvas)) == width,
        canvas_height(*final(canvas)) == height,
        canvas_samples(*final(canvas)).len() == width * height,
        fits == (forall|x: int, y: int| #[trigger]
            paints(*glyph, left_edge as int, top_edge as int, threshold, x, y) ==> x < width && y
                < height),
        fits ==> (forall|x: int, y: int|
            0 <= x < width && 0 <= y < height ==> canvas_samples(*final(canvas))[#[trigger] pixel_index(
                width as int,
                x,
                y,
            )] == (if paints(*glyph, left_edge as int, top_edge as int, threshold, x, y) {
                255u8
            } else {
                canvas_samples(*old(canvas))[pixel_index(width as int, x, y)]
            })),
{
    let ghost before = canvas_samples(*canvas);
    let ghost le = left_edge as int;
    let ghost te = top_edge as int;
    let ghost w = width as int;
    let ghost h = height as int;
    let rows: usize = glyph.rows as usize;
    let cols: usize = glyph.width as usize;
    let room: usize = glyph.buffer.len();
    let mut gy: usize = 0;
    while gy < rows
        invariant
            glyph.well_formed(),
            rows == glyph.rows,
            cols == glyph.width,
            room == glyph.buffer@.len(),
            gy <= rows,
            le == left_edge,
            te == top_edge,
            w == width,
            h == height,
            -0x1_0000_0000 <= left_edge <= 0x2_0000_0000,
            -0x1_0000_0000 <= top_edge <= 0x2_0000_0000,
            canvas_width(*canvas) == width,
            canvas_height(*canvas) == height,
            canvas_samples(*canvas).len() == w * h,
            before.len() == w * h,
            forall|x: int, y: int| #[trigger]
                paints(*glyph, le, te, threshold, x, y) && stamped_before(le, te, 0, gy as int, x, y)
                    ==> x < w && y < h,
            forall|x: int, y: int|
                0 <= x < w && 0 <= y < h ==> canvas_samples(*canvas)[#[trigger] pixel_index(w, x, y)]
                    == (if paints(*glyph, le, te, threshold, x, y) && stamped_before(
                    le,
                    te,
                    0,
                    gy as int,
                    x,
                    y,
                ) {
                    255u8
                } else {
                    before[pixel_index(w, x, y)]
                }),
        decreases rows - gy,
    {
        let mut gx: usize = 0;
        while gx < cols
            invariant
                glyph.well_formed(),
                rows == glyph.rows,
                cols == glyph.width,
                room == glyph.buffer@.len(),
                gy < rows,
                gx <= cols,
                le == left_edge,
                te == top_edge,
                w == width,
                h == height,
                -0x1_0000_0000 <= left_edge <= 0x2_0000_0000,
                -0x1_0000_0000 <= top_edge <= 0x2_0000_0000,
                canvas_width(*canvas) == width,
                canvas_height(*canvas) == height,
                canvas_samples(*canvas).len() == w * h,
                before.len() == w * h,
                forall|x: int, y: int| #[trigger]
                    paints(*glyph, le, te, threshold, x, y) && stamped_before(
                        le,
                        te,
                        gx as int,
                        gy as int,
                        x,
                        y,
                    ) ==> x < w && y < h,
                forall|x: int, y: int|
                    0 <= x < w && 0 <= y < h ==> canvas_samples(*canvas)[#[trigger] pixel_index(
                        w,
                        x,
                        y,
                    )] == (if paints(*glyph, le, te, threshold, x, y) && stamped_before(
                        le,
                        te,
                        gx as int,
                        gy as int,
                        x,
                        y,
                    ) {
                        255u8
                    } else {
                        before[pixel_index(w, x, y)]
                    }),
            decreases cols - gx,
        {
            assert(0 <= gy * cols && gy * cols + gx < glyph.rows * glyph.width) by (nonlinear_arith)
                requires
                    0 <= gx < cols,
                    0 <= gy < rows,
                    rows == glyph.rows,
                    cols == glyph.width,
            ;
            let value = glyph.buffer[gy * cols + gx];
            assert(value == glyph.sample(gx as int, gy as int));
            let px: i64 = left_edge + gx as i64;
            let py: i64 = top_edge + gy as i64;
            if is_lit(value, threshold) && px > 0 && py > 0 {
                assert(paints(*glyph, le, te, threshold, px as int, py as int));
                if px >= width as i64 || py >= height as i64 {
                    return false;
                }
                put_sample(canvas, px as u32, py as u32, 255);
                proof {
                    let after = canvas_samples(*canvas);
                    lemma_pixel_in_grid(w, h, px as int, py as int);
                    assert forall|x: int, y: int| 0 <= x < w && 0 <= y < h implies after[#[trigger] pixel_index(
                        w,
                        x,
                        y,
                    )] == (if paints(*glyph, le, te, threshold, x, y) && stamped_before(
                        le,
                        te,
                        gx + 1,
                        gy as int,
                        x,
                        y,
                    ) {
                        255u8
                    } else {
                        before[pixel_index(w, x, y)]
                    }) by {
                        lemma_pixel_in_grid(w, h, x, y);
                        if x != px || y != py {
                            if pixel_index(w, x, y) == pixel_index(w, px as int, py as int) {
                                lemma_pixel_index_injective(w, x, y, px as int, py as int);
                            }
                        }
                    }
                }
            }
            gx = gx + 1;
        }
        gy = gy + 1;
    }
    true
}


proof fn lemma_pixel_of_index(width: int, height: int, p: int)
    requires
        0 <= p < width * height,
        0 <= width,
        0 <= height,
    ensures
        0 <= p % width < width,
        0 <= p / width < height,
        pixel_index(width, p % width, p / width) == p,
{
    assert(width > 0) by (nonlinear_arith)
        requires
            0 <= p < width * height,
            0 <= width,
    ;
    lemma_fundamental_div_mod(p, width);
    lemma_mod_bound(p, width);
    let q = p / width;
    assert(width * q == q * width) by (nonlinear_arith);
    assert(0 <= q < height) by (nonlinear_arith)
        requires
            0 <= p < width * height,
            0 < width,
            p == q * width + p % width,
            0 <= p % width < width,
    ;
}

proof fn lemma_painted_by_next(
    glyphs: Seq<RasterGlyph>,
    threshold: u8,
    columns: int,
    n: int,
    x: int,
    y: int,
)
    requires
        0 <= n,
    ensures
        painted_by_first(glyphs, threshold, columns, n + 1, x, y) == (painted_by_first(
            glyphs,
            threshold,
            columns,
            n,
            x,
            y,
        ) || glyph_paints(glyphs, threshold, columns, n, x, y)),
{
    if painted_by_first(glyphs, threshold, columns, n + 1, x, y) {
        let i = choose|i: int|
            0 <= i < n + 1 && #[trigger] glyph_paints(glyphs, threshold, columns, i, x, y);
        if i < n {
            assert(painted_by_first(glyphs, threshold, columns, n, x, y));
        }
    }
    if painted_by_first(glyphs, threshold, columns, n, x, y) {
        let i = choose|i: int|
            0 <= i < n && #[trigger] glyph_paints(glyphs, threshold, columns, i, x, y);
        assert(0 <= i < n + 1 && glyph_paints(glyphs, threshold, columns, i, x, y));
    }
}

/// The length in pixels of `cells` cells of `size` pixels each, where that
/// fits the pixel grid's coordinates.
fn extent(cells: usize, size: u64) -> (total: Option<u32>)
    ensures
        total.is_some() == (cells * size <= u32::MAX),
        total matches Some(v) ==> v == cells * size,
{
    if cells == 0 || size == 0 {
        assert(cells * size == 0) by (nonlinear_arith)
            requires
                cells == 0 || size == 0,
        ;
        return Some(0);
    }
    if size > 0xffff_ffff || cells as u64 > 0xffff_ffff {
        assert(cells * size > 0xffff_ffff) by (nonlinear_arith)
            requires
                cells >= 1,
                size >= 1,
                size > 0xffff_ffff || cells > 0xffff_ffff,
        ;
        return None;
    }
    assert(cells * size <= 0xffff_ffff * 0xffff_ffff) by (nonlinear_arith)
        requires
            0 <= cells <= 0xffff_ffff,
            0 <= size <= 0xffff_ffff,
    ;
    let total: u64 = cells as u64 * size;
    if total > 0xffff_ffff {
        None
    } else {
        Some(total as u32)
    }
}

/// Lays the glyphs out on a grid `columns` cells wide, in the order given,
/// and paints each into its cell. Every cell has the size of the largest
/// glyph.
pub fn build_atlas(glyphs: &[RasterGlyph], threshold: u8, columns: usize) -> (result: Result<
    MonoFontData,
    BuildError,
>)
    requires
        columns > 0,
    ensures
        atlas_outcome(glyphs@, threshold, columns as int, result),
{
    let count = glyphs.len();
    if count == 0 {
        return Err(BuildError::EmptyCharacterSet);
    }
    let ghost all = glyphs@;
    let ghost cols = columns as int;
    let mut cell_w: u64 = 0;
    let mut cell_h: u64 = 0;
    let mut i: usize = 0;
    while i < count
        invariant
            i <= count,
            count == glyphs@.len(),
            all == glyphs@,
            forall|j: int| 0 <= j < i ==> (#[trigger] all[j]).well_formed(),
            cell_w == cell_width(all.take(i as int)),
            cell_h == cell_height(all.take(i as int)),
        decreases count - i,
    {
        proof {
            assert(all.take(i + 1).drop_last() == all.take(i as int));
            assert(all.take(i + 1).last() == all[i as int]);
        }
        match glyphs[i].metrics() {
            None => {
                assert(!all[i as int].well_formed());
                return Err(BuildError::GlyphSourceFailure);
            },
            Some(m) => {
                if m.width > cell_w {
                    cell_w = m.width;
                }
                if m.height > cell_h {
                    cell_h = m.height;
                }
            },
        }
        i = i + 1;
    }
    assert(all.take(count as int) == all);
    let rows: usize = (count - 1) / columns + 1;
    let width: u32 = match extent(columns, cell_w) {
        None => {
            return Err(BuildError::GlyphSourceFailure);
        },
        Some(v) => v,
    };
    let height: u32 = match extent(rows, cell_h) {
        None => {
            return Err(BuildError::GlyphSourceFailure);
        },
        Some(v) => v,
    };
    assert(width * height <= 0xffff_ffff * 0xffff_ffff) by (nonlinear_arith)
        requires
            0 <= width <= 0xffff_ffff,
            0 <= height <= 0xffff_ffff,
    ;
    if width as u64 * height as u64 > isize::MAX as u64 {
        return Err(BuildError::GlyphSourceFailure);
    }
    let ghost w = width as int;
    let ghost h = height as int;
    assert(cell_w <= w && cell_h <= h) by (nonlinear_arith)
        requires
            w == cols * cell_w,
            h == rows * cell_h,
            cols >= 1,
            rows >= 1,
            cell_w >= 0,
            cell_h >= 0,
    ;
    let mut canvas = blank_canvas(width, height);
    proof {
        assert forall|x: int, y: int| 0 <= x < w && 0 <= y < h implies canvas_samples(
            canvas,
        )[#[trigger] pixel_index(w, x, y)] == 0u8 by {
            lemma_pixel_in_grid(w, h, x, y);
        }
    }
    let mut i: usize = 0;
    while i < count
        invariant
            i <= count,
            count == glyphs@.len(),
            count > 0,
            all == glyphs@,
            cols == columns,
            cols > 0,
            w == width,
            h == height,
            rows == grid_rows(count as int, cols),
            cell_w == cell_width(all),
            cell_h == cell_height(all),
            w == cols * cell_w,
            h == rows * cell_h,
            cell_w <= w,
            cell_h <= h,
            canvas_width(canvas) == width,
            canvas_height(canvas) == height,
            canvas_samples(canvas).len() == w * h,
            forall|j: int| 0 <= j < count ==> (#[trigger] all[j]).well_formed(),
            forall|j: int| 0 <= j < i ==> (#[trigger] all[j]).top <= cell_h,
            forall|j: int, x: int, y: int| #[trigger]
                glyph_paints(all, threshold, cols, j, x, y) && 0 <= j < i ==> x < w && y < h,
            forall|x: int, y: int|
                0 <= x < w && 0 <= y < h ==> canvas_samples(canvas)[#[trigger] pixel_index(w, x, y)]
                    == (if painted_by_first(all, threshold, cols, i as int, x, y) {
                    255u8
                } else {
                    0u8
                }),
        decreases count - i,
    {
        let glyph = &glyphs[i];
        if glyph.top as i64 > cell_h as i64 {
            return Err(BuildError::GlyphSourceFailure);
        }
        let col: usize = i % columns;
        let row: usize = i / columns;
        proof {
            lemma_div_is_ordered(i as int, count - 1, cols);
            assert(col * cell_w <= w && row * cell_h <= h) by (nonlinear_arith)
                requires
                    0 <= col < cols,
                    0 <= row < rows,
                    w == cols * cell_w,
                    h == rows * cell_h,
                    cell_w >= 0,
                    cell_h >= 0,
            ;
        }
        let left: i64 = (col as u64 * cell_w) as i64 + glyph.left as i64;
        let top: i64 = (row as u64 * cell_h) as i64 + (cell_h as i64 - glyph.top as i64) / 2;
        assert(left == left_edge(all, cols, i as int));
        assert(top == top_edge(all, cols, i as int));
        if !stamp(&mut canvas, glyph, left, top, threshold, width, height) {
            proof {
                let (x, y) = choose|x: int, y: int| #[trigger]
                    paints(*glyph, left as int, top as int, threshold, x, y) && !(x < w && y < h);
                assert(glyph_paints(all, threshold, cols, i as int, x, y));
            }
            return Err(BuildError::GlyphSourceFailure);
        }
        proof {
            assert forall|x: int, y: int| 0 <= x < w && 0 <= y < h implies canvas_samples(
                canvas,
            )[#[trigger] pixel_index(w, x, y)] == (if painted_by_first(
                all,
                threshold,
                cols,
                i + 1,
                x,
                y,
            ) {
                255u8
            } else {
                0u8
            }) by {
                lemma_painted_by_next(all, threshold, cols, i as int, x, y);
            }
        }
        i = i + 1;
    }
    let atlas = MonoFontData {
        data: canvas,
        glyph_width: cell_w as usize,
        glyph_height: cell_h as usize,
        columns,
        rows,
    };
    proof {
        let expected = atlas_view(all, threshold, cols);
        assert(atlas@.samples =~= expected.samples) by {
            assert forall|p: int| 0 <= p < w * h implies atlas@.samples[p] == expected.samples[p] by {
                lemma_pixel_of_index(w, h, p);
            }
        }
    }
    Ok(atlas)
}

/// The numbers that a renderer needs beside the packed bitmap.
#[derive(Debug, Clone, Copy, PartialEq, Eq, Structural)]
pub struct FontMetadata {
    /// Width of one glyph cell, in pixels.
    pub glyph_width: usize,
    /// Height of one glyph cell, in pixels.
    pub glyph_height: usize,
    /// Glyph cells on one row of the atlas.
    pub columns: usize,
    /// Width of the whole image, in pixels.
    pub image_width: u32,
    /// Row of the underline, counted from the top of a cell.
    pub underline_offset: u64,
    /// Row of the strikethrough, counted from the top of a cell.
    pub strikethrough_offset: usize,
}

impl MonoFontData {
    #[verifier::type_invariant]
    spec fn sound(self) -> bool {
        &&& self.columns > 0
        &&& self.rows > 0
        &&& self.glyph_width <= u32::MAX
        &&& self.glyph_height <= u32::MAX
        &&& canvas_width(self.data) == self.columns * self.glyph_width
        &&& canvas_height(self.data) == self.rows * self.glyph_height
        &&& canvas_width(self.data) <= u32::MAX
        &&& canvas_height(self.data) <= u32::MAX
        &&& canvas_samples(self.data).len() == canvas_width(self.data) * canvas_height(self.data)
    }

    /// Width of one glyph cell, in pixels.
    pub fn glyph_width(&self) -> (n: usize)
        ensures
            n == self@.glyph_width,
    {
        self.glyph_width
    }

    /// Height of one glyph cell, in pixels.
    pub fn glyph_height(&self) -> (n: usize)
        ensures
            n == self@.glyph_height,
    {
        self.glyph_height
    }

    /// Glyph cells on one row of the atlas.
    pub fn columns(&self) -> (n: usize)
        ensures
            n == self@.columns,
            n > 0,
    {
        proof {
            use_type_invariant(self);
        }
        self.columns
    }

    /// Rows of glyph cells.
    pub fn rows(&self) -> (n: usize)
        ensures
            n == self@.rows,
    {
        self.rows
    }

    /// Width of the image, in pixels.
    pub fn image_width(&self) -> (n: u32)
        ensures
            n == self@.width(),
            self@.well_formed(),
    {
        proof {
            use_type_invariant(self);
        }
        (self.columns as u64 * self.glyph_width as u64) as u32
    }

    /// Height of the image, in pixels.
    pub fn image_height(&self) -> (n: u32)
        ensures
            n == self@.height(),
            self@.well_formed(),
    {
        proof {
            use_type_invariant(self);
        }
        (self.rows as u64 * self.glyph_height as u64) as u32
    }

    /// The samples of the image, one byte per pixel, row after row.
    pub fn pixels(&self) -> (samples: &[u8])
        ensures
            samples@ == self@.samples,
            self@.well_formed(),
    {
        proof {
            use_type_invariant(self);
        }
        canvas_bytes(&self.data)
    }

    /// The image with one bit per pixel, eight pixels to a byte, as it is
    /// stored for a renderer.
    pub fn raw_bytes(&self) -> (bytes: Vec<u8>)
        ensures
            bytes@ == packed(self@.samples),
    {
        pack_bits(canvas_bytes(&self.data))
    }

    /// The numbers that go with the packed bitmap: the underline stands one
    /// row below the cell, the strikethrough half way down.
    pub fn metadata(&self) -> (meta: FontMetadata)
        ensures
            meta.glyph_width == self@.glyph_width,
            meta.glyph_height == self@.glyph_height,
            meta.columns == self@.columns,
            meta.image_width == self@.columns * self@.glyph_width,
            meta.underline_offset == self@.glyph_height + 1,
            meta.strikethrough_offset == self@.glyph_height / 2,
    {
        proof {
            use_type_invariant(self);
        }
        FontMetadata {
            glyph_width: self.glyph_width,
            glyph_height: self.glyph_height,
            columns: self.columns,
            image_width: self.image_width(),
            underline_offset: self.glyph_height as u64 + 1,
            strikethrough_offset: self.glyph_height / 2,
        }
    }
}

/// Building twice from the same glyphs, with the same threshold and on the
/// same grid, ends the same way: with the same error, or with atlases that
/// hold the same samples and so pack to the same bytes.
pub proof fn lemma_build_is_deterministic(
    glyphs: Seq<RasterGlyph>,
    threshold: u8,
    columns: int,
    first: Result<MonoFontData, BuildError>,
    second: Result<MonoFontData, BuildError>,
)
    requires
        atlas_outcome(glyphs, threshold, columns, first),
        atlas_outcome(glyphs, threshold, columns, second),
    ensures
        match (first, second) {
            (Ok(a), Ok(b)) => a@ == b@ && packed(a@.samples) == packed(b@.samples),
            (Err(e), Err(f)) => e == f,
            _ => false,
        },
{
}

/// The grid of an atlas has as many rows as its glyphs need, and no more:
/// the last row holds a glyph.
pub proof fn lemma_grid_rows_is_ceiling(count: int, columns: int)
    requires
        count > 0,
        columns > 0,
    ensures
        (grid_rows(count, columns) - 1) * columns < count <= grid_rows(count, columns) * columns,
{
    lemma_fundamental_div_mod(count - 1, columns);
    lemma_mod_bound(count - 1, columns);
    let q = (count - 1) / columns;
    assert(columns * q == q * columns) by (nonlinear_arith);
    assert((q + 1) * columns == q * columns + columns) by (nonlinear_arith);
}

} // verus!
