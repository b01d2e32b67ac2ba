use vstd::prelude::*;

verus! {

/// One rendered glyph, as a rasterizer reports it.
#[derive(Debug, Clone)]
pub struct RasterGlyph {
    /// Pixels on one row of the bitmap.
    pub width: i32,
    /// Rows of the bitmap.
    pub rows: i32,
    /// Distance from the pen position to the left edge of the bitmap.
    pub left: i32,
    /// Distance from the baseline up to the top row of the bitmap.
    pub top: i32,
    /// Horizontal advance, in 1/64 of a pixel.
    pub hori_advance: i64,
    /// Vertical advance, in 1/64 of a pixel.
    pub vert_advance: i64,
    /// Intensities, one byte per pixel, row after row.
    pub buffer: Vec<u8>,
}

/// The room that one glyph asks of a cell, in pixels.
#[derive(Debug, Clone, Copy, PartialEq, Eq, Structural)]
pub struct GlyphMetrics {
    pub height: u64,
    pub width: u64,
}

/// Whether a sample of the given intensity is on under the given threshold.
pub open spec fn lit(intensity: u8, threshold: u8) -> bool {
    intensity > threshold
}

/// Thresholds one intensity sample: only a sample strictly above the
/// threshold is on.
pub fn is_lit(intensity: u8, threshold: u8) -> (on: bool)
    ensures
        on == lit(intensity, threshold),
        intensity == threshold ==> !on,
        intensity == threshold + 1 ==> on,
{
    intensity > threshold
}

impl RasterGlyph {
    /// Whole pixels of horizontal advance.
    pub open spec fn advance_width(self) -> int {
        self.hori_advance / 64
    }

    /// Whole pixels of vertical advance.
    pub open spec fn advance_height(self) -> int {
        self.vert_advance / 64
    }

    /// The cell width that this glyph asks for.
    pub open spec fn needed_width(self) -> int {
        self.advance_width()
    }

    /// The cell height that this glyph asks for: the larger of its bitmap
    /// height and its vertical advance, and what hangs below the baseline.
    pub open spec fn needed_height(self) -> int {
        (if self.rows >= self.advance_height() {
            self.rows as int
        } else {
            self.advance_height()
        }) + self.rows - self.top
    }

    /// A glyph that can be measured and read: no negative size or advance,
    /// a sample for each pixel of the bitmap, and a height that is not
    /// negative.
    pub open spec fn well_formed(self) -> bool {
        &&& 0 <= self.width
        &&& 0 <= self.rows
        &&& 0 <= self.hori_advance
        &&& 0 <= self.vert_advance
        &&& self.rows * self.width <= self.buffer@.len()
        &&& 0 <= self.needed_height()
    }

    /// The intensity of the bitmap at column `gx` of row `gy`.
    pub open spec fn sample(self, gx: int, gy: int) -> u8 {
        self.buffer@[gy * self.width + gx]
    }

    /// Measures the glyph; `None` for one that is not well formed.
    pub fn metrics(&self) -> (m: Option<GlyphMetrics>)
        ensures
            m.is_some() == self.well_formed(),
            m matches Some(v) ==> v.width == self.needed_width() && v.height
                == self.needed_height(),
    {
        if self.width < 0 || self.rows < 0 || self.hori_advance < 0 || self.vert_advance < 0 {
            return None;
        }
        assert(self.rows * self.width <= 0x7fff_ffff * 0x7fff_ffff) by (nonlinear_arith)
            requires
                0 <= self.rows <= 0x7fff_ffff,
                0 <= self.width <= 0x7fff_ffff,
        ;
        let area: u64 = (self.rows as u64) * (self.width as u64);
        if area > self.buffer.len() as u64 {
            return None;
        }
        let advance_height: i64 = self.vert_advance / 64;
        let rows: i64 = self.rows as i64;
        let body: i64 = if rows >= advance_height {
            rows
        } else {
            advance_height
        };
        let height: i64 = body + rows - self.top as i64;
        if height < 0 {
            return None;
        }
        Some(GlyphMetrics { height: height as u64, width: (self.hori_advance / 64) as u64 })
    }
}

} // verus!
