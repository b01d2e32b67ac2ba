use vstd::prelude::*;

verus! {

/// A grayscale pixel grid, kept in an `image::GrayImage`.
#[verifier::external_body]
pub struct Canvas {
    buffer: image::GrayImage,
}

/// The samples that a canvas holds, row after row.
pub uninterp spec fn canvas_samples(canvas: Canvas) -> Seq<u8>;

/// The number of pixels on one row of a canvas.
pub uninterp spec fn canvas_width(canvas: Canvas) -> nat;

/// The number of rows of a canvas.
pub uninterp spec fn canvas_height(canvas: Canvas) -> nat;

/// Calls `image::ImageBuffer::new`, which allocates `width * height` samples
/// of value zero. It panics where that count does not fit a vector, hence the
/// bound.
#[verifier::external_body]
pub(crate) fn blank_canvas(width: u32, height: u32) -> (canvas: Canvas)
    requires
        width * height <= isize::MAX,
    ensures
        canvas_width(canvas) == width,
        canvas_height(canvas) == height,
        canvas_samples(canvas) == Seq::new((width * height) as nat, |i: int| 0u8),
{
    Canvas { buffer: image::ImageBuffer::new(width, height) }
}

/// Calls `image::ImageBuffer::put_pixel`, which overwrites the one sample at
/// column `x` of row `y` and leaves the size alone. It panics outside the
/// grid, hence the bounds.
#[verifier::external_body]
pub(crate) fn put_sample(canvas: &mut Canvas, x: u32, y: u32, value: u8)
    requires
        x < canvas_width(*old(canvas)),
        y < canvas_height(*old(canvas)),
    ensures
        canvas_width(*final(canvas)) == canvas_width(*old(canvas)),
        canvas_height(*final(canvas)) == canvas_height(*old(canvas)),
        canvas_samples(*final(canvas)) == canvas_samples(*old(canvas)).update(
            y * canvas_width(*old(canvas)) + x,
            value,
        ),
{
    canvas.buffer.put_pixel(x, y, image::Luma([value]))
}

/// Borrows the samples through `image::ImageBuffer::deref`, which hands out
/// the whole buffer as a slice.
#[verifier::external_body]
pub(crate) fn canvas_bytes(canvas: &Canvas) -> (bytes: &[u8])
    ensures
        bytes@ == canvas_samples(*canvas),
{
    &canvas.buffer
}

} // verus!
