//! The raster that a finished render is written into: the `image` crate's
//! eight-bit RGB buffer, seen through a model of its pixels.

use vstd::prelude::*;

verus! {

/// An `image::RgbImage`. Verified code reaches it only through the functions
/// of this module, and knows of it only what `canvas_size` and
/// `canvas_pixels` say.
#[verifier::external_body]
pub struct Canvas {
    image: image::RgbImage,
}

/// The width and the height that a canvas was made with.
pub uninterp spec fn canvas_size(canvas: Canvas) -> (int, int);

/// The pixels of a canvas by column and row, the origin at the top left.
pub uninterp spec fn canvas_pixels(canvas: Canvas) -> Map<(int, int), [u8; 3]>;

/// The cells of a raster of the given size.
pub open spec fn cells(width: int, height: int) -> Set<(int, int)> {
    Set::new(|cell: (int, int)| 0 <= cell.0 < width && 0 <= cell.1 < height)
}

/// `ImageBuffer::new`: a buffer of the given size whose pixels are all
/// zero. The call panics when the three bytes per pixel do not fit a
/// vector, which the precondition rules out.
#[verifier::external_body]
pub(crate) fn blank(width: u32, height: u32) -> (canvas: Canvas)
    requires
        3 * (width * height) <= isize::MAX,
    ensures
        canvas_size(canvas) == (width as int, height as int),
        canvas_pixels(canvas).dom() == cells(width as int, height as int),
        forall|cell: (int, int)| #[trigger]
            canvas_pixels(canvas).dom().contains(cell) ==> canvas_pixels(canvas)[cell]@ == seq![
                0u8,
                0u8,
                0u8,
            ],
{
    Canvas { image: image::ImageBuffer::new(width, height) }
}

/// `ImageBuffer::put_pixel`: replaces the pixel at `(x, y)` and leaves the
/// others and the size as they were. The call panics outside the buffer's
/// bounds, which the precondition rules out.
#[verifier::external_body]
pub(crate) fn put(canvas: &mut Canvas, x: u32, y: u32, color: [u8; 3])
    requires
        x < canvas_size(*old(canvas)).0,
        y < canvas_size(*old(canvas)).1,
    ensures
        canvas_size(*final(canvas)) == canvas_size(*old(canvas)),
        canvas_pixels(*final(canvas)) == canvas_pixels(*old(canvas)).insert(
            (x as int, y as int),
            color,
        ),
{
    canvas.image.put_pixel(x, y, image::Rgb(color));
}

/// `ImageBuffer::dimensions`: the width and the height.
#[verifier::external_body]
pub(crate) fn dimensions(canvas: &Canvas) -> (size: (u32, u32))
    ensures
        (size.0 as int, size.1 as int) == canvas_size(*canvas),
{
    canvas.image.dimensions()
}

/// `ImageBuffer::get_pixel`: the pixel at `(x, y)`. The call panics outside
/// the buffer's bounds, which the precondition rules out.
#[verifier::external_body]
pub(crate) fn get(canvas: &Canvas, x: u32, y: u32) -> (color: [u8; 3])
    requires
        x < canvas_size(*canvas).0,
        y < canvas_size(*canvas).1,
    ensures
        color == canvas_pixels(*canvas)[(x as int, y as int)],
{
    canvas.image.get_pixel(x, y).0
}

impl Canvas {
    /// The pixel in column `x` of row `y`, or `None` outside the canvas.
    pub fn pixel(&self, x: u32, y: u32) -> (color: Option<[u8; 3]>)
        ensures
            color == if x < canvas_size(*self).0 && y < canvas_size(*self).1 {
                Some(canvas_pixels(*self)[(x as int, y as int)])
            } else {
                None
            },
    {
        let (width, height) = dimensions(self);
        if x < width && y < height {
            Some(get(self, x, y))
        } else {
            None
        }
    }
}

} // verus!
