//! The renderer's bookkeeping: how the pixels of an image are numbered for
//! the sampling stage, and how the sampled colours are laid into the raster.

use vstd::prelude::*;
use vstd::arithmetic::div_mod::{lemma_fundamental_div_mod, lemma_fundamental_div_mod_converse};
use crate::canvas::{blank, canvas_pixels, canvas_size, cells, put, Canvas};

verus! {

/// The number of bounces that a path is given.
pub const MAX_DEPTH: i32 = 50;

/// Why a list of colours could not be laid into a raster.
#[derive(Clone, Copy, Debug, PartialEq, Eq, Structural)]
pub enum RenderError {
    /// The image has more pixels than can be numbered or allocated.
    TooLarge,
    /// The number of colours is not the number of pixels.
    SizeMismatch,
}

/// Whether an image of this size can be rendered: its pixels can be numbered
/// in 32 bits, and its three bytes per pixel fit one allocation.
pub open spec fn renderable(width: int, height: int) -> bool {
    width * height <= u32::MAX && 3 * (width * height) <= isize::MAX
}

/// The number of the pixel in column `x` of row `y`, rows counted from the top.
pub open spec fn index_of(x: int, y: int, width: int) -> int {
    y * width + x
}

/// The raster that shows `colors`, given row by row from the top left.
pub open spec fn raster(width: int, height: int, colors: Seq<[u8; 3]>) -> Map<(int, int), [u8; 3]> {
    Map::new(
        |cell: (int, int)| cells(width, height).contains(cell),
        |cell: (int, int)| colors[index_of(cell.0, cell.1, width)],
    )
}

proof fn lemma_product_of_words(width: u32, height: u32)
    ensures
        0 <= width * height <= 0xffff_fffe_0000_0001,
{
    assert(0 <= width * height <= 0xffff_fffe_0000_0001) by (nonlinear_arith)
        requires
            0 <= width <= 0xffff_ffff,
            0 <= height <= 0xffff_ffff,
    ;
}

/// A cell of the raster has a number below the number of pixels.
pub proof fn lemma_index_in_range(x: int, y: int, width: int, height: int)
    requires
        0 <= x < width,
        0 <= y < height,
    ensures
        0 <= index_of(x, y, width) < width * height,
{
    assert(0 <= y * width + x < width * height) by (nonlinear_arith)
        requires
            0 <= x < width,
            0 <= y < height,
    ;
}

/// Every number has one cell: its column is the remainder by the width, its
/// row the quotient. Below the number of pixels the row is one of the image.
pub proof fn lemma_position_of_index(index: int, width: int, height: int)
    requires
        0 <= index,
        0 < width,
    ensures
        0 <= index % width < width,
        0 <= index / width,
        index_of(index % width, index / width, width) == index,
        index < width * height ==> index / width < height,
{
    lemma_fundamental_div_mod(index, width);
    let (x, y) = (index % width, index / width);
    assert(width * y == y * width) by (nonlinear_arith);
    assert(0 <= y) by (nonlinear_arith)
        requires
            0 <= y * width + x,
            0 <= x < width,
    ;
    if index < width * height {
        assert(y < height) by (nonlinear_arith)
            requires
                y * width + x < width * height,
                0 <= x,
                0 < width,
        ;
    }
}

/// Every cell has one number: the cell that `pixel_position` gives for the
/// number of a cell is that cell.
pub proof fn lemma_index_of_position(x: int, y: int, width: int)
    requires
        0 <= x < width,
        0 <= y,
    ensures
        index_of(x, y, width) % width == x,
        index_of(x, y, width) / width == y,
{
    lemma_fundamental_div_mod_converse(index_of(x, y, width), width, y, x);
}

/// The image is put together by number, not by the order in which the
/// colours were found: the colour with a given number is shown in the cell
/// that `pixel_position` gives for that number.
pub proof fn lemma_raster_shows_each_colour(
    width: int,
    height: int,
    colors: Seq<[u8; 3]>,
    index: int,
)
    requires
        0 < width,
        0 <= index < width * height,
    ensures
        raster(width, height, colors).dom().contains((index % width, index / width)),
        raster(width, height, colors)[(index % width, index / width)] == colors[index],
{
    lemma_position_of_index(index, width, height);
}

/// The number of pixels of an image, which is the number of colours that
/// `render` asks for; `None` where the image cannot be rendered.
pub fn pixel_count(image_width: u32, image_height: u32) -> (count: Option<u32>)
    ensures
        count == if renderable(image_width as int, image_height as int) {
            Some((image_width * image_height) as u32)
        } else {
            None
        },
{
    proof {
        lemma_product_of_words(image_width, image_height);
    }
    let pixels: u64 = image_width as u64 * image_height as u64;
    if pixels > u32::MAX as u64 || 3 * pixels as u128 > isize::MAX as u128 {
        None
    } else {
        Some(pixels as u32)
    }
}

/// The column and the row of the pixel with the given number.
pub fn pixel_position(index: u32, image_width: u32) -> (position: (u32, u32))
    requires
        image_width > 0,
    ensures
        position.0 == index % image_width,
        position.1 == index / image_width,
        position.0 < image_width,
        index_of(position.0 as int, position.1 as int, image_width as int) == index,
{
    proof {
        lemma_position_of_index(index as int, image_width as int, 0);
    }
    (index % image_width, index / image_width)
}

/// The number by which a pixel's jittered column or row is divided on its
/// way to the image plane: one less than the number of columns or rows, and
/// one where that would be nothing to divide by.
pub fn pixel_span(extent: u32) -> (span: u32)
    ensures
        span == if extent > 1 {
            extent - 1
        } else {
            1
        },
{
    if extent > 1 {
        extent - 1
    } else {
        1
    }
}

/// Lays `colors`, one per pixel and row by row from the top left, into a
/// raster of `image_width` by `image_height` pixels.
pub fn render(image_width: u32, image_height: u32, colors: &Vec<[u8; 3]>) -> (result: Result<
    Canvas,
    RenderError,
>)
    ensures
        match result {
            Ok(canvas) => {
                &&& renderable(image_width as int, image_height as int)
                &&& colors.len() == image_width * image_height
                &&& canvas_size(canvas) == (image_width as int, image_height as int)
                &&& canvas_pixels(canvas) == raster(
                    image_width as int,
                    image_height as int,
                    colors@,
                )
            },
            Err(RenderError::TooLarge) => !renderable(image_width as int, image_height as int),
            Err(RenderError::SizeMismatch) => {
                &&& renderable(image_width as int, image_height as int)
                &&& colors.len() != image_width * image_height
            },
        },
{
    let count = match pixel_count(image_width, image_height) {
        Some(count) => count,
        None => {
            return Err(RenderError::TooLarge);
        },
    };
    if colors.len() as u64 != count as u64 {
        return Err(RenderError::SizeMismatch);
    }
    let mut canvas = blank(image_width, image_height);
    let mut y: u32 = 0;
    while y < image_height
        invariant
            y <= image_height,
            colors.len() == image_width * image_height,
            canvas_size(canvas) == (image_width as int, image_height as int),
            canvas_pixels(canvas).dom() == cells(image_width as int, image_height as int),
            forall|cell: (int, int)|
                cells(image_width as int, y as int).contains(cell) ==> #[trigger] canvas_pixels(
                    canvas,
                )[cell] == colors@[index_of(cell.0, cell.1, image_width as int)],
        decreases image_height - y,
    {
        let mut x: u32 = 0;
        while x < image_width
            invariant
                y < image_height,
                x <= image_width,
                colors.len() == image_width * image_height,
                canvas_size(canvas) == (image_width as int, image_height as int),
                canvas_pixels(canvas).dom() == cells(image_width as int, image_height as int),
                forall|cell: (int, int)|
                    cells(image_width as int, y as int).contains(cell) || (cell.1 == y && 0
                        <= cell.0 < x) ==> #[trigger] canvas_pixels(canvas)[cell]
                        == colors@[index_of(cell.0, cell.1, image_width as int)],
            decreases image_width - x,
        {
            proof {
                lemma_index_in_range(x as int, y as int, image_width as int, image_height as int);
            }
            let index: usize = y as usize * image_width as usize + x as usize;
            put(&mut canvas, x, y, colors[index]);
            x = x + 1;
        }
        y = y + 1;
    }
    assert(canvas_pixels(canvas) =~= raster(image_width as int, image_height as int, colors@));
    Ok(canvas)
}

} // verus!
