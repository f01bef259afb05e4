//! Colouring a finished grid: each cell becomes one pixel of a raster.

use crate::grid::{diverged_values, SampleResult};
use crate::palette::{get_palette, preset_stops, PresetPalette};
use crate::range::{build_range, range_of, ColorRange};
use vstd::prelude::*;

verus! {

/// The colour of a cell whose point did not escape.
pub open spec fn background() -> [u8; 3] {
    [0u8, 0u8, 0u8]
}

/// A raster of RGB pixels, held in an `image::RgbImage`. What it holds is
/// known by `raster_size` and `raster_pixels` alone.
#[verifier::external_body]
pub struct Raster {
    image: image::RgbImage,
}

/// The width and the height of a raster.
pub uninterp spec fn raster_size(raster: Raster) -> (int, int);

/// The pixels of a raster by column and row.
pub uninterp spec fn raster_pixels(raster: Raster) -> Map<(int, int), [u8; 3]>;

/// The coordinates inside a raster of the given width and height.
pub open spec fn coordinates(size: (int, int)) -> Set<(int, int)> {
    Set::new(|at: (int, int)| 0 <= at.0 < size.0 && 0 <= at.1 < size.1)
}

/// `image::RgbImage::new`: an image of the given width and height whose
/// pixels are all zero. It panics where three bytes per pixel are more than
/// a vector can hold, which `requires` leaves out.
#[verifier::external_body]
fn new_raster(width: u32, height: u32) -> (raster: Raster)
    requires
        3 * width * height <= isize::MAX,
    ensures
        raster_size(raster) == (width as int, height as int),
        raster_pixels(raster).dom() == coordinates(raster_size(raster)),
        forall|at: (int, int)|
            coordinates(raster_size(raster)).contains(at) ==> #[trigger] raster_pixels(raster)[at]
                == [0u8, 0u8, 0u8],
{
    Raster { image: image::RgbImage::new(width, height) }
}

/// `image::ImageBuffer::put_pixel`: the pixel at `(x, y)` becomes `color`
/// and nothing else changes. It panics outside the image, which `requires`
/// leaves out.
#[verifier::external_body]
fn put_pixel(raster: &mut Raster, x: u32, y: u32, color: [u8; 3])
    requires
        coordinates(raster_size(*old(raster))).contains((x as int, y as int)),
    ensures
        raster_size(*final(raster)) == raster_size(*old(raster)),
        raster_pixels(*final(raster)) == raster_pixels(*old(raster)).insert(
            (x as int, y as int),
            color,
        ),
{
    raster.image.put_pixel(x, y, image::Rgb(color));
}

/// `image::ImageBuffer::get_pixel`: the pixel at `(x, y)`. It panics outside
/// the image, which `requires` leaves out.
#[verifier::external_body]
fn get_pixel(raster: &Raster, x: u32, y: u32) -> (color: [u8; 3])
    requires
        coordinates(raster_size(*raster)).contains((x as int, y as int)),
    ensures
        color == raster_pixels(*raster)[(x as int, y as int)],
{
    raster.image.get_pixel(x, y).0
}

/// `image::ImageBuffer::dimensions`: the width and the height.
#[verifier::external_body]
fn dimensions(raster: &Raster) -> (size: (u32, u32))
    ensures
        raster_size(*raster) == (size.0 as int, size.1 as int),
{
    raster.image.dimensions()
}

impl Raster {
    /// The pixel at column `x` and row `y`, or `None` outside the raster.
    pub fn pixel(&self, x: u32, y: u32) -> (color: Option<[u8; 3]>)
        ensures
            color is Some <==> coordinates(raster_size(*self)).contains((x as int, y as int)),
            color matches Some(rgb) ==> rgb == raster_pixels(*self)[(x as int, y as int)],
    {
        let (width, height) = dimensions(self);
        if x < width && y < height {
            Some(get_pixel(self, x, y))
        } else {
            None
        }
    }
}

/// The value moved into the range from `min` to `max`.
pub open spec fn clamped(value: u64, min: u64, max: u64) -> u64 {
    if value < min {
        min
    } else if value > max {
        max
    } else {
        value
    }
}

/// `num::clamp`: `min` for an input below it, `max` for one above it, and
/// otherwise the input. In debug builds it panics where `min` is above
/// `max`, which `requires` leaves out.
#[verifier::external_body]
fn clamp(value: u64, min: u64, max: u64) -> (within: u64)
    requires
        min <= max,
    ensures
        within == clamped(value, min, max),
{
    num::clamp(value, min, max)
}

/// Whether `color` is the colour of a cell that holds `value`.
///
/// A cell without an estimate has the background colour, whatever the range
/// and the palette. In a range of one value every estimate has the colour of
/// the first stop. In any other range the colour is the one that `blend` gave
/// for the estimate, moved into the range, and the two ends of the range.
pub open spec fn is_shade<F: Fn(u64, u64, u64) -> [u8; 3]>(
    color: [u8; 3],
    value: Option<u64>,
    range: ColorRange,
    first_stop: [u8; 3],
    blend: &F,
) -> bool {
    match value {
        None => color == background(),
        Some(estimate) => if range.min == range.max {
            color == first_stop
        } else {
            blend.ensures((clamped(estimate, range.min, range.max), range.min, range.max), color)
        },
    }
}

/// Whether `blend` can be called on every estimate of a range with two
/// distinct ends.
pub open spec fn blends_range<F: Fn(u64, u64, u64) -> [u8; 3]>(
    blend: &F,
    range: ColorRange,
) -> bool {
    forall|estimate: u64|
        range.min <= estimate <= range.max && range.min < range.max ==> blend.requires(
            (estimate, range.min, range.max),
        )
}

/// The colour of a cell that holds `value`, on the scale that `range` and
/// the stops of a palette give.
pub fn color_of<F: Fn(u64, u64, u64) -> [u8; 3]>(
    value: Option<u64>,
    range: &ColorRange,
    stops: &Vec<[u8; 3]>,
    blend: &F,
) -> (color: [u8; 3])
    requires
        value is Some ==> range.well_formed() && stops.len() >= 1 && blends_range(blend, *range),
    ensures
        is_shade(color, value, *range, stops[0], blend),
        value is None ==> color == background(),
        value is Some && range.min == range.max ==> color == stops[0],
{
    match value {
        None => {
            let color = [0, 0, 0];
            assert(color =~= background());
            color
        },
        Some(estimate) => {
            if range.min == range.max {
                stops[0]
            } else {
                blend(clamp(estimate, range.min, range.max), range.min, range.max)
            }
        },
    }
}

/// The raster of a grid: one pixel per cell, the cell `(x, y)` at column
/// `x` and row `y`, coloured on the scale that reaches from the grid's
/// smallest estimate to its estimate at `rank` in ascending order.
pub fn create_image<F: Fn(u64, u64, u64) -> [u8; 3]>(
    palette: PresetPalette,
    data: SampleResult,
    rank: usize,
    blend: &F,
) -> (image: Raster)
    requires
        data.well_formed(),
        3 * data.x_res * data.y_res <= isize::MAX,
        blends_range(blend, range_of(diverged_values(data@), rank as int)),
    ensures
        raster_size(image) == (data.x_res as int, data.y_res as int),
        raster_pixels(image).dom() == coordinates(raster_size(image)),
        forall|x: int, y: int|
            0 <= x < data.x_res && 0 <= y < data.y_res ==> is_shade(
                #[trigger] raster_pixels(image)[(x, y)],
                data@[x][y],
                range_of(diverged_values(data@), rank as int),
                preset_stops(palette)[0],
                blend,
            ),
{
    let range = build_range(&data, rank);
    let stops = get_palette(&palette);
    let mut image = new_raster(data.x_res, data.y_res);
    let mut x: u32 = 0;
    while x < data.x_res
        invariant
            x <= data.x_res,
            data.well_formed(),
            range == range_of(diverged_values(data@), rank as int),
            range.well_formed(),
            blends_range(blend, range),
            stops.len() >= 1,
            stops[0] == preset_stops(palette)[0],
            raster_size(image) == (data.x_res as int, data.y_res as int),
            raster_pixels(image).dom() == coordinates(raster_size(image)),
            forall|i: int, j: int|
                0 <= i < x && 0 <= j < data.y_res ==> is_shade(
                    #[trigger] raster_pixels(image)[(i, j)],
                    data@[i][j],
                    range,
                    preset_stops(palette)[0],
                    blend,
                ),
        decreases data.x_res - x,
    {
        let mut y: u32 = 0;
        while y < data.y_res
            invariant
                x < data.x_res,
                y <= data.y_res,
                data.well_formed(),
                range == range_of(diverged_values(data@), rank as int),
                range.well_formed(),
                blends_range(blend, range),
                stops.len() >= 1,
                stops[0] == preset_stops(palette)[0],
                raster_size(image) == (data.x_res as int, data.y_res as int),
                raster_pixels(image).dom() == coordinates(raster_size(image)),
                forall|i: int, j: int|
                    (0 <= i < x && 0 <= j < data.y_res) || (i == x && 0 <= j < y) ==> is_shade(
                        #[trigger] raster_pixels(image)[(i, j)],
                        data@[i][j],
                        range,
                        preset_stops(palette)[0],
                        blend,
                    ),
            decreases data.y_res - y,
        {
            assert(data@[x as int] == data.grid[x as int]@);
            let color = color_of(data.grid[x as usize][y as usize], &range, &stops, blend);
            put_pixel(&mut image, x, y, color);
            y += 1;
        }
        x += 1;
    }
    image
}

} // verus!
