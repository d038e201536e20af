//! The pixel grid: mapping pixels to points, points to colors, and the
//! traversal that fills a raster.

use vstd::prelude::*;
use crate::complex::Complex;
use crate::fixed::{lemma_raw_round_trip, of_raw, product_raw, quotient_raw, saturate, Fixed, ONE_RAW};
use crate::mandelbrot::{escape_count, mandelbrot_iter};
use crate::scalar::{keeps_under_zero, zero_absorbs, Scalar};

verus! {

/// The value that every channel of an escaping point starts from.
pub const BASE_LEVEL: u8 = 50;

/// A color of three 8-bit channels.
#[derive(Clone, Copy, Debug, PartialEq, Eq, Structural)]
pub struct Color {
    pub r: u8,
    pub g: u8,
    pub b: u8,
}

/// The point that the pixel in column `x` and row `y` of a grid of `width`
/// by `height` pixels stands for, in the rectangle from `(xmin, ymin)` to
/// `(xmax, ymax)`: `min + (pixel / size) * (max - min)` along each axis.
pub open spec fn pixel_point<T: Scalar>(
    x: u32,
    y: u32,
    width: u32,
    height: u32,
    xmin: T,
    ymin: T,
    xmax: T,
    ymax: T,
) -> Complex<T> {
    Complex {
        re: xmin.spec_plus(
            T::spec_from_count(x).spec_over(T::spec_from_count(width)).spec_times(
                xmax.spec_minus(xmin),
            ),
        ),
        im: ymin.spec_plus(
            T::spec_from_count(y).spec_over(T::spec_from_count(height)).spec_times(
                ymax.spec_minus(ymin),
            ),
        ),
    }
}

/// The brightness that an escape after `iterations` steps adds to the base
/// level under the cap `max_iters`: the integer part of
/// `iterations / max_iters * 255`, held at 255. Under a cap of zero it is
/// 255.
pub open spec fn intensity(iterations: u32, max_iters: u32) -> int {
    if max_iters == 0 || iterations * 255 / (max_iters as int) > 255 {
        255
    } else {
        iterations * 255 / (max_iters as int)
    }
}

/// The level of all three channels for a point that escaped: the base level
/// plus the intensity, held at 255.
pub open spec fn gray_level(iterations: u32, max_iters: u32) -> int {
    if BASE_LEVEL + intensity(iterations, max_iters) > 255 {
        255
    } else {
        BASE_LEVEL + intensity(iterations, max_iters)
    }
}

/// The color for an escape count: black for a point that never escaped,
/// else the gray of its level.
pub open spec fn color_of(iterations: u32, max_iters: u32) -> Color {
    if iterations == max_iters {
        Color { r: 0, g: 0, b: 0 }
    } else {
        Color {
            r: gray_level(iterations, max_iters) as u8,
            g: gray_level(iterations, max_iters) as u8,
            b: gray_level(iterations, max_iters) as u8,
        }
    }
}

/// The color of the pixel in column `x` and row `y`.
pub open spec fn pixel_color<T: Scalar>(
    x: u32,
    y: u32,
    width: u32,
    height: u32,
    xmin: T,
    ymin: T,
    xmax: T,
    ymax: T,
    max_iters: u32,
) -> Color {
    color_of(
        escape_count(pixel_point(x, y, width, height, xmin, ymin, xmax, ymax), max_iters as nat) as u32,
        max_iters,
    )
}

/// Maps the pixel in column `x` and row `y` of a grid of `width` by `height`
/// pixels to its point in the rectangle from `(xmin, ymin)` to
/// `(xmax, ymax)`. The map is linear along each axis; it neither clamps nor
/// rounds to the grid.
pub fn pixel_to_complex<T: Scalar>(
    x: u32,
    y: u32,
    width: u32,
    height: u32,
    xmin: T,
    ymin: T,
    xmax: T,
    ymax: T,
) -> (c: Complex<T>)
    ensures
        c == pixel_point(x, y, width, height, xmin, ymin, xmax, ymax),
{
    let cre = xmin.plus(T::from_count(x).over(T::from_count(width)).times(xmax.minus(xmin)));
    let cim = ymin.plus(T::from_count(y).over(T::from_count(height)).times(ymax.minus(ymin)));
    Complex::new(cre, cim)
}

/// Maps an escape count to its color: black at the cap, the base gray at
/// zero, and lighter grays in between.
pub fn color_for(iterations: u32, max_iters: u32) -> (c: Color)
    ensures
        c == color_of(iterations, max_iters),
        iterations == max_iters ==> c == (Color { r: 0, g: 0, b: 0 }),
        iterations == 0 && max_iters > 0 ==> c == (Color { r: 50, g: 50, b: 50 }),
{
    if iterations == max_iters {
        Color { r: 0, g: 0, b: 0 }
    } else {
        let intensity: u64 = if max_iters == 0 {
            255
        } else {
            let scaled: u64 = iterations as u64 * 255 / max_iters as u64;
            if scaled > 255 {
                255
            } else {
                scaled
            }
        };
        let sum: u64 = BASE_LEVEL as u64 + intensity;
        let level: u8 = if sum > 255 {
            255
        } else {
            sum as u8
        };
        Color { r: level, g: level, b: level }
    }
}

/// What a raster holds: the size of its grid and its colors row by row,
/// the color in column `x` and row `y` at `y * width + x`.
pub struct Grid {
    pub width: u32,
    pub height: u32,
    pub pixels: Seq<Color>,
}

impl Grid {
    /// The color in column `x` and row `y`.
    pub open spec fn pixel(self, x: u32, y: u32) -> Color {
        self.pixels[y * self.width + x]
    }
}

/// A grid of colors, stored row by row, with one color for every cell.
#[derive(Debug)]
pub struct Raster {
    width: u32,
    height: u32,
    pixels: Vec<Color>,
}

impl View for Raster {
    type V = Grid;

    closed spec fn view(&self) -> Grid {
        Grid { width: self.width, height: self.height, pixels: self.pixels@ }
    }
}

impl Raster {
    #[verifier::type_invariant]
    spec fn well_formed(self) -> bool {
        self.pixels@.len() == self.width * self.height
    }

    /// The number of columns.
    pub fn width(&self) -> (w: u32)
        ensures
            w == self@.width,
    {
        self.width
    }

    /// The number of rows.
    pub fn height(&self) -> (h: u32)
        ensures
            h == self@.height,
    {
        self.height
    }

    /// The color in column `x` and row `y`.
    pub fn pixel(&self, x: u32, y: u32) -> (c: Color)
        requires
            x < self@.width,
            y < self@.height,
        ensures
            c == self@.pixel(x, y),
            self@.pixels.len() == self@.width * self@.height,
    {
        proof {
            use_type_invariant(self);
            lemma_cell_in_grid(x, y, self.width, self.height);
            assert(y * self.width + x < self.pixels.len());
        }
        self.pixels[y as usize * self.width as usize + x as usize]
    }
}

/// The cell in column `x` and row `y` of a grid lies within the grid's
/// row-by-row sequence, at or after the start of row `y` and before the
/// start of the next.
pub proof fn lemma_cell_in_grid(x: u32, y: u32, width: u32, height: u32)
    requires
        x < width,
        y < height,
    ensures
        0 <= y * width <= y * width + x < (y + 1) * width <= height * width,
        height * width == width * height,
{
    assert(0 <= y * width && (y + 1) * width == y * width + width && (y + 1) * width <= height
        * width && height * width == width * height) by (nonlinear_arith)
        requires
            0 <= y < height,
            0 <= width,
    ;
}

/// Colors every pixel of a grid of `width` by `height` pixels laid over the
/// rectangle from `(xmin, ymin)` to `(xmax, ymax)`.
pub fn render<T: Scalar>(
    width: u32,
    height: u32,
    xmin: T,
    ymin: T,
    xmax: T,
    ymax: T,
    max_iters: u32,
) -> (out: Raster)
    ensures
        out@.width == width,
        out@.height == height,
        out@.pixels.len() == width * height,
        forall|x: u32, y: u32|
            x < width && y < height ==> out@.pixel(x, y) == #[trigger] pixel_color(
                x,
                y,
                width,
                height,
                xmin,
                ymin,
                xmax,
                ymax,
                max_iters,
            ),
{
    let mut pixels: Vec<Color> = Vec::new();
    let mut y: u32 = 0;
    while y < height
        invariant
            y <= height,
            pixels@.len() == y * width,
            forall|i: u32, j: u32|
                i < width && j < y ==> pixels@[j * width + i] == #[trigger] pixel_color(
                    i,
                    j,
                    width,
                    height,
                    xmin,
                    ymin,
                    xmax,
                    ymax,
                    max_iters,
                ),
        decreases height - y,
    {
        let mut x: u32 = 0;
        while x < width
            invariant
                y < height,
                x <= width,
                pixels@.len() == y * width + x,
                forall|i: u32, j: u32|
                    i < width && j < y ==> pixels@[j * width + i] == #[trigger] pixel_color(
                        i,
                        j,
                        width,
                        height,
                        xmin,
                        ymin,
                        xmax,
                        ymax,
                        max_iters,
                    ),
                forall|i: u32|
                    i < x ==> pixels@[y * width + i] == #[trigger] pixel_color(
                        i,
                        y,
                        width,
                        height,
                        xmin,
                        ymin,
                        xmax,
                        ymax,
                        max_iters,
                    ),
            decreases width - x,
        {
            let c = pixel_to_complex(x, y, width, height, xmin, ymin, xmax, ymax);
            let iters = mandelbrot_iter(&c, max_iters);
            let color = color_for(iters, max_iters);
            let ghost before = pixels@;
            pixels.push(color);
            proof {
                assert forall|i: u32, j: u32| i < width && j < y implies pixels@[j * width + i]
                    == #[trigger] pixel_color(
                    i,
                    j,
                    width,
                    height,
                    xmin,
                    ymin,
                    xmax,
                    ymax,
                    max_iters,
                ) by {
                    lemma_cell_in_grid(i, j, width, y);
                    assert(pixels@[j * width + i] == before[j * width + i]);
                }
                assert forall|i: u32| i < x + 1 implies pixels@[y * width + i]
                    == #[trigger] pixel_color(
                    i,
                    y,
                    width,
                    height,
                    xmin,
                    ymin,
                    xmax,
                    ymax,
                    max_iters,
                ) by {
                    if i < x {
                        assert(pixels@[y * width + i] == before[y * width + i]);
                    }
                }
            }
            x += 1;
        }
        proof {
            assert((y + 1) * width == y * width + width) by (nonlinear_arith);
        }
        y += 1;
    }
    proof {
        assert(height * width == width * height) by (nonlinear_arith);
    }
    Raster { width, height, pixels }
}

/// In every arithmetic in which zero absorbs, the first pixel of a grid
/// with at least one pixel stands for the rectangle's lower corner,
/// provided that adding zero to each part of that corner changes nothing.
pub proof fn first_pixel_is_lower_corner_where_zero_absorbs<T: Scalar>(
    width: u32,
    height: u32,
    xmin: T,
    ymin: T,
    xmax: T,
    ymax: T,
)
    requires
        width > 0,
        height > 0,
        zero_absorbs::<T>(),
        keeps_under_zero(xmin),
        keeps_under_zero(ymin),
    ensures
        pixel_point(0, 0, width, height, xmin, ymin, xmax, ymax) == (Complex { re: xmin, im: ymin }),
{
    let zero = T::spec_from_count(0);
    assert(zero.spec_over(T::spec_from_count(width)) == zero);
    assert(zero.spec_over(T::spec_from_count(height)) == zero);
    assert(zero.spec_times(xmax.spec_minus(xmin)) == zero);
    assert(zero.spec_times(ymax.spec_minus(ymin)) == zero);
}

/// In fixed-point arithmetic the first pixel of a grid stands for the
/// rectangle's lower corner, whatever the grid and the rectangle.
pub proof fn first_pixel_is_lower_corner(
    width: u32,
    height: u32,
    xmin: Fixed,
    ymin: Fixed,
    xmax: Fixed,
    ymax: Fixed,
)
    requires
        xmin.is_number(),
        ymin.is_number(),
    ensures
        pixel_point(0, 0, width, height, xmin, ymin, xmax, ymax) == (Complex { re: xmin, im: ymin }),
{
    lemma_raw_round_trip();
    lemma_zero_share(Fixed::spec_from_count(width), xmax.spec_minus(xmin));
    lemma_zero_share(Fixed::spec_from_count(height), ymax.spec_minus(ymin));
}

/// In fixed-point arithmetic the pixel just past the last one of a grid,
/// in column `width` and row `height`, stands for the rectangle's upper
/// corner, for every grid with at least one pixel and every rectangle whose
/// extents are themselves numbers.
pub proof fn past_last_pixel_is_upper_corner(
    width: u32,
    height: u32,
    xmin: Fixed,
    ymin: Fixed,
    xmax: Fixed,
    ymax: Fixed,
)
    requires
        width > 0,
        height > 0,
        xmax.is_number(),
        ymax.is_number(),
        -i64::MAX <= xmax@ - xmin@ <= i64::MAX,
        -i64::MAX <= ymax@ - ymin@ <= i64::MAX,
    ensures
        pixel_point(width, height, width, height, xmin, ymin, xmax, ymax) == (Complex {
            re: xmax,
            im: ymax,
        }),
{
    lemma_raw_round_trip();
    lemma_whole_share(width, xmax.spec_minus(xmin));
    lemma_whole_share(height, ymax.spec_minus(ymin));
}

/// None of an extent: zero over any size, times any extent, is zero.
proof fn lemma_zero_share(size: Fixed, extent: Fixed)
    ensures
        Fixed::spec_from_count(0).spec_over(size).spec_times(extent) == of_raw(0),
{
    lemma_raw_round_trip();
    assert(quotient_raw(0, size@ as int) == 0);
    assert(product_raw(0, extent@ as int) == 0);
}

/// All of an extent: a positive size over itself, times any extent that is
/// a number, is that extent.
proof fn lemma_whole_share(size: u32, extent: Fixed)
    requires
        size > 0,
        extent.is_number(),
    ensures
        Fixed::spec_from_count(size).spec_over(Fixed::spec_from_count(size)).spec_times(extent)
            == extent,
{
    lemma_raw_round_trip();
    let s = saturate(size * ONE_RAW);
    assert(s > 0);
    assert((s * ONE_RAW) / s == ONE_RAW) by (nonlinear_arith)
        requires
            s > 0,
    ;
    assert(quotient_raw(s, s) == ONE_RAW);
    let e = extent@ as int;
    assert((e * ONE_RAW) / (ONE_RAW as int) == e && ((-e) * ONE_RAW) / (ONE_RAW as int) == -e
        && ONE_RAW * e == e * ONE_RAW && -(e * ONE_RAW) == (-e) * ONE_RAW) by (nonlinear_arith)
        requires
            ONE_RAW > 0,
    ;
    assert(product_raw(ONE_RAW as int, e) == e);
}

} // verus!
