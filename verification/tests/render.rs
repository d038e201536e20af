use mandelbrot::fixed::{Fixed, ONE_RAW};
use mandelbrot::image::{color_for, pixel_to_complex, render, Color};
use mandelbrot::mandelbrot::mandelbrot_iter;
use mandelbrot::scalar::Scalar;

fn whole(n: i64) -> Fixed {
    Fixed::from_raw(n * ONE_RAW)
}

fn gray(level: u8) -> Color {
    Color { r: level, g: level, b: level }
}

#[test]
fn first_pixel_is_the_lower_corner() {
    for (w, h) in [(1u32, 1u32), (2, 2), (800, 600), (3, 7), (u32::MAX, u32::MAX)] {
        let c = pixel_to_complex(0, 0, w, h, whole(-2), whole(-1), whole(1), whole(1));
        assert_eq!(c.re, whole(-2));
        assert_eq!(c.im, whole(-1));
    }
    let c = pixel_to_complex(
        0,
        0,
        800,
        600,
        Fixed::from_raw(-12345678901),
        Fixed::from_raw(17),
        Fixed::from_raw(98765432101),
        Fixed::from_raw(19),
    );
    assert_eq!(c.re, Fixed::from_raw(-12345678901));
    assert_eq!(c.im, Fixed::from_raw(17));
}

#[test]
fn pixel_past_the_last_is_the_upper_corner() {
    for (w, h) in [(1u32, 1u32), (2, 2), (800, 600), (3, 7), (u32::MAX, u32::MAX)] {
        let c = pixel_to_complex(w, h, w, h, whole(-2), whole(-1), whole(1), whole(1));
        assert_eq!(c.re, whole(1));
        assert_eq!(c.im, whole(1));
    }
    let c = pixel_to_complex(
        800,
        600,
        800,
        600,
        Fixed::from_raw(-12345678901),
        Fixed::from_raw(17),
        Fixed::from_raw(98765432101),
        Fixed::from_raw(19),
    );
    assert_eq!(c.re, Fixed::from_raw(98765432101));
    assert_eq!(c.im, Fixed::from_raw(19));
}

#[test]
fn pixels_divide_the_rectangle_evenly() {
    let c = pixel_to_complex(1, 1, 2, 2, whole(-1), whole(-1), whole(1), whole(1));
    assert_eq!(c.re, whole(0));
    assert_eq!(c.im, whole(0));
    let c = pixel_to_complex(200, 450, 800, 600, whole(-2), whole(-1), whole(2), whole(3));
    assert_eq!(c.re, whole(-1));
    assert_eq!(c.im, whole(2));
    let c = pixel_to_complex(1, 3, 4, 4, whole(0), whole(0), whole(1), whole(1));
    assert_eq!(c.re, Fixed::from_raw(ONE_RAW / 4));
    assert_eq!(c.im, Fixed::from_raw(3 * ONE_RAW / 4));
}

#[test]
fn pixel_fraction_is_not_an_integer_quotient() {
    // One third of the way across, rounded toward zero at each step.
    let c = pixel_to_complex(1, 0, 3, 1, whole(0), whole(0), whole(3), whole(0));
    assert_eq!(c.re, Fixed::from_raw(715827882 * 3));
    assert_eq!(c.im, whole(0));
}

#[test]
fn pixel_mapping_is_linear_on_the_widest_grid() {
    let c = pixel_to_complex(1 << 31, 0, u32::MAX, 1, whole(0), whole(0), whole(1), whole(0));
    assert_eq!(c.re, Fixed::from_raw(ONE_RAW / 2));
    let c = pixel_to_complex(1 << 29, 0, 1 << 31, 1, whole(-1), whole(0), whole(1), whole(0));
    assert_eq!(c.re, Fixed::from_raw(-ONE_RAW / 2));
}

#[test]
fn two_by_two_grid_over_the_unit_square() {
    let out = render(2, 2, whole(-1), whole(-1), whole(1), whole(1), 10);
    assert_eq!(out.width(), 2);
    assert_eq!(out.height(), 2);
    assert_eq!(out.pixel(0, 0), gray(126));
    assert_eq!(out.pixel(1, 0), gray(0));
    assert_eq!(out.pixel(0, 1), gray(0));
    assert_eq!(out.pixel(1, 1), gray(0));
}

#[test]
fn rendering_is_reproducible() {
    let first = render(2, 2, whole(-1), whole(-1), whole(1), whole(1), 10);
    let second = render(2, 2, whole(-1), whole(-1), whole(1), whole(1), 10);
    for y in 0..2 {
        for x in 0..2 {
            assert_eq!(first.pixel(x, y), second.pixel(x, y));
        }
    }
}

#[test]
fn raster_is_stored_row_by_row() {
    let out = render(4, 2, whole(-3), whole(0), whole(1), whole(2), 10);
    assert_eq!(out.width(), 4);
    assert_eq!(out.height(), 2);
    let expected = [[75u8, 0, 0, 0], [75, 75, 126, 0]];
    for y in 0..2u32 {
        for x in 0..4u32 {
            assert_eq!(out.pixel(x, y), gray(expected[y as usize][x as usize]));
        }
    }
}

#[test]
fn empty_grids_render_to_empty_rasters() {
    let out = render(0, 5, whole(-1), whole(-1), whole(1), whole(1), 10);
    assert_eq!(out.width(), 0);
    assert_eq!(out.height(), 5);
    let out = render(5, 0, whole(-1), whole(-1), whole(1), whole(1), 10);
    assert_eq!(out.width(), 5);
    assert_eq!(out.height(), 0);
}

#[test]
fn zero_cap_renders_black() {
    let out = render(3, 2, whole(-2), whole(-2), whole(2), whole(2), 0);
    for y in 0..2 {
        for x in 0..3 {
            assert_eq!(out.pixel(x, y), gray(0));
        }
    }
}

#[test]
fn every_pixel_is_the_color_of_its_escape_count() {
    let (w, h) = (7u32, 5u32);
    let out = render(w, h, whole(-2), whole(-1), whole(1), whole(1), 30);
    for y in 0..h {
        for x in 0..w {
            let c = pixel_to_complex(x, y, w, h, whole(-2), whole(-1), whole(1), whole(1));
            assert_eq!(out.pixel(x, y), color_for(mandelbrot_iter(&c, 30), 30));
        }
    }
}
