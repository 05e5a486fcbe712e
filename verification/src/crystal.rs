//! Rasterising a frame: every pixel of the canvas gets the colour that the
//! pattern has at its place.
//!
//! The colour at a place is worked out by the caller's function; this
//! module decides which places are asked for and where the answers go.

use crate::error::ConfigurationError;
use crate::output::Image;
use crate::raster::{Canvas, Pixel};
use vstd::prelude::*;

verus! {

/// The canvas holds frame `f` as `shade` gives it: it has the frame's size,
/// and each of its pixels is an answer of `shade` for the pixel's viewport
/// point.
pub open spec fn renders<F: Fn(u64, u64) -> Pixel>(canvas: &Canvas, shade: &F, f: &Image) -> bool {
    &&& canvas.spec_width() == f.width
    &&& canvas.spec_height() == f.height
    &&& forall|x: int, y: int|
        0 <= x < f.width && 0 <= y < f.height ==> call_ensures(
            shade,
            ((x + f.x_offset) as u64, (y + f.y_offset) as u64),
            #[trigger] canvas.pixel_at(x, y),
        )
}

/// Rendering has no hidden state: where `shade` has one answer for each
/// point, two canvases that hold the same frame agree in every pixel.
pub proof fn lemma_rendering_is_repeatable<F: Fn(u64, u64) -> Pixel>(
    first: &Canvas,
    second: &Canvas,
    shade: &F,
    f: &Image,
)
    requires
        renders(first, shade, f),
        renders(second, shade, f),
        forall|x: u64, y: u64, p: Pixel, q: Pixel|
            call_ensures(shade, (x, y), p) && call_ensures(shade, (x, y), q) ==> p == q,
    ensures
        first.spec_width() == second.spec_width(),
        first.spec_height() == second.spec_height(),
        forall|x: int, y: int|
            0 <= x < f.width && 0 <= y < f.height ==> first.pixel_at(x, y) == second.pixel_at(
                x,
                y,
            ),
{
}

/// Renders one frame. The pixel at `(x, y)` of the canvas is what `shade`
/// gives for the viewport point `(x + x_offset, y + y_offset)`.
///
/// An image without pixels is refused with `EmptyImage`, and one that does
/// not fit in memory with `ImageTooLarge`.
pub fn gen<F: Fn(u64, u64) -> Pixel>(shade: &F, f: &Image) -> (canvas: Result<
    Canvas,
    ConfigurationError,
>)
    requires
        forall|x: u64, y: u64|
            f.x_offset <= x < f.x_offset + f.width && f.y_offset <= y < f.y_offset + f.height
                ==> call_requires(shade, (x, y)),
    ensures
        canvas is Ok <==> f.width > 0 && f.height > 0 && Canvas::fits(f.width, f.height),
        canvas matches Err(e) ==> e == if f.width == 0 || f.height == 0 {
            ConfigurationError::EmptyImage
        } else {
            ConfigurationError::ImageTooLarge
        },
        canvas matches Ok(c) ==> renders(&c, shade, f),
{
    if f.width == 0 || f.height == 0 {
        return Err(ConfigurationError::EmptyImage);
    }
    let mut canvas = match Canvas::new(f.width, f.height) {
        Ok(canvas) => canvas,
        Err(e) => {
            return Err(e);
        },
    };
    let mut y: u32 = 0;
    while y < f.height
        invariant
            y <= f.height,
            canvas.spec_width() == f.width,
            canvas.spec_height() == f.height,
            forall|x: u64, y: u64|
                f.x_offset <= x < f.x_offset + f.width && f.y_offset <= y < f.y_offset + f.height
                    ==> call_requires(shade, (x, y)),
            forall|i: int, j: int|
                0 <= i < f.width && 0 <= j < y ==> call_ensures(
                    shade,
                    ((i + f.x_offset) as u64, (j + f.y_offset) as u64),
                    #[trigger] canvas.pixel_at(i, j),
                ),
        decreases f.height - y,
    {
        let mut x: u32 = 0;
        while x < f.width
            invariant
                y < f.height,
                x <= f.width,
                canvas.spec_width() == f.width,
                canvas.spec_height() == f.height,
                forall|x: u64, y: u64|
                    f.x_offset <= x < f.x_offset + f.width && f.y_offset <= y < f.y_offset
                        + f.height ==> call_requires(shade, (x, y)),
                forall|i: int, j: int|
                    0 <= i < f.width && 0 <= j < y ==> call_ensures(
                        shade,
                        ((i + f.x_offset) as u64, (j + f.y_offset) as u64),
                        #[trigger] canvas.pixel_at(i, j),
                    ),
                forall|i: int|
                    0 <= i < x ==> call_ensures(
                        shade,
                        ((i + f.x_offset) as u64, (y + f.y_offset) as u64),
                        #[trigger] canvas.pixel_at(i, y as int),
                    ),
            decreases f.width - x,
        {
            let pixel = shade(x as u64 + f.x_offset as u64, y as u64 + f.y_offset as u64);
            canvas.put_pixel(x, y, pixel);
            x = x + 1;
        }
        y = y + 1;
    }
    Ok(canvas)
}

/// Fills the square of side `scale` whose top left corner is `(x, y)` with
/// `pixel`.
pub fn place_pixels(img: &mut Canvas, pixel: Pixel, scale: u32, x: u32, y: u32)
    requires
        x + scale <= old(img).spec_width(),
        y + scale <= old(img).spec_height(),
    ensures
        final(img).spec_width() == old(img).spec_width(),
        final(img).spec_height() == old(img).spec_height(),
        forall|i: int, j: int|
            x <= i < x + scale && y <= j < y + scale ==> #[trigger] final(img).pixel_at(i, j)
                == pixel,
        forall|i: int, j: int|
            !(x <= i < x + scale && y <= j < y + scale) ==> #[trigger] final(img).pixel_at(i, j)
                == old(img).pixel_at(i, j),
{
    let mut x_offset: u32 = 0;
    while x_offset < scale
        invariant
            x_offset <= scale,
            x + scale <= img.spec_width(),
            y + scale <= img.spec_height(),
            img.spec_width() == old(img).spec_width(),
            img.spec_height() == old(img).spec_height(),
            forall|i: int, j: int|
                x <= i < x + x_offset && y <= j < y + scale ==> #[trigger] img.pixel_at(i, j)
                    == pixel,
            forall|i: int, j: int|
                !(x <= i < x + x_offset && y <= j < y + scale) ==> #[trigger] img.pixel_at(i, j)
                    == old(img).pixel_at(i, j),
        decreases scale - x_offset,
    {
        let mut y_offset: u32 = 0;
        while y_offset < scale
            invariant
                x_offset < scale,
                y_offset <= scale,
                x + scale <= img.spec_width(),
                y + scale <= img.spec_height(),
                img.spec_width() == old(img).spec_width(),
                img.spec_height() == old(img).spec_height(),
                forall|i: int, j: int|
                    (x <= i < x + x_offset && y <= j < y + scale) || (i == x + x_offset && y <= j
                        < y + y_offset) ==> #[trigger] img.pixel_at(i, j) == pixel,
                forall|i: int, j: int|
                    !((x <= i < x + x_offset && y <= j < y + scale) || (i == x + x_offset && y
                        <= j < y + y_offset)) ==> #[trigger] img.pixel_at(i, j) == old(
                        img,
                    ).pixel_at(i, j),
            decreases scale - y_offset,
        {
            img.put_pixel(x + x_offset, y + y_offset, pixel);
            y_offset = y_offset + 1;
        }
        x_offset = x_offset + 1;
    }
}

/// The coordinate `i` lies in cell `c` of a row of cells of side `scale`
/// exactly when `c` is `i / scale`.
proof fn lemma_cell(i: int, scale: int, c: int)
    requires
        scale > 0,
        0 <= i,
    ensures
        (c * scale <= i < c * scale + scale) <==> c == i / scale,
        0 <= i / scale <= i,
        (i / scale) * scale <= i,
{
    let q = i / scale;
    assert(i == scale * q + i % scale && 0 <= i % scale < scale) by (nonlinear_arith)
        requires
            scale > 0,
            q == i / scale,
    ;
    assert(q * scale == scale * q) by (nonlinear_arith);
    assert(0 <= q <= i) by (nonlinear_arith)
        requires
            i == scale * q + i % scale,
            0 <= i % scale < scale,
            scale > 0,
            0 <= i,
    ;
    if c * scale <= i < c * scale + scale {
        assert(c == q) by (nonlinear_arith)
            requires
                c * scale <= i < c * scale + scale,
                q * scale <= i < q * scale + scale,
                scale > 0,
        ;
    }
}

/// Whether cell `(cx, cy)` comes before cell `(x, y)` when the cells are
/// gone through column by column.
spec fn cell_before(cx: int, cy: int, x: int, y: int) -> bool {
    cx < x || (cx == x && cy < y)
}

/// Renders a frame in square cells of side `scale`. The canvas is `x_max`
/// wide and `y_max` high and holds as many whole cells as fit in it. Each
/// cell is filled with what `colorize` gives, once, for the cell's column and
/// row; pixels to the right of and below the last whole cell stay blank.
///
/// A side of zero is refused with `ZeroScale`, and a canvas that does not
/// fit in memory with `ImageTooLarge`.
pub fn crystal<F: Fn(u32, u32) -> Pixel>(colorize: &F, scale: u32, x_max: u32, y_max: u32) -> (canvas:
    Result<Canvas, ConfigurationError>)
    requires
        scale > 0 ==> forall|cx: u32, cy: u32|
            cx < x_max / scale && cy < y_max / scale ==> call_requires(colorize, (cx, cy)),
    ensures
        canvas is Ok <==> scale > 0 && Canvas::fits(x_max, y_max),
        canvas matches Err(e) ==> e == if scale == 0 {
            ConfigurationError::ZeroScale
        } else {
            ConfigurationError::ImageTooLarge
        },
        canvas matches Ok(c) ==> {
            &&& c.spec_width() == x_max
            &&& c.spec_height() == y_max
            &&& forall|i: int, j: int|
                0 <= i < x_max && 0 <= j < y_max ==> #[trigger] c.pixel_at(i, j) == if i / (
                scale as int) < x_max / scale && j / (scale as int) < y_max / scale {
                    c.pixel_at(i / (scale as int) * scale, j / (scale as int) * scale)
                } else {
                    Pixel::blank()
                }
            &&& forall|cx: int, cy: int|
                0 <= cx < x_max / scale && 0 <= cy < y_max / scale ==> call_ensures(
                    colorize,
                    (cx as u32, cy as u32),
                    #[trigger] c.pixel_at(cx * scale, cy * scale),
                )
        },
{
    if scale == 0 {
        return Err(ConfigurationError::ZeroScale);
    }
    let mut canvas = match Canvas::new(x_max, y_max) {
        Ok(canvas) => canvas,
        Err(e) => {
            return Err(e);
        },
    };
    let columns = x_max / scale;
    let rows = y_max / scale;
    let ghost s = scale as int;
    proof {
        assert(columns * s <= x_max && rows * s <= y_max) by (nonlinear_arith)
            requires
                s > 0,
                columns == x_max as int / s,
                rows == y_max as int / s,
        ;
    }
    let mut x: u32 = 0;
    while x < columns
        invariant
            s == scale,
            s > 0,
            x <= columns,
            columns == x_max / scale,
            rows == y_max / scale,
            columns * s <= x_max,
            rows * s <= y_max,
            canvas.spec_width() == x_max,
            canvas.spec_height() == y_max,
            forall|cx: u32, cy: u32|
                cx < x_max / scale && cy < y_max / scale ==> call_requires(colorize, (cx, cy)),
            forall|i: int, j: int|
                0 <= i < x_max && 0 <= j < y_max ==> #[trigger] canvas.pixel_at(i, j) == if i / s
                    < x && j / s < rows {
                    canvas.pixel_at(i / s * s, j / s * s)
                } else {
                    Pixel::blank()
                },
            forall|cx: int, cy: int|
                0 <= cx < x && 0 <= cy < rows ==> call_ensures(
                    colorize,
                    (cx as u32, cy as u32),
                    #[trigger] canvas.pixel_at(cx * s, cy * s),
                ),
        decreases columns - x,
    {
        let mut y: u32 = 0;
        while y < rows
            invariant
                s == scale,
                s > 0,
                x < columns,
                y <= rows,
                columns == x_max / scale,
                rows == y_max / scale,
                columns * s <= x_max,
                rows * s <= y_max,
                canvas.spec_width() == x_max,
                canvas.spec_height() == y_max,
                forall|cx: u32, cy: u32|
                    cx < x_max / scale && cy < y_max / scale ==> call_requires(
                        colorize,
                        (cx, cy),
                    ),
                forall|i: int, j: int|
                    0 <= i < x_max && 0 <= j < y_max ==> #[trigger] canvas.pixel_at(i, j) == if j
                        / s < rows && cell_before(i / s, j / s, x as int, y as int) {
                        canvas.pixel_at(i / s * s, j / s * s)
                    } else {
                        Pixel::blank()
                    },
                forall|cx: int, cy: int|
                    0 <= cx && 0 <= cy < rows && cell_before(cx, cy, x as int, y as int)
                        ==> call_ensures(
                        colorize,
                        (cx as u32, cy as u32),
                        #[trigger] canvas.pixel_at(cx * s, cy * s),
                    ),
            decreases rows - y,
        {
            let pixel = colorize(x, y);
            let ghost before = canvas;
            proof {
                assert(x * s + s <= columns * s && y * s + s <= rows * s) by (nonlinear_arith)
                    requires
                        x < columns,
                        y < rows,
                        s > 0,
                ;
            }
            place_pixels(&mut canvas, pixel, scale, x * scale, y * scale);
            proof {
                assert forall|i: int, j: int| 0 <= i < x_max && 0 <= j < y_max implies (
                #[trigger] canvas.pixel_at(i, j)) == if j / s < rows && cell_before(
                    i / s,
                    j / s,
                    x as int,
                    y as int + 1,
                ) {
                    canvas.pixel_at(i / s * s, j / s * s)
                } else {
                    Pixel::blank()
                } by {
                    lemma_cell(i, s, x as int);
                    lemma_cell(j, s, y as int);
                    lemma_cell(i / s * s, s, x as int);
                    lemma_cell(j / s * s, s, y as int);
                    lemma_cell(i / s * s, s, i / s);
                    lemma_cell(j / s * s, s, j / s);
                    assert(before.pixel_at(i, j) == if j / s < rows && cell_before(
                        i / s,
                        j / s,
                        x as int,
                        y as int,
                    ) {
                        before.pixel_at(i / s * s, j / s * s)
                    } else {
                        Pixel::blank()
                    });
                }
                assert forall|cx: int, cy: int|
                    0 <= cx && 0 <= cy < rows && cell_before(
                        cx,
                        cy,
                        x as int,
                        y as int + 1,
                    ) implies call_ensures(
                    colorize,
                    (cx as u32, cy as u32),
                    #[trigger] canvas.pixel_at(cx * s, cy * s),
                ) by {
                    assert(0 <= cx * s && 0 <= cy * s) by (nonlinear_arith)
                        requires
                            0 <= cx,
                            0 <= cy,
                            s > 0,
                    ;
                    lemma_cell(cx * s, s, cx);
                    lemma_cell(cy * s, s, cy);
                    lemma_cell(cx * s, s, x as int);
                    lemma_cell(cy * s, s, y as int);
                    if cx == x && cy == y {
                    } else {
                        assert(before.pixel_at(cx * s, cy * s) == canvas.pixel_at(cx * s, cy * s));
                    }
                }
            }
            y = y + 1;
        }
        x = x + 1;
    }
    Ok(canvas)
}

} // verus!
