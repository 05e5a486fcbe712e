//! The pixel buffer that a frame is rendered into.
//!
//! The buffer itself is an RGBA image of the `image` crate. What that crate
//! does is taken on trust, as the items marked `external_body` state it; the
//! [`Canvas`] around it, and everything that draws on a canvas, is verified
//! against those statements.

use crate::error::ConfigurationError;
use vstd::prelude::*;

verus! {

/// One pixel: red, green, blue and alpha samples.
#[derive(Clone, Copy, Debug, PartialEq, Eq, Structural)]
pub struct Pixel {
    pub red: u8,
    pub green: u8,
    pub blue: u8,
    pub alpha: u8,
}

impl Pixel {
    /// The pixel whose four samples are zero.
    pub open spec fn blank() -> Pixel {
        Pixel { red: 0, green: 0, blue: 0, alpha: 0 }
    }
}

/// An `image::RgbaImage`, which is an `image::ImageBuffer` of 8-bit RGBA
/// pixels over a `Vec<u8>`. Nothing of its inside is known to the verifier.
#[verifier::external_body]
pub struct Raster {
    inner: image::RgbaImage,
}

/// The pixels of the image, each under its coordinates `(x, y)`. The
/// coordinates that the map has are those within the image's bounds.
pub uninterp spec fn raster_pixels(raster: Raster) -> Map<(int, int), Pixel>;

/// `ImageBuffer::new`: an image of the given width and height with every
/// sample zero. The call panics where the number of samples overflows or the
/// buffer is too large to allocate, which the precondition rules out.
#[verifier::external_body]
fn raster_new(width: u32, height: u32) -> (raster: Raster)
    requires
        4 * width * height <= isize::MAX,
    ensures
        forall|x: int, y: int|
            raster_pixels(raster).dom().contains((x, y)) <==> (0 <= x < width && 0 <= y
                < height),
        forall|x: int, y: int|
            0 <= x < width && 0 <= y < height ==> #[trigger] raster_pixels(raster)[(x, y)]
                == Pixel::blank(),
{
    Raster { inner: image::RgbaImage::new(width, height) }
}

/// `ImageBuffer::put_pixel`: replaces the pixel at `(x, y)` and leaves every
/// other pixel and the bounds as they were. The call panics out of bounds
/// and nowhere else; the precondition rules that out, so it always returns.
#[verifier::external_body]
fn raster_put(raster: &mut Raster, x: u32, y: u32, pixel: Pixel)
    requires
        raster_pixels(*old(raster)).dom().contains((x as int, y as int)),
    ensures
        raster_pixels(*final(raster)) == raster_pixels(*old(raster)).insert(
            (x as int, y as int),
            pixel,
        ),
    no_unwind
{
    raster.inner.put_pixel(x, y, image::Rgba([pixel.red, pixel.green, pixel.blue, pixel.alpha]));
}

/// `ImageBuffer::get_pixel`: the pixel at `(x, y)`. The call panics out of
/// bounds, which the precondition rules out.
#[verifier::external_body]
fn raster_get(raster: &Raster, x: u32, y: u32) -> (pixel: Pixel)
    requires
        raster_pixels(*raster).dom().contains((x as int, y as int)),
    ensures
        pixel == raster_pixels(*raster)[(x as int, y as int)],
{
    let p = raster.inner.get_pixel(x, y);
    Pixel { red: p.0[0], green: p.0[1], blue: p.0[2], alpha: p.0[3] }
}

/// A pixel buffer of known width and height.
pub struct Canvas {
    width: u32,
    height: u32,
    raster: Raster,
}

impl Canvas {
    #[verifier::type_invariant]
    spec fn well_formed(self) -> bool {
        &&& Canvas::fits(self.width, self.height)
        &&& forall|x: int, y: int|
            raster_pixels(self.raster).dom().contains((x, y)) <==> (0 <= x < self.width && 0
                <= y < self.height)
    }

    /// The width in pixels.
    pub closed spec fn spec_width(&self) -> u32 {
        self.width
    }

    /// The height in pixels.
    pub closed spec fn spec_height(&self) -> u32 {
        self.height
    }

    /// The pixel at `(x, y)`, for coordinates within the canvas.
    pub closed spec fn pixel_at(&self, x: int, y: int) -> Pixel {
        raster_pixels(self.raster)[(x, y)]
    }

    /// Whether a canvas of this size can be held in memory: its four samples
    /// per pixel must not number more than `isize::MAX`.
    pub open spec fn fits(width: u32, height: u32) -> bool {
        4 * width * height <= isize::MAX
    }

    /// A canvas of the given size with every pixel blank, or
    /// `ImageTooLarge` where no such canvas fits in memory.
    pub fn new(width: u32, height: u32) -> (canvas: Result<Canvas, ConfigurationError>)
        ensures
            canvas is Ok <==> Canvas::fits(width, height),
            canvas matches Err(e) ==> e == ConfigurationError::ImageTooLarge,
            canvas matches Ok(c) ==> {
                &&& c.spec_width() == width
                &&& c.spec_height() == height
                &&& forall|x: int, y: int|
                    0 <= x < width && 0 <= y < height ==> #[trigger] c.pixel_at(x, y)
                        == Pixel::blank()
            },
    {
        assert(4 * width * height <= 4 * u32::MAX * u32::MAX) by (nonlinear_arith)
            requires
                0 <= width <= u32::MAX,
                0 <= height <= u32::MAX,
        ;
        let samples: u128 = 4 * (width as u128) * (height as u128);
        if samples > isize::MAX as u128 {
            return Err(ConfigurationError::ImageTooLarge);
        }
        Ok(Canvas { width, height, raster: raster_new(width, height) })
    }

    /// The width in pixels.
    #[verifier::when_used_as_spec(spec_width)]
    pub fn width(&self) -> (width: u32)
        ensures
            width == self.spec_width(),
    {
        self.width
    }

    /// The height in pixels.
    #[verifier::when_used_as_spec(spec_height)]
    pub fn height(&self) -> (height: u32)
        ensures
            height == self.spec_height(),
    {
        self.height
    }

    /// Replaces the pixel at `(x, y)`.
    pub fn put_pixel(&mut self, x: u32, y: u32, pixel: Pixel)
        requires
            x < old(self).spec_width(),
            y < old(self).spec_height(),
        ensures
            final(self).spec_width() == old(self).spec_width(),
            final(self).spec_height() == old(self).spec_height(),
            final(self).pixel_at(x as int, y as int) == pixel,
            forall|i: int, j: int|
                (i, j) != (x as int, y as int) ==> #[trigger] final(self).pixel_at(i, j) == old(
                    self,
                ).pixel_at(i, j),
    {
        proof {
            use_type_invariant(&*self);
        }
        raster_put(&mut self.raster, x, y, pixel);
    }

    /// The pixel at `(x, y)`.
    pub fn get_pixel(&self, x: u32, y: u32) -> (pixel: Pixel)
        requires
            x < self.spec_width(),
            y < self.spec_height(),
        ensures
            pixel == self.pixel_at(x as int, y as int),
    {
        proof {
            use_type_invariant(self);
        }
        raster_get(&self.raster, x, y)
    }
}

/// The sample of a pixel in channel `k`: red, green, blue and alpha are
/// channels 0 to 3.
pub open spec fn sample(pixel: Pixel, k: int) -> u8 {
    if k == 0 {
        pixel.red
    } else if k == 1 {
        pixel.green
    } else if k == 2 {
        pixel.blue
    } else {
        pixel.alpha
    }
}

impl Canvas {
    /// The samples of the canvas as one run of bytes: row after row from the
    /// top, within a row pixel after pixel from the left, and for each pixel
    /// its red, green, blue and alpha.
    pub fn to_bytes(&self) -> (bytes: Vec<u8>)
        ensures
            bytes.len() == 4 * self.spec_width() * self.spec_height(),
            forall|x: int, y: int, k: int|
                0 <= x < self.spec_width() && 0 <= y < self.spec_height() && 0 <= k < 4
                    ==> #[trigger] bytes[4 * (y * self.spec_width() + x) + k] == sample(
                    self.pixel_at(x, y),
                    k,
                ),
    {
        let width = self.width;
        let height = self.height;
        let ghost w = width as int;
        let mut bytes: Vec<u8> = Vec::new();
        let mut y: u32 = 0;
        proof {
            assert(0 * w + 0 == 0);
        }
        while y < height
            invariant
                y <= height,
                w == width,
                width == self.spec_width(),
                height == self.spec_height(),
                bytes.len() == 4 * (y * w),
                forall|i: int, j: int, k: int|
                    0 <= i < w && 0 <= j < y && 0 <= k < 4 ==> #[trigger] bytes[4 * (j * w + i)
                        + k] == sample(self.pixel_at(i, j), k),
            decreases height - y,
        {
            let mut x: u32 = 0;
            while x < width
                invariant
                    y < height,
                    x <= width,
                    w == width,
                    width == self.spec_width(),
                    height == self.spec_height(),
                    bytes.len() == 4 * (y * w + x),
                    forall|i: int, j: int, k: int|
                        0 <= i < w && 0 <= k < 4 && (0 <= j < y || (j == y && i < x))
                            ==> #[trigger] bytes[4 * (j * w + i) + k] == sample(
                            self.pixel_at(i, j),
                            k,
                        ),
                decreases width - x,
            {
                let pixel = self.get_pixel(x, y);
                let ghost before = bytes@;
                bytes.push(pixel.red);
                bytes.push(pixel.green);
                bytes.push(pixel.blue);
                bytes.push(pixel.alpha);
                proof {
                    assert forall|i: int, j: int, k: int|
                        0 <= i < w && 0 <= k < 4 && (0 <= j < y || (j == y && i < x + 1))
                        implies #[trigger] bytes[4 * (j * w + i) + k] == sample(
                        self.pixel_at(i, j),
                        k,
                    ) by {
                        if j == y && i == x {
                        } else {
                            assert(j * w + i < y * w + x) by (nonlinear_arith)
                                requires
                                    0 <= i < w,
                                    0 <= j,
                                    0 <= x < w,
                                    j < y || (j == y && i < x),
                            ;
                            assert(bytes[4 * (j * w + i) + k] == before[4 * (j * w + i) + k]);
                        }
                    }
                }
                x = x + 1;
            }
            proof {
                assert(y * w + w == (y + 1) * w) by (nonlinear_arith);
            }
            y = y + 1;
        }
        proof {
            assert(4 * (height * w) == 4 * width * height) by (nonlinear_arith)
                requires
                    w == width,
            ;
        }
        bytes
    }
}

} // verus!
