//! Renders barcodes as raster images.
//!
//! Every variant of [`Image`] can be built with a struct literal, or with a constructor when
//! the defaults suit:
//!
//! ```rust
//! use barcoders::generators::image::*;
//!
//! let png = Image::PNG {
//!     height: 80,
//!     xdim: 1,
//!     rotation: Rotation::Zero,
//!     foreground: Color::new([0, 0, 0, 255]),
//!     background: Color::new([255, 255, 255, 255]),
//! };
//!
//! let png = Image::png(100);
//! ```
//!
//! The pixels are placed by this library; the `image` crate rotates them and encodes them
//! as GIF, PNG or WEBP.

use crate::encoding::spec_validate_modules;
use crate::error::{Error, Result};
use crate::generators::{spec_validate_output_bytes, validate_barcode, validate_output_bytes};
use crate::sym::helpers::concat_n;
use ::image::{DynamicImage, ImageBuffer, ImageFormat, RgbaImage};
use std::io::Cursor;
use vstd::prelude::*;

verus! {

/// An RGBA colour for the foreground or the background of a barcode.
#[derive(Copy, Clone, Debug)]
pub struct Color {
    rgba: [u8; 4],
}

impl Color {
    /// A new colour.
    pub fn new(rgba: [u8; 4]) -> (color: Color)
        ensures
            color.rgba() == rgba@,
    {
        Color { rgba }
    }

    /// Black (`#000000`).
    pub fn black() -> (color: Color)
        ensures
            color.rgba() == seq![0u8, 0, 0, 255],
    {
        Color::new([0, 0, 0, 255])
    }

    /// White (`#FFFFFF`).
    pub fn white() -> (color: Color)
        ensures
            color.rgba() == seq![255u8, 255, 255, 255],
    {
        Color::new([255, 255, 255, 255])
    }

    /// The red, green, blue and alpha values of the colour.
    pub closed spec fn rgba(self) -> Seq<u8> {
        self.rgba@
    }

    /// A colour has four channels.
    pub proof fn lemma_rgba_len(self)
        ensures
            self.rgba().len() == 4,
    {
    }

    fn channels(self) -> (rgba: [u8; 4])
        ensures
            rgba@ == self.rgba(),
    {
        self.rgba
    }
}

/// The rotations that can be applied to an image.
#[derive(Copy, Clone, Debug, PartialEq, Eq, Structural)]
pub enum Rotation {
    /// No rotation; the default.
    Zero,
    /// 90 degrees clockwise.
    Ninety,
    /// 180 degrees.
    OneEighty,
    /// 270 degrees clockwise.
    TwoSeventy,
}

/// The image generator types.
#[derive(Copy, Clone, Debug)]
pub enum Image {
    /// The GIF image generator.
    GIF {
        /// The height of the barcode in pixels.
        height: u32,
        /// The X dimension: every module is `xdim` pixels wide.
        xdim: u32,
        /// The rotation applied to the barcode.
        rotation: Rotation,
        /// The RGBA colour of the foreground.
        foreground: Color,
        /// The RGBA colour of the background.
        background: Color,
    },
    /// The PNG image generator.
    PNG {
        /// The height of the barcode in pixels.
        height: u32,
        /// The X dimension: every module is `xdim` pixels wide.
        xdim: u32,
        /// The rotation applied to the barcode.
        rotation: Rotation,
        /// The RGBA colour of the foreground.
        foreground: Color,
        /// The RGBA colour of the background.
        background: Color,
    },
    /// The WEBP image generator.
    WEBP {
        /// The height of the barcode in pixels.
        height: u32,
        /// The X dimension: every module is `xdim` pixels wide.
        xdim: u32,
        /// The rotation applied to the barcode.
        rotation: Rotation,
        /// The RGBA colour of the foreground.
        foreground: Color,
        /// The RGBA colour of the background.
        background: Color,
    },
    /// The image buffer generator.
    ImageBuffer {
        /// The height of the barcode in pixels.
        height: u32,
        /// The X dimension: every module is `xdim` pixels wide.
        xdim: u32,
        /// The rotation applied to the barcode.
        rotation: Rotation,
        /// The RGBA colour of the foreground.
        foreground: Color,
        /// The RGBA colour of the background.
        background: Color,
    },
}

/// The file formats that an [`Image`] encodes to.
#[derive(Copy, Clone, Debug, PartialEq, Eq, Structural)]
pub enum Format {
    /// GIF.
    Gif,
    /// PNG.
    Png,
    /// WEBP.
    WebP,
}

/// The settings of an image generator: height, X dimension, rotation, foreground and
/// background.
pub open spec fn settings(image: Image) -> (u32, u32, Rotation, Color, Color) {
    match image {
        Image::GIF { height, xdim, rotation, foreground, background } => (
            height,
            xdim,
            rotation,
            foreground,
            background,
        ),
        Image::PNG { height, xdim, rotation, foreground, background } => (
            height,
            xdim,
            rotation,
            foreground,
            background,
        ),
        Image::WEBP { height, xdim, rotation, foreground, background } => (
            height,
            xdim,
            rotation,
            foreground,
            background,
        ),
        Image::ImageBuffer { height, xdim, rotation, foreground, background } => (
            height,
            xdim,
            rotation,
            foreground,
            background,
        ),
    }
}

/// The settings of a generator built by one of the constructors: the given height, X
/// dimension 1, no rotation, a black foreground and a white background.
pub open spec fn default_settings(image: Image, height: u32) -> bool {
    let (h, xdim, rotation, foreground, background) = settings(image);
    &&& h == height
    &&& xdim == 1
    &&& rotation == Rotation::Zero
    &&& foreground.rgba() == seq![0u8, 0, 0, 255]
    &&& background.rgba() == seq![255u8, 255, 255, 255]
}

/// The file format of an image generator; the image buffer generator has none.
pub open spec fn format_of(image: Image) -> Option<Format> {
    match image {
        Image::GIF { .. } => Some(Format::Gif),
        Image::PNG { .. } => Some(Format::Png),
        Image::WEBP { .. } => Some(Format::WebP),
        Image::ImageBuffer { .. } => None,
    }
}

/// The bytes of the `format` file of the `width` by `height` RGBA image `pixels`, or `None`
/// when the encoder refuses the image.
pub uninterp spec fn encoded_image(format: Format, width: u32, height: u32, pixels: Seq<u8>) -> Option<Seq<u8>>;

/// The pixel `p` (by its row-major position) of the `width` by `height` RGBA image
/// `pixels` rotated 90 degrees clockwise: the result is `height` wide and `width` high.
pub open spec fn rotated_90(width: int, height: int, pixels: Seq<u8>) -> Seq<u8> {
    Seq::new(
        (height * width * 4) as nat,
        |i: int|
            {
                let p = i / 4;
                let x = p % height;
                let y = p / height;
                pixels[((height - 1 - x) * width + y) * 4 + i % 4]
            },
    )
}

/// The `width` by `height` RGBA image `pixels` rotated by 180 degrees.
pub open spec fn rotated_180(width: int, height: int, pixels: Seq<u8>) -> Seq<u8> {
    Seq::new(
        (width * height * 4) as nat,
        |i: int|
            {
                let p = i / 4;
                let x = p % width;
                let y = p / width;
                pixels[((height - 1 - y) * width + (width - 1 - x)) * 4 + i % 4]
            },
    )
}

/// The `width` by `height` RGBA image `pixels` rotated 270 degrees clockwise: the result is
/// `height` wide and `width` high.
pub open spec fn rotated_270(width: int, height: int, pixels: Seq<u8>) -> Seq<u8> {
    Seq::new(
        (height * width * 4) as nat,
        |i: int|
            {
                let p = i / 4;
                let x = p % height;
                let y = p / height;
                pixels[(x * width + (width - 1 - y)) * 4 + i % 4]
            },
    )
}

/// Rotates the `width` by `height` RGBA image `pixels` 90 degrees clockwise, through
/// `DynamicImage::rotate90`: the pixel at `(x, y)` moves to `(height - 1 - y, x)`.
#[verifier::external_body]
fn rotate_90(width: u32, height: u32, pixels: Vec<u8>) -> (rotated: Vec<u8>)
    requires
        pixels@.len() == width * height * 4,
    ensures
        rotated@ == rotated_90(width as int, height as int, pixels@),
{
    let buffer: RgbaImage = ImageBuffer::from_raw(width, height, pixels).unwrap_or_default();
    DynamicImage::ImageRgba8(buffer).rotate90().into_rgba8().into_raw()
}

/// Rotates the `width` by `height` RGBA image `pixels` by 180 degrees, through
/// `DynamicImage::rotate180`: the pixel at `(x, y)` moves to
/// `(width - 1 - x, height - 1 - y)`.
#[verifier::external_body]
fn rotate_180(width: u32, height: u32, pixels: Vec<u8>) -> (rotated: Vec<u8>)
    requires
        pixels@.len() == width * height * 4,
    ensures
        rotated@ == rotated_180(width as int, height as int, pixels@),
{
    let buffer: RgbaImage = ImageBuffer::from_raw(width, height, pixels).unwrap_or_default();
    DynamicImage::ImageRgba8(buffer).rotate180().into_rgba8().into_raw()
}

/// Rotates the `width` by `height` RGBA image `pixels` 270 degrees clockwise, through
/// `DynamicImage::rotate270`: the pixel at `(x, y)` moves to `(y, width - 1 - x)`.
#[verifier::external_body]
fn rotate_270(width: u32, height: u32, pixels: Vec<u8>) -> (rotated: Vec<u8>)
    requires
        pixels@.len() == width * height * 4,
    ensures
        rotated@ == rotated_270(width as int, height as int, pixels@),
{
    let buffer: RgbaImage = ImageBuffer::from_raw(width, height, pixels).unwrap_or_default();
    DynamicImage::ImageRgba8(buffer).rotate270().into_rgba8().into_raw()
}

/// Encodes the `width` by `height` RGBA image `pixels` in the file format `format`, through
/// `DynamicImage::write_to`. The bytes are those that [`encoded_image`] names for the
/// arguments, and there are none exactly when that name gives none (the encoder's error
/// itself is not kept).
#[verifier::external_body]
fn encode_image(format: Format, width: u32, height: u32, pixels: Vec<u8>) -> (bytes: Option<Vec<u8>>)
    requires
        pixels@.len() == width * height * 4,
    ensures
        match encoded_image(format, width, height, pixels@) {
            Some(b) => bytes matches Some(v) && v@ == b,
            None => bytes is None,
        },
{
    let format = match format {
        Format::Gif => ImageFormat::Gif,
        Format::Png => ImageFormat::Png,
        Format::WebP => ImageFormat::WebP,
    };
    let buffer: RgbaImage = ImageBuffer::from_raw(width, height, pixels).unwrap_or_default();
    let mut bytes: Vec<u8> = Vec::new();
    match DynamicImage::ImageRgba8(buffer).write_to(&mut Cursor::new(&mut bytes), format) {
        Ok(()) => Some(bytes),
        Err(_) => None,
    }
}

/// An RGBA image buffer: `width` by `height` pixels of four bytes, row by row.
#[derive(Debug, PartialEq, Eq)]
pub struct RgbaBuffer {
    width: u32,
    height: u32,
    pixels: Vec<u8>,
}

impl Clone for RgbaBuffer {
    fn clone(&self) -> (copy: Self)
        ensures
            copy@ == self@,
    {
        let pixels = self.pixels.clone();
        assert(pixels@ =~= self.pixels@);
        RgbaBuffer { width: self.width, height: self.height, pixels }
    }
}

impl View for RgbaBuffer {
    type V = (u32, u32, Seq<u8>);

    closed spec fn view(&self) -> (u32, u32, Seq<u8>) {
        (self.width, self.height, self.pixels@)
    }
}

impl RgbaBuffer {
    /// The width in pixels.
    pub fn width(&self) -> (width: u32)
        ensures
            width == self@.0,
    {
        self.width
    }

    /// The height in pixels.
    pub fn height(&self) -> (height: u32)
        ensures
            height == self@.1,
    {
        self.height
    }

    /// The width and the height in pixels.
    pub fn dimensions(&self) -> (dimensions: (u32, u32))
        ensures
            dimensions == (self@.0, self@.1),
    {
        (self.width, self.height)
    }

    /// The RGBA bytes, row by row.
    pub fn as_raw(&self) -> (pixels: &Vec<u8>)
        ensures
            pixels@ == self@.2,
    {
        &self.pixels
    }

    /// The RGBA bytes, row by row.
    pub fn into_raw(self) -> (pixels: Vec<u8>)
        ensures
            pixels@ == self@.2,
    {
        self.pixels
    }
}

/// The pixel bytes of one row: every module `xdim` pixels of its colour.
pub open spec fn pixel_row(modules: Seq<u8>, xdim: nat, foreground: Color, background: Color) -> Seq<u8> {
    concat_n(
        modules.len(),
        |i: int|
            concat_n(
                xdim,
                |_p: int|
                    if modules[i] == 0 {
                        background.rgba()
                    } else {
                        foreground.rgba()
                    },
            ),
    )
}

/// The pixel bytes of the unrotated barcode: `height` equal rows.
pub open spec fn placed_pixels(modules: Seq<u8>, xdim: nat, height: nat, foreground: Color, background: Color) -> Seq<u8> {
    concat_n(height, |_y: int| pixel_row(modules, xdim, foreground, background))
}

/// The size and pixels of `pixels`, a `width` by `height` image, after `rotation`.
pub open spec fn rotated(rotation: Rotation, width: u32, height: u32, pixels: Seq<u8>) -> (
    u32,
    u32,
    Seq<u8>,
) {
    match rotation {
        Rotation::Zero => (width, height, pixels),
        Rotation::Ninety => (height, width, rotated_90(width as int, height as int, pixels)),
        Rotation::OneEighty => (width, height, rotated_180(width as int, height as int, pixels)),
        Rotation::TwoSeventy => (height, width, rotated_270(width as int, height as int, pixels)),
    }
}

/// What the generator `image` draws for the modules `modules`: the modules are validated,
/// the width and the number of bytes must fit their integer types, the bytes may not exceed
/// the output limit, and the drawing is rotated as the generator says.
pub open spec fn spec_place_pixels(image: Image, modules: Seq<u8>) -> core::result::Result<
    (u32, u32, Seq<u8>),
    Error,
> {
    let (height, xdim, rotation, foreground, background) = settings(image);
    let width = modules.len() * xdim;
    match spec_validate_modules(modules) {
        Err(e) => Err(e),
        Ok(_) => if width > u32::MAX {
            Err(Error::Dimension { reason: "görüntü genişliği u32 aralığını aşıyor" })
        } else if width * height * 4 > u64::MAX {
            Err(Error::Dimension { reason: "görüntü bayt sayısı u64 aralığını aşıyor" })
        } else {
            match spec_validate_output_bytes((width * height * 4) as u64) {
                Err(e) => Err(e),
                Ok(_) => if width * height * 4 > usize::MAX {
                    Err(Error::Dimension { reason: "görüntü bayt sayısı usize aralığını aşıyor" })
                } else {
                    Ok(
                        rotated(
                            rotation,
                            width as u32,
                            height,
                            placed_pixels(
                                modules,
                                xdim as nat,
                                height as nat,
                                foreground,
                                background,
                            ),
                        ),
                    )
                },
            }
        },
    }
}

/// The error for a file format that the encoder refused.
pub open spec fn encoding_error(format: Format) -> Error {
    match format {
        Format::Gif => Error::Generate { target: "GIF", reason: "görüntü kodlanamadı" },
        Format::Png => Error::Generate { target: "PNG", reason: "görüntü kodlanamadı" },
        Format::WebP => Error::Generate { target: "WEBP", reason: "görüntü kodlanamadı" },
    }
}

/// The error of [`Image::generate`] for the image buffer generator, which has no file format.
pub open spec fn no_format_error() -> Error {
    Error::Generate { target: "görüntü tamponu", reason: "dosya biçimi olmadığından bayt üretilemez" }
}

/// What [`Image::generate`] gives: the bytes of the encoded drawing, or the first error.
pub open spec fn spec_image_generate(image: Image, modules: Seq<u8>) -> core::result::Result<
    Seq<u8>,
    Error,
> {
    match format_of(image) {
        None => Err(no_format_error()),
        Some(format) => match spec_place_pixels(image, modules) {
            Err(e) => Err(e),
            Ok((width, height, pixels)) => match encoded_image(format, width, height, pixels) {
                Some(bytes) => Ok(bytes),
                None => Err(encoding_error(format)),
            },
        },
    }
}

/// The pixels of `count` modules that all have the colour `rgba`, `xdim` pixels each.
proof fn lemma_pixel_row_len(modules: Seq<u8>, xdim: nat, foreground: Color, background: Color)
    requires
        foreground.rgba().len() == 4,
        background.rgba().len() == 4,
    ensures
        pixel_row(modules, xdim, foreground, background).len() == modules.len() * (xdim * 4),
{
    let f = |i: int|
        concat_n(
            xdim,
            |_p: int|
                if modules[i] == 0 {
                    background.rgba()
                } else {
                    foreground.rgba()
                },
        );
    assert forall|i: int| 0 <= i < modules.len() implies #[trigger] f(i).len() == xdim * 4 by {
        let g = |_p: int|
            if modules[i] == 0 {
                background.rgba()
            } else {
                foreground.rgba()
            };
        crate::sym::helpers::lemma_concat_n_len(xdim, g, 4);
    }
    crate::sym::helpers::lemma_concat_n_len(modules.len(), f, xdim * 4);
}

impl Image {
    /// A GIF generator of the given height with X dimension 1, no rotation, a black foreground
    /// and a white background.
    pub fn gif(height: u32) -> (image: Image)
        ensures
            image is GIF,
            default_settings(image, height),
    {
        Image::GIF {
            height,
            xdim: 1,
            rotation: Rotation::Zero,
            foreground: Color { rgba: [0, 0, 0, 255] },
            background: Color { rgba: [255, 255, 255, 255] },
        }
    }

    /// A PNG generator of the given height with X dimension 1, no rotation, a black foreground
    /// and a white background.
    pub fn png(height: u32) -> (image: Image)
        ensures
            image is PNG,
            default_settings(image, height),
    {
        Image::PNG {
            height,
            xdim: 1,
            rotation: Rotation::Zero,
            foreground: Color { rgba: [0, 0, 0, 255] },
            background: Color { rgba: [255, 255, 255, 255] },
        }
    }

    /// A WEBP generator of the given height with X dimension 1, no rotation, a black foreground
    /// and a white background.
    pub fn webp(height: u32) -> (image: Image)
        ensures
            image is WEBP,
            default_settings(image, height),
    {
        Image::WEBP {
            height,
            xdim: 1,
            rotation: Rotation::Zero,
            foreground: Color { rgba: [0, 0, 0, 255] },
            background: Color { rgba: [255, 255, 255, 255] },
        }
    }

    /// An image buffer generator of the given height with X dimension 1, no rotation, a black foreground
    /// and a white background.
    pub fn image_buffer(height: u32) -> (image: Image)
        ensures
            image is ImageBuffer,
            default_settings(image, height),
    {
        Image::ImageBuffer {
            height,
            xdim: 1,
            rotation: Rotation::Zero,
            foreground: Color { rgba: [0, 0, 0, 255] },
            background: Color { rgba: [255, 255, 255, 255] },
        }
    }

    fn settings(&self) -> (s: (u32, u32, Rotation, Color, Color))
        ensures
            s == settings(*self),
    {
        match *self {
            Image::GIF { height, xdim, rotation, foreground, background } => (
                height,
                xdim,
                rotation,
                foreground,
                background,
            ),
            Image::PNG { height, xdim, rotation, foreground, background } => (
                height,
                xdim,
                rotation,
                foreground,
                background,
            ),
            Image::WEBP { height, xdim, rotation, foreground, background } => (
                height,
                xdim,
                rotation,
                foreground,
                background,
            ),
            Image::ImageBuffer { height, xdim, rotation, foreground, background } => (
                height,
                xdim,
                rotation,
                foreground,
                background,
            ),
        }
    }

    /// The pixel bytes of one row.
    fn row_pixels(barcode: &[u8], xdim: u32, foreground: Color, background: Color) -> (row: Vec<u8>)
        ensures
            row@ == pixel_row(barcode@, xdim as nat, foreground, background),
    {
        let fg = foreground.channels();
        let bg = background.channels();
        let ghost f = |i: int|
            concat_n(
                xdim as nat,
                |_p: int|
                    if barcode@[i] == 0 {
                        background.rgba()
                    } else {
                        foreground.rgba()
                    },
            );
        let mut row: Vec<u8> = Vec::new();
        let mut i: usize = 0;
        while i < barcode.len()
            invariant
                i <= barcode@.len(),
                fg@ == foreground.rgba(),
                bg@ == background.rgba(),
                f == (|i: int|
                    concat_n(
                        xdim as nat,
                        |_p: int|
                            if barcode@[i] == 0 {
                                background.rgba()
                            } else {
                                foreground.rgba()
                            },
                    )),
                row@ == concat_n(i as nat, f),
            decreases barcode@.len() - i,
        {
            let color = if barcode[i] == 0 {
                bg
            } else {
                fg
            };
            let ghost g = |_p: int|
                if barcode@[i as int] == 0 {
                    background.rgba()
                } else {
                    foreground.rgba()
                };
            let ghost before = row@;
            let mut p: u32 = 0;
            while p < xdim
                invariant
                    p <= xdim,
                    color@ == (if barcode@[i as int] == 0 {
                        background.rgba()
                    } else {
                        foreground.rgba()
                    }),
                    g == (|_p: int|
                        if barcode@[i as int] == 0 {
                            background.rgba()
                        } else {
                            foreground.rgba()
                        }),
                    row@ == before + concat_n(p as nat, g),
                decreases xdim - p,
            {
                row.extend_from_slice(&color);
                assert(before + concat_n((p + 1) as nat, g) =~= before + concat_n(p as nat, g)
                    + g(p as int));
                p += 1;
            }
            assert(f(i as int) == concat_n(xdim as nat, g));
            i += 1;
        }
        row
    }

    fn place_pixels(&self, barcode: &[u8]) -> (raster: Result<(u32, u32, Vec<u8>)>)
        ensures
            match spec_place_pixels(*self, barcode@) {
                Ok((width, height, pixels)) => raster matches Ok(r) && r.0 == width && r.1
                    == height && r.2@ == pixels && pixels.len() == width * height * 4,
                Err(e) => raster == Err::<(u32, u32, Vec<u8>), Error>(e),
            },
    {
        validate_barcode(barcode)?;
        proof {
            crate::encoding::lemma_validate_modules_ok(barcode@);
        }
        let (height, xdim, rotation, foreground, background) = self.settings();
        let barcode_len = barcode.len() as u32;
        let width = match barcode_len.checked_mul(xdim) {
            Some(w) => w,
            None => {
                return Err(Error::dimension("görüntü genişliği u32 aralığını aşıyor"));
            },
        };
        let channel_count = match (width as u64).checked_mul(height as u64) {
            Some(pixels) => match pixels.checked_mul(4) {
                Some(c) => c,
                None => {
                    return Err(Error::dimension("görüntü bayt sayısı u64 aralığını aşıyor"));
                },
            },
            None => {
                proof {
                    assert(width * height * 4 > u64::MAX) by (nonlinear_arith)
                        requires
                            width * height > u64::MAX,
                    ;
                }
                return Err(Error::dimension("görüntü bayt sayısı u64 aralığını aşıyor"));
            },
        };
        validate_output_bytes(channel_count)?;
        if channel_count > usize::MAX as u64 {
            return Err(Error::dimension("görüntü bayt sayısı usize aralığını aşıyor"));
        }
        let row = Self::row_pixels(barcode, xdim, foreground, background);
        proof {
            lemma_pixel_row_len(barcode@, xdim as nat, foreground, background);
        }
        let ghost r = row@;
        let mut pixels: Vec<u8> = Vec::new();
        let mut y: u32 = 0;
        while y < height
            invariant
                y <= height,
                row@ == r,
                pixels@ == concat_n(y as nat, |_y: int| r),
            decreases height - y,
        {
            pixels.extend_from_slice(row.as_slice());
            assert(concat_n((y + 1) as nat, |_y: int| r) == concat_n(y as nat, |_y: int| r) + r);
            y += 1;
        }
        let ghost placed = placed_pixels(barcode@, xdim as nat, height as nat, foreground, background);
        proof {
            assert(pixels@ == placed);
            crate::sym::helpers::lemma_concat_n_len(height as nat, |_y: int| r, r.len());
            assert(r.len() == barcode@.len() * (xdim * 4));
            assert(placed.len() == width * height * 4) by (nonlinear_arith)
                requires
                    placed.len() == height * r.len(),
                    r.len() == barcode@.len() * (xdim * 4),
                    width == barcode@.len() * xdim,
            ;
            assert(width * height * 4 == height * width * 4) by (nonlinear_arith);
        }
        match rotation {
            Rotation::Zero => Ok((width, height, pixels)),
            Rotation::Ninety => Ok((height, width, rotate_90(width, height, pixels))),
            Rotation::OneEighty => Ok((width, height, rotate_180(width, height, pixels))),
            Rotation::TwoSeventy => Ok((height, width, rotate_270(width, height, pixels))),
        }
    }

    /// Renders the modules `barcode` and encodes the image in the generator's file format.
    pub fn generate(&self, barcode: &[u8]) -> (bytes: Result<Vec<u8>>)
        ensures
            match spec_image_generate(*self, barcode@) {
                Ok(b) => bytes matches Ok(v) && v@ == b,
                Err(e) => bytes == Err::<Vec<u8>, Error>(e),
            },
    {
        let format = match *self {
            Image::GIF { .. } => Format::Gif,
            Image::PNG { .. } => Format::Png,
            Image::WEBP { .. } => Format::WebP,
            Image::ImageBuffer { .. } => {
                return Err(
                    Error::generate(
                        "görüntü tamponu",
                        "dosya biçimi olmadığından bayt üretilemez",
                    ),
                );
            },
        };
        let (width, height, pixels) = self.place_pixels(barcode)?;
        match encode_image(format, width, height, pixels) {
            Some(bytes) => Ok(bytes),
            None => Err(
                match format {
                    Format::Gif => Error::generate("GIF", "görüntü kodlanamadı"),
                    Format::Png => Error::generate("PNG", "görüntü kodlanamadı"),
                    Format::WebP => Error::generate("WEBP", "görüntü kodlanamadı"),
                },
            ),
        }
    }

    /// Renders the modules `barcode` into an RGBA image buffer.
    pub fn generate_buffer(self, barcode: &[u8]) -> (buffer: Result<RgbaBuffer>)
        ensures
            match spec_place_pixels(self, barcode@) {
                Ok(raster) => buffer matches Ok(b) && b@ == raster,
                Err(e) => buffer == Err::<RgbaBuffer, Error>(e),
            },
    {
        let (width, height, pixels) = self.place_pixels(barcode)?;
        Ok(RgbaBuffer { width, height, pixels })
    }
}

/// A drawn image never takes more bytes than the output limit.
pub proof fn lemma_image_size_within_limit(image: Image, modules: Seq<u8>)
    ensures
        spec_place_pixels(image, modules) matches Ok((width, height, pixels)) ==> pixels.len()
            <= crate::generators::MAX_OUTPUT_BYTES,
{
    if let Ok((w, h, pixels)) = spec_place_pixels(image, modules) {
        let (height, xdim, rotation, foreground, background) = settings(image);
        let width = modules.len() * xdim;
        let placed = placed_pixels(modules, xdim as nat, height as nat, foreground, background);
        let f = |i: int|
            concat_n(
                xdim as nat,
                |_p: int|
                    if modules[i] == 0 {
                        background.rgba()
                    } else {
                        foreground.rgba()
                    },
            );
        assert(foreground.rgba().len() == 4 && background.rgba().len() == 4) by {
            foreground.lemma_rgba_len();
            background.lemma_rgba_len();
        }
        lemma_pixel_row_len(modules, xdim as nat, foreground, background);
        let row = pixel_row(modules, xdim as nat, foreground, background);
        crate::sym::helpers::lemma_concat_n_len(height as nat, |_y: int| row, row.len());
        assert(placed.len() == width * height * 4) by (nonlinear_arith)
            requires
                placed.len() == height * row.len(),
                row.len() == modules.len() * (xdim * 4),
                width == modules.len() * xdim,
        ;
        assert(width * height * 4 == height * width * 4) by (nonlinear_arith);
    }
}

} // verus!
