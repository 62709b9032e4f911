//! The supported ways of rendering a barcode.
//!
//! - `ascii`: ASCII art.
//! - `gpui`: the layout of a native GPUI element.
//! - `json`: a JSON representation.
//! - `image`: raster images.
//! - `svg`: an SVG document.

pub mod ascii;
pub mod gpui;
pub mod image;
pub mod json;
pub mod svg;

use crate::encoding::{spec_validate_modules, validate_modules};
use crate::error::{Error, Result};
use vstd::prelude::*;

verus! {

/// The largest output, in bytes, that a generator produces.
pub const MAX_OUTPUT_BYTES: u64 = 64 * 1024 * 1024;

/// Validates the modules handed to a generator.
pub(crate) fn validate_barcode(barcode: &[u8]) -> (r: Result<()>)
    ensures
        r == spec_validate_modules(barcode@),
{
    validate_modules(barcode)
}

/// The outcome of checking an output size against [`MAX_OUTPUT_BYTES`].
pub open spec fn spec_validate_output_bytes(requested: u64) -> core::result::Result<(), Error> {
    if requested > MAX_OUTPUT_BYTES {
        Err(
            Error::ResourceLimit {
                resource: "çıktı baytı",
                requested,
                maximum: MAX_OUTPUT_BYTES,
            },
        )
    } else {
        Ok(())
    }
}

/// Refuses an output of more than [`MAX_OUTPUT_BYTES`] bytes.
pub(crate) fn validate_output_bytes(requested: u64) -> (r: Result<()>)
    ensures
        r == spec_validate_output_bytes(requested),
{
    if requested > MAX_OUTPUT_BYTES {
        Err(Error::ResourceLimit { resource: "çıktı baytı", requested, maximum: MAX_OUTPUT_BYTES })
    } else {
        Ok(())
    }
}

/// The generators validate the modules before anything else: a representation that is
/// empty, too long or not binary is refused with the validation error, whatever the
/// settings (for an image, once it has a file format).
pub proof fn lemma_generators_validate_first(
    modules: Seq<u8>,
    ascii_generator: ascii::ASCII,
    svg_generator: svg::SVG,
    foreground_opacity: Seq<char>,
    background_opacity: Seq<char>,
    image_generator: image::Image,
)
    requires
        spec_validate_modules(modules) is Err,
    ensures
        spec_validate_modules(modules) matches Err(e) ==> {
            &&& ascii::spec_ascii_generate(ascii_generator, modules) == Err::<Seq<char>, Error>(e)
            &&& svg::spec_svg_generate(
                svg_generator,
                modules,
                foreground_opacity,
                background_opacity,
            ) == Err::<Seq<char>, Error>(e)
            &&& image::spec_place_pixels(image_generator, modules) == Err::<
                (u32, u32, Seq<u8>),
                Error,
            >(e)
            &&& image::format_of(image_generator) is Some ==> image::spec_image_generate(
                image_generator,
                modules,
            ) == Err::<Seq<u8>, Error>(e)
        },
{
}

} // verus!
