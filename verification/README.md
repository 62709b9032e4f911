# barcoders

A barcode encoding library whose logic is verified with Verus. Text in a chosen symbology
is encoded into its binary modules (`0` for a space, `1` for a bar), which the generators
render as ASCII art, JSON, SVG, raster images or the layout of a GPUI element.

## Layout

- `src/sym/`: the symbologies (EAN-13 with UPC-A, JAN and Bookland, EAN-8, EAN-2/EAN-5,
  Code11, Code39, Code93, Code128, 2-of-5), each with a specification of the accepted text
  and of the modules it encodes to.
- `src/encoding.rs`: the validated module representation, its runs of equal modules and the
  `Barcode` trait.
- `src/generators/`: the generators. The `image` crate rotates and encodes the raster images.
- `src/error.rs`: the error type and its messages.
- `app/`: what needs floating point or an outside trait or element tree: SVG opacity texts,
  the GPUI canvas, `Display` for errors, conversion to `image::RgbaImage`, and a driver that
  feeds arbitrary bytes to the whole API.
- `tests/`: the test suite.
