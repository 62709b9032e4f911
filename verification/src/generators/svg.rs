//! Renders barcodes as SVG documents.
//!
//! An [`SVG`] generator is built with a struct literal, or with [`SVG::new`] and the builder
//! methods when the defaults suit:
//!
//! ```rust
//! use barcoders::generators::svg::*;
//!
//! let svg = SVG::new(100)
//!               .xdim(2)
//!               .background(Color::white())
//!               .foreground(Color::black());
//! ```
//!
//! The opacity of a colour that is not fully opaque is written as the decimal text of its
//! alpha value divided by 255; [`SVG::generate`] takes that text for each of the two colours.

use crate::encoding::spec_validate_modules;
use crate::error::{Error, Result};
use crate::generators::{spec_validate_output_bytes, validate_barcode, validate_output_bytes};
use crate::sym::helpers::concat_n;
use crate::text::{chars_of, decimal, push_char, push_decimal, push_str};
use vstd::prelude::*;

verus! {

/// The standard XML namespace of stand-alone SVG documents.
pub const SVG_NAMESPACE: &'static str = "http://www.w3.org/2000/svg";

/// An RGBA colour for the foreground or the background of a barcode.
#[derive(Copy, Clone, Debug)]
pub struct Color {
    /// The red, green, blue and alpha values.
    pub rgba: [u8; 4],
}

impl Color {
    /// A new colour.
    pub fn new(rgba: [u8; 4]) -> (color: Color)
        ensures
            color.rgba == rgba,
    {
        Color { rgba }
    }

    /// Black (`#000000`).
    pub fn black() -> (color: Color)
        ensures
            color.rgba@ == seq![0u8, 0, 0, 255],
    {
        Color::new([0, 0, 0, 255])
    }

    /// White (`#FFFFFF`).
    pub fn white() -> (color: Color)
        ensures
            color.rgba@ == seq![255u8, 255, 255, 255],
    {
        Color::new([255, 255, 255, 255])
    }
}

/// The lower-case hexadecimal digit of `n`.
pub open spec fn hex_digit(n: int) -> char {
    if n < 10 {
        (n + 48) as char
    } else {
        (n + 87) as char
    }
}

/// The two hexadecimal digits of the byte `n`.
pub open spec fn hex_byte(n: u8) -> Seq<char> {
    seq![hex_digit((n / 16) as int), hex_digit((n % 16) as int)]
}

/// The hexadecimal red, green and blue digits of `color`.
pub open spec fn color_hex(color: Color) -> Seq<char> {
    hex_byte(color.rgba[0]) + hex_byte(color.rgba[1]) + hex_byte(color.rgba[2])
}

/// `s` is a decimal number without sign or exponent, as the opacity texts are: digits and
/// decimal points only, so it needs no escaping inside an attribute.
pub open spec fn is_decimal_text(s: Seq<char>) -> bool {
    forall|i: int| 0 <= i < s.len() ==> ('0' <= #[trigger] s[i] && s[i] <= '9') || s[i] == '.'
}

/// The opacity attribute of a rectangle filled with `color`: none for an opaque colour,
/// otherwise the given opacity text.
pub open spec fn opacity_attribute(color: Color, opacity: Seq<char>) -> Seq<char> {
    if color.rgba[3] == 255 {
        Seq::empty()
    } else {
        " fill-opacity=\""@ + opacity + "\" "@
    }
}

/// A rectangle `width` wide at `offset`, `height` high, filled with `fill`.
pub open spec fn rect_text(height: u32, fill: Color, opacity: Seq<char>, offset: nat, width: nat) -> Seq<char> {
    "<rect x=\""@ + decimal(offset) + "\" y=\"0\" width=\""@ + decimal(width) + "\" height=\""@
        + decimal(height as nat) + "\" fill=\"#"@ + color_hex(fill) + "\""@ + opacity_attribute(
        fill,
        opacity,
    ) + "/>"@
}

/// `c` may appear in an XML document.
pub open spec fn is_xml_char(c: char) -> bool {
    ||| c == '\u{0009}'
    ||| c == '\u{000A}'
    ||| c == '\u{000D}'
    ||| ('\u{0020}' <= c && c <= '\u{D7FF}')
    ||| ('\u{E000}' <= c && c <= '\u{FFFD}')
    ||| ('\u{10000}' <= c && c <= '\u{10FFFF}')
}

/// The text that stands for `c` in an XML attribute value.
pub open spec fn escape_char(c: char) -> Seq<char> {
    if c == '&' {
        "&amp;"@
    } else if c == '<' {
        "&lt;"@
    } else if c == '>' {
        "&gt;"@
    } else if c == '"' {
        "&quot;"@
    } else if c == '\'' {
        "&apos;"@
    } else {
        seq![c]
    }
}

/// The attribute value `s` with the XML special characters escaped.
pub open spec fn xml_escape(s: Seq<char>) -> Seq<char> {
    concat_n(s.len(), |i: int| escape_char(s[i]))
}

/// The number of bytes of `c` in UTF-8.
pub open spec fn utf8_len(c: char) -> nat {
    if (c as int) < 0x80 {
        1
    } else if (c as int) < 0x800 {
        2
    } else if (c as int) < 0x10000 {
        3
    } else {
        4
    }
}

/// The number of bytes that `c` takes once escaped.
pub open spec fn escaped_char_len(c: char) -> nat {
    if c == '&' {
        5
    } else if c == '<' || c == '>' {
        4
    } else if c == '"' || c == '\'' {
        6
    } else {
        utf8_len(c)
    }
}

/// Sums the escaped lengths of `s` from position `i` on, starting from `acc`: the first
/// character that XML does not allow, or the first sum beyond `usize`, is an error.
pub open spec fn escaped_len_from(s: Seq<char>, i: int, acc: int) -> core::result::Result<
    int,
    Error,
>
    decreases s.len() - i,
{
    if i < 0 || i >= s.len() {
        Ok(acc)
    } else if !is_xml_char(s[i]) {
        Err(
            Error::Generate {
                target: "SVG",
                reason: "XML ad alanı geçersiz bir XML karakteri içeriyor",
            },
        )
    } else if acc + escaped_char_len(s[i]) > usize::MAX {
        Err(Error::Dimension { reason: "SVG ad alanı uzunluğu usize aralığını aşıyor" })
    } else {
        escaped_len_from(s, i + 1, acc + escaped_char_len(s[i]))
    }
}

proof fn lemma_escaped_len_range(s: Seq<char>, i: int, acc: int)
    requires
        0 <= acc <= usize::MAX,
    ensures
        escaped_len_from(s, i, acc) matches Ok(n) ==> acc <= n <= usize::MAX,
    decreases s.len() - i,
{
    if 0 <= i < s.len() && is_xml_char(s[i]) && acc + escaped_char_len(s[i]) <= usize::MAX {
        lemma_escaped_len_range(s, i + 1, acc + escaped_char_len(s[i]));
    }
}

/// The escaped length in bytes of the namespace `s`, which may not be empty.
pub open spec fn spec_escaped_len(s: Seq<char>) -> core::result::Result<int, Error> {
    if s.len() == 0 {
        Err(Error::Generate { target: "SVG", reason: "XML ad alanı boş olamaz" })
    } else {
        escaped_len_from(s, 0, 0)
    }
}

/// The bytes that the namespace attribute takes, if there is one.
pub open spec fn xmlns_length(xmlns: Option<String>) -> core::result::Result<int, Error> {
    match xmlns {
        None => Ok(0),
        Some(x) => match spec_escaped_len(x@) {
            Err(e) => Err(e),
            Ok(n) => if n + 9 > usize::MAX {
                Err(Error::Dimension { reason: "SVG ad alanı uzunluğu usize aralığını aşıyor" })
            } else {
                Ok(n + 9)
            },
        },
    }
}

/// The namespace attribute of the document.
pub open spec fn xmlns_attribute(xmlns: Option<String>) -> Seq<char> {
    match xmlns {
        None => Seq::empty(),
        Some(x) => "xmlns=\""@ + xml_escape(x@) + "\" "@,
    }
}

/// The number of bars (modules `1`) among the first `n` modules of `s`.
pub open spec fn bar_count(s: Seq<u8>, n: nat) -> nat
    decreases n,
{
    if n == 0 {
        0
    } else {
        bar_count(s, (n - 1) as nat) + if s[n - 1] == 1 {
            1nat
        } else {
            0
        }
    }
}

/// The SVG barcode generator.
#[derive(Debug)]
pub struct SVG {
    /// The height of the barcode in pixels.
    pub height: u32,
    /// The X dimension: every module is `xdim` pixels wide.
    pub xdim: u32,
    /// The RGBA colour of the foreground.
    pub foreground: Color,
    /// The RGBA colour of the background.
    pub background: Color,
    /// The XML namespace. [`SVG::new`] uses the standard SVG namespace for stand-alone
    /// documents; `None` leaves the attribute out, for an element embedded in another XML
    /// document.
    pub xmlns: Option<String>,
}

/// The rectangles of the bars of `modules`.
pub open spec fn bars_text(svg: SVG, opacity: Seq<char>, modules: Seq<u8>) -> Seq<char> {
    concat_n(
        modules.len(),
        |i: int|
            if modules[i] == 1 {
                rect_text(svg.height, svg.foreground, opacity, (i * svg.xdim) as nat, svg.xdim as nat)
            } else {
                Seq::empty()
            },
    )
}

/// The SVG document of `modules`: the namespace, the view box, the background rectangle and
/// one rectangle per bar.
pub open spec fn svg_text(
    svg: SVG,
    modules: Seq<u8>,
    foreground_opacity: Seq<char>,
    background_opacity: Seq<char>,
) -> Seq<char> {
    let width = (modules.len() * svg.xdim) as nat;
    "<svg version=\"1.1\" "@ + xmlns_attribute(svg.xmlns) + "viewBox=\"0 0 "@ + decimal(width)
        + " "@ + decimal(svg.height as nat) + "\">"@ + rect_text(
        svg.height,
        svg.background,
        background_opacity,
        0,
        width,
    ) + bars_text(svg, foreground_opacity, modules) + "</svg>"@
}

/// What [`SVG::generate`] gives: the modules are validated first, then the dimensions, the
/// namespace and the estimated output size.
pub open spec fn spec_svg_generate(
    svg: SVG,
    modules: Seq<u8>,
    foreground_opacity: Seq<char>,
    background_opacity: Seq<char>,
) -> core::result::Result<Seq<char>, Error> {
    match spec_validate_modules(modules) {
        Err(e) => Err(e),
        Ok(_) => if svg.height == 0 {
            Err(Error::Dimension { reason: "SVG yüksekliği sıfır olamaz" })
        } else if svg.xdim == 0 {
            Err(Error::Dimension { reason: "SVG modül genişliği sıfır olamaz" })
        } else if modules.len() * svg.xdim > u32::MAX {
            Err(Error::Dimension { reason: "SVG genişliği u32 aralığını aşıyor" })
        } else {
            match xmlns_length(svg.xmlns) {
                Err(e) => Err(e),
                Ok(xmlns_len) => {
                    let estimated = (bar_count(modules, modules.len()) + 1) * 256 + 128 + xmlns_len;
                    if estimated > usize::MAX {
                        Err(Error::Dimension { reason: "SVG çıktı tahmini usize aralığını aşıyor" })
                    } else {
                        match spec_validate_output_bytes(estimated as u64) {
                            Err(e) => Err(e),
                            Ok(_) => Ok(
                                svg_text(svg, modules, foreground_opacity, background_opacity),
                            ),
                        }
                    }
                },
            }
        },
    }
}

fn hex_digit_of(n: u8) -> (c: char)
    requires
        n < 16,
    ensures
        c == hex_digit(n as int),
{
    if n < 10 {
        (n + 48) as char
    } else {
        (n + 87) as char
    }
}

fn push_hex(out: &mut String, color: Color)
    ensures
        final(out)@ == old(out)@ + color_hex(color),
{
    let mut k: usize = 0;
    while k < 3
        invariant
            k <= 3,
            out@ == old(out)@ + (if k == 0 {
                Seq::empty()
            } else if k == 1 {
                hex_byte(color.rgba[0])
            } else if k == 2 {
                hex_byte(color.rgba[0]) + hex_byte(color.rgba[1])
            } else {
                color_hex(color)
            }),
        decreases 3 - k,
    {
        let n = color.rgba[k];
        push_char(out, hex_digit_of(n / 16));
        push_char(out, hex_digit_of(n % 16));
        k += 1;
    }
}

fn is_xml_character(c: char) -> (allowed: bool)
    ensures
        allowed == is_xml_char(c),
{
    c == '\u{0009}' || c == '\u{000A}' || c == '\u{000D}' || ('\u{0020}' <= c && c <= '\u{D7FF}')
        || ('\u{E000}' <= c && c <= '\u{FFFD}') || ('\u{10000}' <= c && c <= '\u{10FFFF}')
}

fn escaped_len_of(c: char) -> (len: usize)
    ensures
        len == escaped_char_len(c),
{
    if c == '&' {
        5
    } else if c == '<' || c == '>' {
        4
    } else if c == '"' || c == '\'' {
        6
    } else if (c as u32) < 0x80 {
        1
    } else if (c as u32) < 0x800 {
        2
    } else if (c as u32) < 0x10000 {
        3
    } else {
        4
    }
}

/// The escaped length in bytes of the namespace `value`.
fn escaped_xml_attribute_len(value: &str) -> (len: Result<usize>)
    ensures
        match spec_escaped_len(value@) {
            Ok(n) => len == Ok::<usize, Error>(n as usize),
            Err(e) => len == Err::<usize, Error>(e),
        },
{
    let chars = chars_of(value);
    let n = chars.len();
    if n == 0 {
        return Err(Error::generate("SVG", "XML ad alanı boş olamaz"));
    }
    let mut length: usize = 0;
    let mut i: usize = 0;
    while i < n
        invariant
            n == chars@.len(),
            chars@ == value@,
            n > 0,
            i <= n,
            escaped_len_from(value@, 0, 0) == escaped_len_from(value@, i as int, length as int),
        decreases n - i,
    {
        let c = chars[i];
        if !is_xml_character(c) {
            return Err(
                Error::generate("SVG", "XML ad alanı geçersiz bir XML karakteri içeriyor"),
            );
        }
        length = match length.checked_add(escaped_len_of(c)) {
            Some(sum) => sum,
            None => {
                return Err(Error::dimension("SVG ad alanı uzunluğu usize aralığını aşıyor"));
            },
        };
        i += 1;
    }
    Ok(length)
}

/// Appends `value` to `output` with the XML special characters escaped.
pub fn push_escaped_xml_attribute(output: &mut String, value: &str)
    ensures
        final(output)@ == old(output)@ + xml_escape(value@),
{
    let chars = chars_of(value);
    let ghost f = |i: int| escape_char(value@[i]);
    let mut i: usize = 0;
    while i < chars.len()
        invariant
            chars@ == value@,
            i <= chars@.len(),
            f == (|i: int| escape_char(value@[i])),
            output@ == old(output)@ + concat_n(i as nat, f),
        decreases chars@.len() - i,
    {
        let c = chars[i];
        if c == '&' {
            push_str(output, "&amp;");
        } else if c == '<' {
            push_str(output, "&lt;");
        } else if c == '>' {
            push_str(output, "&gt;");
        } else if c == '"' {
            push_str(output, "&quot;");
        } else if c == '\'' {
            push_str(output, "&apos;");
        } else {
            push_char(output, c);
        }
        assert(old(output)@ + concat_n((i + 1) as nat, f) =~= old(output)@ + concat_n(
            i as nat,
            f,
        ) + f(i as int));
        i += 1;
    }
}

impl Clone for SVG {
    fn clone(&self) -> (copy: Self)
        ensures
            copy == *self,
    {
        SVG {
            height: self.height,
            xdim: self.xdim,
            foreground: self.foreground,
            background: self.background,
            xmlns: match &self.xmlns {
                Some(x) => Some(x.clone()),
                None => None,
            },
        }
    }
}

impl SVG {
    /// A generator of the given height with X dimension 1, a black foreground, a white
    /// background and the standard SVG namespace.
    pub fn new(height: u32) -> (svg: SVG)
        ensures
            svg.height == height,
            svg.xdim == 1,
            svg.foreground.rgba@ == seq![0u8, 0, 0, 255],
            svg.background.rgba@ == seq![255u8, 255, 255, 255],
            svg.xmlns matches Some(x) && x@ == SVG_NAMESPACE@,
    {
        SVG {
            height,
            xdim: 1,
            foreground: Color { rgba: [0, 0, 0, 255] },
            background: Color { rgba: [255, 255, 255, 255] },
            xmlns: Some(SVG_NAMESPACE.to_owned()),
        }
    }

    /// Sets the XML namespace (`xmlns`).
    pub fn xmlns(self, xmlns_uri: String) -> (svg: Self)
        ensures
            svg == (SVG { xmlns: Some(xmlns_uri), ..self }),
    {
        SVG { xmlns: Some(xmlns_uri), ..self }
    }

    /// Sets the X dimension.
    pub fn xdim(self, xdim: u32) -> (svg: Self)
        ensures
            svg == (SVG { xdim, ..self }),
    {
        SVG { xdim, ..self }
    }

    /// Sets the foreground (bar) colour.
    pub fn foreground(self, color: Color) -> (svg: Self)
        ensures
            svg == (SVG { foreground: color, ..self }),
    {
        SVG { foreground: color, ..self }
    }

    /// Sets the background colour.
    pub fn background(self, color: Color) -> (svg: Self)
        ensures
            svg == (SVG { background: color, ..self }),
    {
        SVG { background: color, ..self }
    }

    fn push_rect(&self, out: &mut String, fill: Color, opacity: &str, offset: u32, width: u32)
        ensures
            final(out)@ == old(out)@ + rect_text(
                self.height,
                fill,
                opacity@,
                offset as nat,
                width as nat,
            ),
    {
        push_str(out, "<rect x=\"");
        push_decimal(out, offset as u64);
        push_str(out, "\" y=\"0\" width=\"");
        push_decimal(out, width as u64);
        push_str(out, "\" height=\"");
        push_decimal(out, self.height as u64);
        push_str(out, "\" fill=\"#");
        push_hex(out, fill);
        push_str(out, "\"");
        if fill.rgba[3] != 255 {
            push_str(out, " fill-opacity=\"");
            push_str(out, opacity);
            push_str(out, "\" ");
        }
        push_str(out, "/>");
    }

    /// Renders the modules `barcode` as an SVG document. `foreground_opacity` and
    /// `background_opacity` are the decimal texts of the alpha values of the two colours
    /// divided by 255, digits and decimal points only; they are written only for a colour
    /// that is not opaque.
    pub fn generate(&self, barcode: &[u8], foreground_opacity: &str, background_opacity: &str) -> (document: Result<String>)
        requires
            is_decimal_text(foreground_opacity@),
            is_decimal_text(background_opacity@),
        ensures
            match spec_svg_generate(*self, barcode@, foreground_opacity@, background_opacity@) {
                Ok(t) => document matches Ok(s) && s@ == t,
                Err(e) => document == Err::<String, Error>(e),
            },
    {
        validate_barcode(barcode)?;
        proof {
            crate::encoding::lemma_validate_modules_ok(barcode@);
        }
        if self.height == 0 {
            return Err(Error::dimension("SVG yüksekliği sıfır olamaz"));
        }
        if self.xdim == 0 {
            return Err(Error::dimension("SVG modül genişliği sıfır olamaz"));
        }
        let barcode_len = barcode.len() as u32;
        let width = match barcode_len.checked_mul(self.xdim) {
            Some(w) => w,
            None => {
                return Err(Error::dimension("SVG genişliği u32 aralığını aşıyor"));
            },
        };
        let xmlns_len: usize = match &self.xmlns {
            Some(xmlns) => {
                proof {
                    lemma_escaped_len_range(xmlns@, 0, 0);
                }
                let escaped = escaped_xml_attribute_len(xmlns.as_str())?;
                match escaped.checked_add(9) {
                    Some(l) => l,
                    None => {
                        return Err(
                            Error::dimension("SVG ad alanı uzunluğu usize aralığını aşıyor"),
                        );
                    },
                }
            },
            None => 0,
        };
        let mut bars: usize = 0;
        let mut i: usize = 0;
        while i < barcode.len()
            invariant
                i <= barcode@.len(),
                barcode@.len() <= crate::encoding::MAX_MODULES,
                bars == bar_count(barcode@, i as nat),
                bars <= i,
            decreases barcode@.len() - i,
        {
            if barcode[i] == 1 {
                bars += 1;
            }
            i += 1;
        }
        let rect_count = bars + 1;
        let estimated = match (rect_count * 256 + 128).checked_add(xmlns_len) {
            Some(size) => size,
            None => {
                return Err(Error::dimension("SVG çıktı tahmini usize aralığını aşıyor"));
            },
        };
        validate_output_bytes(estimated as u64)?;
        let mut generated = String::new();
        push_str(&mut generated, "<svg version=\"1.1\" ");
        if let Some(xmlns) = &self.xmlns {
            push_str(&mut generated, "xmlns=\"");
            push_escaped_xml_attribute(&mut generated, xmlns.as_str());
            push_str(&mut generated, "\" ");
        }
        push_str(&mut generated, "viewBox=\"0 0 ");
        push_decimal(&mut generated, width as u64);
        push_str(&mut generated, " ");
        push_decimal(&mut generated, self.height as u64);
        push_str(&mut generated, "\">");
        self.push_rect(&mut generated, self.background, background_opacity, 0, width);
        let ghost head = generated@;
        let ghost f = |i: int|
            if barcode@[i] == 1 {
                rect_text(
                    self.height,
                    self.foreground,
                    foreground_opacity@,
                    (i * self.xdim) as nat,
                    self.xdim as nat,
                )
            } else {
                Seq::empty()
            };
        let mut index: usize = 0;
        while index < barcode.len()
            invariant
                index <= barcode@.len(),
                barcode@.len() <= crate::encoding::MAX_MODULES,
                barcode@.len() * self.xdim <= u32::MAX,
                f == (|i: int|
                    if barcode@[i] == 1 {
                        rect_text(
                            self.height,
                            self.foreground,
                            foreground_opacity@,
                            (i * self.xdim) as nat,
                            self.xdim as nat,
                        )
                    } else {
                        Seq::empty()
                    }),
                generated@ == head + concat_n(index as nat, f),
            decreases barcode@.len() - index,
        {
            if barcode[index] == 1 {
                assert(index * self.xdim <= barcode@.len() * self.xdim) by (nonlinear_arith)
                    requires
                        index < barcode@.len(),
                ;
                let offset = (index as u32) * self.xdim;
                self.push_rect(&mut generated, self.foreground, foreground_opacity, offset, self.xdim);
            }
            assert(head + concat_n((index + 1) as nat, f) =~= head + concat_n(index as nat, f) + f(
                index as int,
            ));
            index += 1;
        }
        push_str(&mut generated, "</svg>");
        Ok(generated)
    }
}

/// The number of bytes of `s` in UTF-8.
pub open spec fn utf8_size(s: Seq<char>) -> nat
    decreases s.len(),
{
    if s.len() == 0 {
        0
    } else {
        utf8_size(s.drop_last()) + utf8_len(s.last())
    }
}

proof fn lemma_utf8_size_add(a: Seq<char>, b: Seq<char>)
    ensures
        utf8_size(a + b) == utf8_size(a) + utf8_size(b),
    decreases b.len(),
{
    if b.len() == 0 {
        assert(a + b =~= a);
    } else {
        lemma_utf8_size_add(a, b.drop_last());
        assert((a + b).drop_last() =~= a + b.drop_last());
    }
}

/// Every character of `s` is ASCII.
pub open spec fn is_ascii_text(s: Seq<char>) -> bool {
    forall|i: int| 0 <= i < s.len() ==> (#[trigger] s[i] as int) < 0x80
}

proof fn lemma_ascii_size(s: Seq<char>)
    requires
        is_ascii_text(s),
    ensures
        utf8_size(s) == s.len(),
    decreases s.len(),
{
    if s.len() > 0 {
        assert(is_ascii_text(s.drop_last())) by {
            assert forall|i: int| 0 <= i < s.drop_last().len() implies (#[trigger] s.drop_last()[i]
                as int) < 0x80 by {
                assert(s.drop_last()[i] == s[i]);
            }
        }
        lemma_ascii_size(s.drop_last());
        assert((s.last() as int) < 0x80);
    }
}

/// `10` to the power `k`.
pub open spec fn pow10(k: nat) -> nat
    decreases k,
{
    if k == 0 {
        1
    } else {
        10 * pow10((k - 1) as nat)
    }
}

proof fn lemma_decimal_short(n: nat, k: nat)
    requires
        1 <= k,
        n < pow10(k),
    ensures
        decimal(n).len() <= k,
        is_ascii_text(decimal(n)),
    decreases n,
{
    if n >= 10 {
        if k == 1 {
            assert(pow10(1) == 10) by {
                reveal_with_fuel(pow10, 2);
            }
        }
        assert(n / 10 < pow10((k - 1) as nat)) by (nonlinear_arith)
            requires
                n < 10 * pow10((k - 1) as nat),
        ;
        lemma_decimal_short(n / 10, (k - 1) as nat);
        let d = decimal(n / 10);
        assert forall|i: int| 0 <= i < decimal(n).len() implies (#[trigger] decimal(n)[i] as int)
            < 0x80 by {
            if i < d.len() {
                assert(decimal(n)[i] == d[i]);
            }
        }
    }
}

/// The decimal text of a `u32` has at most ten ASCII digits.
proof fn lemma_decimal_u32(n: nat)
    requires
        n <= u32::MAX,
    ensures
        decimal(n).len() <= 10,
        utf8_size(decimal(n)) == decimal(n).len(),
{
    assert(pow10(10) == 10000000000) by {
        reveal_with_fuel(pow10, 11);
    }
    lemma_decimal_short(n, 10);
    lemma_ascii_size(decimal(n));
}

proof fn lemma_literal_size(s: Seq<char>)
    requires
        is_ascii_text(s),
    ensures
        utf8_size(s) == s.len(),
{
    lemma_ascii_size(s);
}

/// A rectangle takes at most 100 bytes besides its opacity text.
proof fn lemma_rect_size(height: u32, fill: Color, opacity: Seq<char>, offset: nat, width: nat)
    requires
        offset <= u32::MAX,
        width <= u32::MAX,
    ensures
        utf8_size(rect_text(height, fill, opacity, offset, width)) <= 100 + utf8_size(opacity),
{
    reveal_strlit("<rect x=\"");
    reveal_strlit("\" y=\"0\" width=\"");
    reveal_strlit("\" height=\"");
    reveal_strlit("\" fill=\"#");
    reveal_strlit("\"");
    reveal_strlit(" fill-opacity=\"");
    reveal_strlit("\" ");
    reveal_strlit("/>");
    let p1 = "<rect x=\""@;
    let p2 = "\" y=\"0\" width=\""@;
    let p3 = "\" height=\""@;
    let p4 = "\" fill=\"#"@;
    let p5 = "\""@;
    let p6 = "/>"@;
    lemma_literal_size(p1);
    lemma_literal_size(p2);
    lemma_literal_size(p3);
    lemma_literal_size(p4);
    lemma_literal_size(p5);
    lemma_literal_size(p6);
    lemma_decimal_u32(offset);
    lemma_decimal_u32(width);
    lemma_decimal_u32(height as nat);
    let hex = color_hex(fill);
    assert(is_ascii_text(hex)) by {
        assert forall|i: int| 0 <= i < hex.len() implies (#[trigger] hex[i] as int) < 0x80 by {
            assert(hex.len() == 6);
        }
    }
    lemma_literal_size(hex);
    let attr = opacity_attribute(fill, opacity);
    if fill.rgba[3] != 255 {
        let q1 = " fill-opacity=\""@;
        let q2 = "\" "@;
        lemma_literal_size(q1);
        lemma_literal_size(q2);
        lemma_utf8_size_add(q1, opacity);
        lemma_utf8_size_add(q1 + opacity, q2);
    }
    assert(utf8_size(attr) <= 18 + utf8_size(opacity));
    let a = p1 + decimal(offset);
    let b = a + p2;
    let c = b + decimal(width);
    let d = c + p3;
    let e = d + decimal(height as nat);
    let f = e + p4;
    let g = f + hex;
    let h = g + p5;
    let i = h + attr;
    lemma_utf8_size_add(p1, decimal(offset));
    lemma_utf8_size_add(a, p2);
    lemma_utf8_size_add(b, decimal(width));
    lemma_utf8_size_add(c, p3);
    lemma_utf8_size_add(d, decimal(height as nat));
    lemma_utf8_size_add(e, p4);
    lemma_utf8_size_add(f, hex);
    lemma_utf8_size_add(g, p5);
    lemma_utf8_size_add(h, attr);
    lemma_utf8_size_add(i, p6);
}

/// The escaped lengths of the first `n` characters of `s`, summed.
pub open spec fn escaped_total(s: Seq<char>, n: nat) -> nat
    decreases n,
{
    if n == 0 {
        0
    } else {
        escaped_total(s, (n - 1) as nat) + escaped_char_len(s[n - 1])
    }
}

proof fn lemma_escape_char_size(c: char)
    ensures
        utf8_size(escape_char(c)) == escaped_char_len(c),
{
    reveal_strlit("&amp;");
    reveal_strlit("&lt;");
    reveal_strlit("&gt;");
    reveal_strlit("&quot;");
    reveal_strlit("&apos;");
    if c == '&' {
        lemma_literal_size("&amp;"@);
        assert("&amp;"@.len() == 5);
    } else if c == '<' {
        lemma_literal_size("&lt;"@);
        assert("&lt;"@.len() == 4);
    } else if c == '>' {
        lemma_literal_size("&gt;"@);
        assert("&gt;"@.len() == 4);
    } else if c == '"' {
        lemma_literal_size("&quot;"@);
        assert("&quot;"@.len() == 6);
    } else if c == '\'' {
        lemma_literal_size("&apos;"@);
        assert("&apos;"@.len() == 6);
    } else {
        let one = seq![c];
        assert(one.drop_last() =~= Seq::<char>::empty());
        assert(one.last() == c);
        assert(utf8_size(one) == utf8_size(one.drop_last()) + utf8_len(one.last()));
        assert(utf8_size(Seq::<char>::empty()) == 0);
        assert(escape_char(c) == one);
    }
}

proof fn lemma_escape_prefix_size(s: Seq<char>, n: nat)
    requires
        n <= s.len(),
    ensures
        utf8_size(concat_n(n, |i: int| escape_char(s[i]))) == escaped_total(s, n),
    decreases n,
{
    if n > 0 {
        lemma_escape_prefix_size(s, (n - 1) as nat);
        let f = |i: int| escape_char(s[i]);
        assert(concat_n(n, f) == concat_n((n - 1) as nat, f) + f(n - 1));
        lemma_utf8_size_add(concat_n((n - 1) as nat, f), f(n - 1));
        lemma_escape_char_size(s[n - 1]);
    }
}

proof fn lemma_escaped_len_total(s: Seq<char>, i: int, acc: int)
    requires
        0 <= i <= s.len(),
    ensures
        escaped_len_from(s, i, acc) matches Ok(total) ==> total == acc + escaped_total(s, s.len())
            - escaped_total(s, i as nat),
    decreases s.len() - i,
{
    if i < s.len() && is_xml_char(s[i]) && acc + escaped_char_len(s[i]) <= usize::MAX {
        lemma_escaped_len_total(s, i + 1, acc + escaped_char_len(s[i]));
        assert(escaped_total(s, (i + 1) as nat) == escaped_total(s, i as nat) + escaped_char_len(
            s[i],
        ));
    }
}

/// The namespace attribute takes exactly the bytes that [`xmlns_length`] counts.
proof fn lemma_xmlns_size(xmlns: Option<String>)
    ensures
        xmlns_length(xmlns) matches Ok(n) ==> utf8_size(xmlns_attribute(xmlns)) == n,
{
    if let Some(x) = xmlns {
        if let Ok(n) = xmlns_length(xmlns) {
            reveal_strlit("xmlns=\"");
            reveal_strlit("\" ");
            let p1 = "xmlns=\""@;
            let p2 = "\" "@;
            lemma_literal_size(p1);
            lemma_literal_size(p2);
            lemma_escaped_len_total(x@, 0, 0);
            lemma_escape_prefix_size(x@, x@.len());
            lemma_utf8_size_add(p1, xml_escape(x@));
            lemma_utf8_size_add(p1 + xml_escape(x@), p2);
        }
    } else {
        assert(utf8_size(Seq::<char>::empty()) == 0);
    }
}

/// The bar rectangles of the first `n` modules take at most 256 bytes per bar.
proof fn lemma_bars_size(svg: SVG, opacity: Seq<char>, modules: Seq<u8>, n: nat)
    requires
        n <= modules.len(),
        modules.len() * svg.xdim <= u32::MAX,
        utf8_size(opacity) <= 156,
    ensures
        utf8_size(
            concat_n(
                n,
                |i: int|
                    if modules[i] == 1 {
                        rect_text(
                            svg.height,
                            svg.foreground,
                            opacity,
                            (i * svg.xdim) as nat,
                            svg.xdim as nat,
                        )
                    } else {
                        Seq::empty()
                    },
            ),
        ) <= 256 * bar_count(modules, n),
    decreases n,
{
    if n > 0 {
        let f = |i: int|
            if modules[i] == 1 {
                rect_text(
                    svg.height,
                    svg.foreground,
                    opacity,
                    (i * svg.xdim) as nat,
                    svg.xdim as nat,
                )
            } else {
                Seq::empty()
            };
        lemma_bars_size(svg, opacity, modules, (n - 1) as nat);
        assert(concat_n(n, f) == concat_n((n - 1) as nat, f) + f(n - 1));
        lemma_utf8_size_add(concat_n((n - 1) as nat, f), f(n - 1));
        if modules[n - 1] == 1 {
            assert((n - 1) * svg.xdim <= modules.len() * svg.xdim) by (nonlinear_arith)
                requires
                    n <= modules.len(),
            ;
            lemma_rect_size(
                svg.height,
                svg.foreground,
                opacity,
                ((n - 1) * svg.xdim) as nat,
                svg.xdim as nat,
            );
        } else {
            assert(utf8_size(Seq::<char>::empty()) == 0);
        }
        assert(256 * bar_count(modules, n) == 256 * bar_count(modules, (n - 1) as nat) + if modules[n
            - 1] == 1 {
            256int
        } else {
            0
        }) by (nonlinear_arith)
            requires
                bar_count(modules, n) == bar_count(modules, (n - 1) as nat) + if modules[n - 1] == 1 {
                    1int
                } else {
                    0
                },
        ;
    }
}

/// The size check of [`SVG::generate`] covers the whole document: when each opacity text
/// takes at most 150 bytes, a generated document takes at most the estimated size that was
/// checked, and so never exceeds the output limit.
pub proof fn lemma_svg_size_within_limit(
    svg: SVG,
    modules: Seq<u8>,
    foreground_opacity: Seq<char>,
    background_opacity: Seq<char>,
)
    requires
        utf8_size(foreground_opacity) <= 150,
        utf8_size(background_opacity) <= 150,
    ensures
        spec_svg_generate(svg, modules, foreground_opacity, background_opacity) matches Ok(document)
            ==> utf8_size(document) <= crate::generators::MAX_OUTPUT_BYTES,
{
    if let Ok(document) = spec_svg_generate(svg, modules, foreground_opacity, background_opacity) {
        let xmlns_len = xmlns_length(svg.xmlns).unwrap();
        let bars = bar_count(modules, modules.len());
        let width = (modules.len() * svg.xdim) as nat;
        lemma_xmlns_size(svg.xmlns);
        lemma_decimal_u32(width);
        lemma_decimal_u32(svg.height as nat);
        lemma_rect_size(svg.height, svg.background, background_opacity, 0, width);
        lemma_bars_size(svg, foreground_opacity, modules, modules.len());
        reveal_strlit("<svg version=\"1.1\" ");
        reveal_strlit("viewBox=\"0 0 ");
        reveal_strlit(" ");
        reveal_strlit("\">");
        reveal_strlit("</svg>");
        let p1 = "<svg version=\"1.1\" "@;
        let p2 = "viewBox=\"0 0 "@;
        let p3 = " "@;
        let p4 = "\">"@;
        let p5 = "</svg>"@;
        lemma_literal_size(p1);
        lemma_literal_size(p2);
        lemma_literal_size(p3);
        lemma_literal_size(p4);
        lemma_literal_size(p5);
        let xa = xmlns_attribute(svg.xmlns);
        let bg = rect_text(svg.height, svg.background, background_opacity, 0, width);
        let bt = bars_text(svg, foreground_opacity, modules);
        let a = p1 + xa;
        let b = a + p2;
        let c = b + decimal(width);
        let d = c + p3;
        let e = d + decimal(svg.height as nat);
        let f = e + p4;
        let g = f + bg;
        let h = g + bt;
        lemma_utf8_size_add(p1, xa);
        lemma_utf8_size_add(a, p2);
        lemma_utf8_size_add(b, decimal(width));
        lemma_utf8_size_add(c, p3);
        lemma_utf8_size_add(d, decimal(svg.height as nat));
        lemma_utf8_size_add(e, p4);
        lemma_utf8_size_add(f, bg);
        lemma_utf8_size_add(g, bt);
        lemma_utf8_size_add(h, p5);
        assert(document == h + p5);
        assert(utf8_size(document) <= (bars + 1) * 256 + 128 + xmlns_len) by (nonlinear_arith)
            requires
                utf8_size(document) <= 70 + xmlns_len + 250 + 256 * bars,
        ;
    }
}

/// `c` is a lower-case hexadecimal digit.
pub open spec fn is_lower_hex(c: char) -> bool {
    ('0' <= c && c <= '9') || ('a' <= c && c <= 'f')
}

/// The value of the hexadecimal digit `c`, read back: `'0'` to `'9'` are 0 to 9, `'a'` to
/// `'f'` are 10 to 15.
pub open spec fn hex_value(c: char) -> int {
    if '0' <= c && c <= '9' {
        c as int - 48
    } else {
        c as int - 87
    }
}

/// The two characters at `k` of `s`, read as a two-digit hexadecimal number.
pub open spec fn hex_pair_value(s: Seq<char>, k: int) -> int {
    16 * hex_value(s[k]) + hex_value(s[k + 1])
}

proof fn lemma_hex_byte_reads_back(n: u8)
    ensures
        hex_byte(n).len() == 2,
        is_lower_hex(hex_byte(n)[0]),
        is_lower_hex(hex_byte(n)[1]),
        hex_pair_value(hex_byte(n), 0) == n as int,
{
    let hi = (n / 16) as int;
    let lo = (n % 16) as int;
    assert(0 <= hi < 16 && 0 <= lo < 16 && 16 * hi + lo == n as int);
}

/// The colour of a fill reads back from its text: six lower-case hexadecimal digits, two
/// for each channel in the order red, green, blue.
pub proof fn lemma_color_hex_reads_back(color: Color)
    ensures
        color_hex(color).len() == 6,
        forall|i: int| 0 <= i < 6 ==> is_lower_hex(#[trigger] color_hex(color)[i]),
        hex_pair_value(color_hex(color), 0) == color.rgba[0] as int,
        hex_pair_value(color_hex(color), 2) == color.rgba[1] as int,
        hex_pair_value(color_hex(color), 4) == color.rgba[2] as int,
{
    lemma_hex_byte_reads_back(color.rgba[0]);
    lemma_hex_byte_reads_back(color.rgba[1]);
    lemma_hex_byte_reads_back(color.rgba[2]);
    let s = color_hex(color);
    let r = hex_byte(color.rgba[0]);
    let g = hex_byte(color.rgba[1]);
    let b = hex_byte(color.rgba[2]);
    assert(s[0] == r[0] && s[1] == r[1] && s[2] == g[0] && s[3] == g[1] && s[4] == b[0] && s[5]
        == b[1]);
}

/// Every rectangle names its colour in a `fill="#` attribute whose six digits read back as
/// the red, green and blue channels of the fill colour, in that order.
pub proof fn lemma_rect_fill_reads_back(
    height: u32,
    fill: Color,
    opacity: Seq<char>,
    offset: nat,
    width: nat,
)
    ensures
        ({
            let r = rect_text(height, fill, opacity, offset, width);
            exists|k: int|
                {
                    &&& 7 <= k && k + 6 <= r.len()
                    &&& r.subrange(k - 7, k) == "fill=\"#"@
                    &&& forall|i: int| k <= i < k + 6 ==> is_lower_hex(#[trigger] r[i])
                    &&& #[trigger] hex_pair_value(r, k) == fill.rgba[0] as int
                    &&& hex_pair_value(r, k + 2) == fill.rgba[1] as int
                    &&& hex_pair_value(r, k + 4) == fill.rgba[2] as int
                }
        }),
{
    reveal_strlit("\" fill=\"#");
    reveal_strlit("fill=\"#");
    let pre = "<rect x=\""@ + decimal(offset) + "\" y=\"0\" width=\""@ + decimal(width)
        + "\" height=\""@ + decimal(height as nat) + "\" fill=\"#"@;
    let hex = color_hex(fill);
    let rest = "\""@ + opacity_attribute(fill, opacity) + "/>"@;
    let r = rect_text(height, fill, opacity, offset, width);
    assert(r == pre + hex + rest);
    let k = pre.len() as int;
    lemma_color_hex_reads_back(fill);
    let head = "<rect x=\""@ + decimal(offset) + "\" y=\"0\" width=\""@ + decimal(width)
        + "\" height=\""@ + decimal(height as nat);
    assert(pre == head + "\" fill=\"#"@);
    assert(r.subrange(k - 7, k) =~= "fill=\"#"@);
    assert forall|i: int| k <= i < k + 6 implies is_lower_hex(#[trigger] r[i]) by {
        assert(r[i] == hex[i - k]);
    }
    assert(r[k] == hex[0] && r[k + 1] == hex[1] && r[k + 2] == hex[2] && r[k + 3] == hex[3]
        && r[k + 4] == hex[4] && r[k + 5] == hex[5]);
    assert(hex_pair_value(r, k) == hex_pair_value(hex, 0));
    assert(hex_pair_value(r, k + 2) == hex_pair_value(hex, 2));
    assert(hex_pair_value(r, k + 4) == hex_pair_value(hex, 4));
}

} // verus!
