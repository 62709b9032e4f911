//! Renders barcodes as ASCII art.
//!
//! Handy in tests and for a quick visual check of an encoding.

use crate::encoding::spec_validate_modules;
use crate::error::{Error, Result};
use crate::generators::{
    spec_validate_output_bytes, validate_barcode, validate_output_bytes, MAX_OUTPUT_BYTES,
};
use crate::sym::helpers::concat_n;
use crate::text::{push_char, push_str};
use vstd::prelude::*;

verus! {

/// The ASCII barcode generator.
#[derive(Copy, Clone, Debug)]
pub struct ASCII {
    /// The height of the barcode, in lines of text.
    pub height: usize,
    /// The X dimension: every module is `xdim` characters wide.
    pub xdim: usize,
}

impl Default for ASCII {
    fn default() -> (ascii: Self)
        ensures
            ascii.height == 10,
            ascii.xdim == 1,
    {
        Self::new()
    }
}

/// The character that draws the module `m`: `'#'` for a bar, `' '` for a space.
pub open spec fn module_char(m: u8) -> char {
    if m == 1 {
        '#'
    } else {
        ' '
    }
}

/// One line of the drawing: every module drawn `xdim` characters wide.
pub open spec fn ascii_row(modules: Seq<u8>, xdim: nat) -> Seq<char> {
    concat_n(modules.len(), |i: int| Seq::new(xdim, |_j: int| module_char(modules[i])))
}

/// Line `r` of a drawing of `height` lines: `row`, followed by a line break unless it is
/// the last line.
pub open spec fn ascii_line(row: Seq<char>, height: nat, r: int) -> Seq<char> {
    if r + 1 < height {
        row.push('\n')
    } else {
        row
    }
}

/// The first `n` lines of a drawing of `height` lines.
pub open spec fn ascii_lines_prefix(row: Seq<char>, height: nat, n: nat) -> Seq<char> {
    concat_n(n, |r: int| ascii_line(row, height, r))
}

/// `height` copies of `row`, separated by line breaks.
pub open spec fn ascii_lines(row: Seq<char>, height: nat) -> Seq<char> {
    ascii_lines_prefix(row, height, height)
}

/// What [`ASCII::generate`] gives for the generator `ascii` and the modules `modules`: the
/// modules are validated first, then the dimensions, then the output size.
pub open spec fn spec_ascii_generate(ascii: ASCII, modules: Seq<u8>) -> core::result::Result<
    Seq<char>,
    Error,
> {
    let row_width = modules.len() * ascii.xdim;
    let rows_size = row_width * ascii.height;
    let output_size = rows_size + ascii.height - 1;
    match spec_validate_modules(modules) {
        Err(e) => Err(e),
        Ok(_) => if ascii.height == 0 {
            Err(Error::Dimension { reason: "ASCII yüksekliği sıfır olamaz" })
        } else if ascii.xdim == 0 {
            Err(Error::Dimension { reason: "ASCII modül genişliği sıfır olamaz" })
        } else if row_width > usize::MAX {
            Err(Error::Dimension { reason: "ASCII satır genişliği usize aralığını aşıyor" })
        } else if rows_size > usize::MAX {
            Err(Error::Dimension { reason: "ASCII çıktı uzunluğu usize aralığını aşıyor" })
        } else if output_size > usize::MAX {
            Err(Error::Dimension { reason: "ASCII satır sonları usize aralığını aşıyor" })
        } else {
            match spec_validate_output_bytes(output_size as u64) {
                Err(e) => Err(e),
                Ok(_) => Ok(ascii_lines(ascii_row(modules, ascii.xdim as nat), ascii.height as nat)),
            }
        },
    }
}

impl ASCII {
    /// A generator with the default height 10 and X dimension 1.
    pub fn new() -> (ascii: ASCII)
        ensures
            ascii.height == 10,
            ascii.xdim == 1,
    {
        ASCII { height: 10, xdim: 1 }
    }

    fn generate_row(&self, barcode: &[u8]) -> (row: String)
        ensures
            row@ == ascii_row(barcode@, self.xdim as nat),
    {
        let ghost f = |i: int| Seq::new(self.xdim as nat, |_j: int| module_char(barcode@[i]));
        let mut row = String::new();
        let mut i: usize = 0;
        while i < barcode.len()
            invariant
                i <= barcode@.len(),
                f == (|i: int| Seq::new(self.xdim as nat, |_j: int| module_char(barcode@[i]))),
                row@ == concat_n(i as nat, f),
            decreases barcode@.len() - i,
        {
            let character = if barcode[i] == 1 {
                '#'
            } else {
                ' '
            };
            let ghost before = row@;
            let mut j: usize = 0;
            while j < self.xdim
                invariant
                    j <= self.xdim,
                    character == module_char(barcode@[i as int]),
                    row@ == before + Seq::new(j as nat, |_j: int| character),
                decreases self.xdim - j,
            {
                push_char(&mut row, character);
                assert(Seq::new((j + 1) as nat, |_j: int| character) =~= Seq::new(
                    j as nat,
                    |_j: int| character,
                ).push(character));
                j += 1;
            }
            assert(f(i as int) =~= Seq::new(self.xdim as nat, |_j: int| character));
            i += 1;
        }
        row
    }

    /// Renders the modules `barcode` as text.
    pub fn generate(&self, barcode: &[u8]) -> (text: Result<String>)
        ensures
            match spec_ascii_generate(*self, barcode@) {
                Ok(t) => text matches Ok(s) && s@ == t,
                Err(e) => text == Err::<String, Error>(e),
            },
    {
        validate_barcode(barcode)?;
        if self.height == 0 {
            return Err(Error::dimension("ASCII yüksekliği sıfır olamaz"));
        }
        if self.xdim == 0 {
            return Err(Error::dimension("ASCII modül genişliği sıfır olamaz"));
        }
        let row_width = match barcode.len().checked_mul(self.xdim) {
            Some(w) => w,
            None => {
                return Err(Error::dimension("ASCII satır genişliği usize aralığını aşıyor"));
            },
        };
        let rows_size = match row_width.checked_mul(self.height) {
            Some(s) => s,
            None => {
                return Err(Error::dimension("ASCII çıktı uzunluğu usize aralığını aşıyor"));
            },
        };
        let output_size = match rows_size.checked_add(self.height - 1) {
            Some(s) => s,
            None => {
                return Err(Error::dimension("ASCII satır sonları usize aralığını aşıyor"));
            },
        };
        validate_output_bytes(output_size as u64)?;
        let row = self.generate_row(barcode);
        let height = self.height;
        let mut output = String::new();
        let mut r: usize = 0;
        while r < height
            invariant
                r <= height,
                output@ == ascii_lines_prefix(row@, height as nat, r as nat),
            decreases height - r,
        {
            push_str(&mut output, row.as_str());
            if r + 1 < height {
                push_char(&mut output, '\n');
            }
            r += 1;
        }
        Ok(output)
    }
}

proof fn lemma_lines_prefix_len(row: Seq<char>, height: nat, n: nat)
    requires
        n < height,
    ensures
        ascii_lines_prefix(row, height, n).len() == n * (row.len() + 1),
    decreases n,
{
    if n > 0 {
        lemma_lines_prefix_len(row, height, (n - 1) as nat);
        assert(ascii_lines_prefix(row, height, n) == ascii_lines_prefix(row, height, (n - 1) as nat)
            + ascii_line(row, height, n - 1));
        assert((n - 1) * (row.len() + 1) + row.len() + 1 == n * (row.len() + 1)) by (nonlinear_arith);
    }
}

/// A successful rendering is `height` lines of `modules × xdim` characters separated by
/// line breaks, and so never exceeds the output limit.
pub proof fn lemma_ascii_output_size(ascii: ASCII, modules: Seq<u8>)
    ensures
        spec_ascii_generate(ascii, modules) matches Ok(text) ==> text.len() == modules.len()
            * ascii.xdim * ascii.height + ascii.height - 1 && text.len() <= MAX_OUTPUT_BYTES,
{
    if let Ok(text) = spec_ascii_generate(ascii, modules) {
        let xdim = ascii.xdim as nat;
        let height = ascii.height as nat;
        let f = |i: int| Seq::new(xdim, |_j: int| module_char(modules[i]));
        crate::sym::helpers::lemma_concat_n_len(modules.len(), f, xdim);
        let row = ascii_row(modules, xdim);
        assert(row.len() == modules.len() * xdim);
        lemma_lines_prefix_len(row, height, (height - 1) as nat);
        assert(text == ascii_lines_prefix(row, height, height));
        assert(ascii_lines_prefix(row, height, height) == ascii_lines_prefix(
            row,
            height,
            (height - 1) as nat,
        ) + ascii_line(row, height, height - 1));
        assert((height - 1) * (row.len() + 1) + row.len() == row.len() * height + height - 1)
            by (nonlinear_arith);
        assert(modules.len() * xdim * height == row.len() * height);
    }
}

} // verus!
