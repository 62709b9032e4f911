//! Renders barcodes as JSON, for handing the encoded data to other systems.
//!
//! The output has the form:
//! ```javascript
//! {"height":10,"xdim":1,"encoding":[1,0,0,1,1,0,...]}
//! ```

use crate::encoding::spec_validate_modules;
use crate::error::{Error, Result};
use crate::generators::validate_barcode;
use crate::sym::helpers::concat_n;
use crate::text::{decimal, push_char, push_decimal, push_str};
use vstd::prelude::*;

verus! {

/// The JSON barcode generator.
#[derive(Copy, Clone, Debug)]
pub struct JSON {
    /// The height of the barcode.
    pub height: usize,
    /// The X dimension: the width of the narrow bars.
    pub xdim: usize,
}

impl Default for JSON {
    fn default() -> (json: Self)
        ensures
            json.height == 10,
            json.xdim == 1,
    {
        Self::new()
    }
}

/// The modules `modules` as digits separated by commas.
pub open spec fn encoding_list(modules: Seq<u8>) -> Seq<char> {
    concat_n(
        modules.len(),
        |i: int|
            {
                let digit = if modules[i] == 0 {
                    '0'
                } else {
                    '1'
                };
                if i == 0 {
                    seq![digit]
                } else {
                    seq![',', digit]
                }
            },
    )
}

/// The JSON document for the height `height`, the X dimension `xdim` and the modules
/// `modules`.
pub open spec fn json_text(height: nat, xdim: nat, modules: Seq<u8>) -> Seq<char> {
    "{\"height\":"@ + decimal(height) + ",\"xdim\":"@ + decimal(xdim) + ",\"encoding\":["@
        + encoding_list(modules) + "]}"@
}

impl JSON {
    /// A generator with the default height 10 and X dimension 1.
    pub fn new() -> (json: JSON)
        ensures
            json.height == 10,
            json.xdim == 1,
    {
        JSON { height: 10, xdim: 1 }
    }

    /// Renders the modules `barcode` as a JSON document, after validating them.
    pub fn generate(&self, barcode: &[u8]) -> (text: Result<String>)
        ensures
            match spec_validate_modules(barcode@) {
                Ok(()) => text matches Ok(s) && s@ == json_text(
                    self.height as nat,
                    self.xdim as nat,
                    barcode@,
                ),
                Err(e) => text == Err::<String, Error>(e),
            },
    {
        validate_barcode(barcode)?;
        let mut out = String::new();
        push_str(&mut out, "{\"height\":");
        push_decimal(&mut out, self.height as u64);
        push_str(&mut out, ",\"xdim\":");
        push_decimal(&mut out, self.xdim as u64);
        push_str(&mut out, ",\"encoding\":[");
        let ghost head = out@;
        let ghost f = |i: int|
            {
                let digit = if barcode@[i] == 0 {
                    '0'
                } else {
                    '1'
                };
                if i == 0 {
                    seq![digit]
                } else {
                    seq![',', digit]
                }
            };
        let mut i: usize = 0;
        while i < barcode.len()
            invariant
                i <= barcode@.len(),
                f == (|i: int|
                    {
                        let digit = if barcode@[i] == 0 {
                            '0'
                        } else {
                            '1'
                        };
                        if i == 0 {
                            seq![digit]
                        } else {
                            seq![',', digit]
                        }
                    }),
                out@ == head + concat_n(i as nat, f),
            decreases barcode@.len() - i,
        {
            if i > 0 {
                push_char(&mut out, ',');
            }
            let digit = if barcode[i] == 0 {
                '0'
            } else {
                '1'
            };
            push_char(&mut out, digit);
            assert(head + concat_n((i + 1) as nat, f) =~= head + concat_n(i as nat, f) + f(
                i as int,
            ));
            i += 1;
        }
        push_str(&mut out, "]}");
        Ok(out)
    }
}

} // verus!
