//! Encoder for 2-of-5 barcodes.
//!
//! 2-of-5 barcodes are often used by airlines and in some industrial settings.
//!
//! They also appear in retail on the outer cartons of product groups (such as cola crates).
//!
//! In most cases the interleaved variant is the one to use rather than the standard one.

use crate::error::Result;
use crate::sym::ean13::digits_of_len;
use crate::sym::helpers::{self, concat_n, is_binary};
use crate::sym::{parse_input, spec_parse_input, Charset};
use vstd::prelude::*;

verus! {

/// Narrow (`N`) and wide (`W`) elements of each digit.
pub const WIDTHS: [[char; 5]; 10] = [
    ['N', 'N', 'W', 'W', 'N'],
    ['W', 'N', 'N', 'N', 'W'],
    ['N', 'W', 'N', 'N', 'W'],
    ['W', 'W', 'N', 'N', 'N'],
    ['N', 'N', 'W', 'N', 'W'],
    ['W', 'N', 'W', 'N', 'N'],
    ['N', 'W', 'W', 'N', 'N'],
    ['N', 'N', 'N', 'W', 'W'],
    ['W', 'N', 'N', 'W', 'N'],
    ['N', 'W', 'N', 'W', 'N'],
];

// The wide elements of the guard patterns use the same 3:1 wide/narrow ratio as the data
// characters; the specification asks for a single ratio within one symbol.
/// Start pattern of the interleaved variant.
pub const ITF_START: [u8; 4] = [1, 0, 1, 0];
/// Stop pattern of the interleaved variant.
pub const ITF_STOP: [u8; 5] = [1, 1, 1, 0, 1];
/// Start pattern of the standard variant.
pub const STF_START: [u8; 10] = [1, 1, 1, 0, 1, 1, 1, 0, 1, 0];
/// Stop pattern of the standard variant.
pub const STF_STOP: [u8; 10] = [1, 1, 1, 0, 1, 0, 1, 1, 1, 0];

/// Validated standard 2-of-5 data.
#[derive(Debug, PartialEq, Eq)]
pub struct Standard(Vec<u8>);

/// Validated interleaved 2-of-5 data (an even number of digits).
#[derive(Debug, PartialEq, Eq)]
pub struct Interleaved(Vec<u8>);

impl AsRef<[u8]> for Standard {
    fn as_ref(&self) -> &[u8] {
        self.0.as_slice()
    }
}

impl AsRef<[u8]> for Interleaved {
    fn as_ref(&self) -> &[u8] {
        self.0.as_slice()
    }
}

/// Standard data: between one and 256 digits.
pub open spec fn standard_data(d: Seq<u8>) -> bool {
    1 <= d.len() <= 256 && forall|i: int| 0 <= i < d.len() ==> #[trigger] d[i] < 10
}

/// Interleaved data: an even number of digits, between two and 256.
pub open spec fn interleaved_data(d: Seq<u8>) -> bool {
    standard_data(d) && d.len() % 2 == 0
}

impl Standard {
    #[verifier::type_invariant]
    spec fn well_formed(self) -> bool {
        standard_data(self.0@)
    }

    /// The digits.
    pub closed spec fn digits(self) -> Seq<u8> {
        self.0@
    }
}

impl Interleaved {
    #[verifier::type_invariant]
    spec fn well_formed(self) -> bool {
        interleaved_data(self.0@)
    }

    /// The digits.
    pub closed spec fn digits(self) -> Seq<u8> {
        self.0@
    }
}

/// The 2-of-5 barcode type.
#[derive(Debug, PartialEq, Eq)]
pub enum TF {
    /// The standard 2-of-5 barcode.
    Standard(Standard),
    /// The interleaved 2-of-5 barcode.
    Interleaved(Interleaved),
}

impl View for TF {
    type V = Seq<u8>;

    open spec fn view(&self) -> Seq<u8> {
        match *self {
            TF::Standard(data) => data.digits(),
            TF::Interleaved(data) => data.digits(),
        }
    }
}

/// What [`TF::standard`] keeps of the text `s`: its digits.
pub open spec fn spec_stf_new(s: Seq<char>) -> core::result::Result<Seq<u8>, crate::error::Error> {
    match spec_parse_input(s, 1, 256, Charset::Decimal) {
        Err(e) => Err(e),
        Ok(_) => Ok(s.map_values(|c: char| helpers::digit_value(c))),
    }
}

/// What [`TF::interleaved`] keeps of the text `s`: its digits, followed by the modulo-10
/// check digit when their number is odd.
pub open spec fn spec_itf_new(s: Seq<char>) -> core::result::Result<Seq<u8>, crate::error::Error> {
    match spec_parse_input(s, 1, 256, Charset::Decimal) {
        Err(e) => Err(e),
        Ok(_) => {
            let digits = s.map_values(|c: char| helpers::digit_value(c));
            if digits.len() % 2 == 1 {
                Ok(digits.push(helpers::spec_modulo_10_checksum(digits, false)))
            } else {
                Ok(digits)
            }
        },
    }
}

/// The modules of a bar (`bar == 1`) or space (`bar == 0`) element of width `width`: three
/// modules when wide, one when narrow.
pub open spec fn element(width: char, bar: u8) -> Seq<u8> {
    if width == 'W' {
        seq![bar, bar, bar]
    } else {
        seq![bar]
    }
}

/// The modules of digit `d` in the standard variant: every element is a bar, wide `1110` or
/// narrow `10`.
pub open spec fn standard_digit(d: u8) -> Seq<u8> {
    concat_n(
        5,
        |k: int|
            if WIDTHS[d as int][k] == 'W' {
                seq![1u8, 1, 1, 0]
            } else {
                seq![1u8, 0]
            },
    )
}

/// The modules of a digit pair in the interleaved variant: the first digit's elements are the
/// bars, the second digit's the spaces between them.
pub open spec fn interleaved_pair(bars: u8, spaces: u8) -> Seq<u8> {
    concat_n(
        5,
        |k: int| element(WIDTHS[bars as int][k], 1) + element(WIDTHS[spaces as int][k], 0),
    )
}

/// The modules of the standard 2-of-5 barcode of the digits `d`.
pub open spec fn stf_modules(d: Seq<u8>) -> Seq<u8> {
    STF_START@ + concat_n(d.len(), |i: int| standard_digit(d[i])) + STF_STOP@
}

/// The modules of the interleaved 2-of-5 barcode of the digits `d`.
pub open spec fn itf_modules(d: Seq<u8>) -> Seq<u8> {
    ITF_START@ + concat_n(d.len() / 2, |p: int| interleaved_pair(d[2 * p], d[2 * p + 1]))
        + ITF_STOP@
}

/// The modules of the barcode `d` of the given variant.
pub open spec fn tf_modules(interleaved: bool, d: Seq<u8>) -> Seq<u8> {
    if interleaved {
        itf_modules(d)
    } else {
        stf_modules(d)
    }
}

impl TF {
    /// Whether this is the interleaved variant.
    pub open spec fn is_interleaved(&self) -> bool {
        self is Interleaved
    }

    /// Creates a new interleaved barcode. When the number of digits is odd, the modulo-10
    /// check digit is appended.
    pub fn interleaved(data: &str) -> (barcode: Result<TF>)
        ensures
            crate::error::result_view(barcode) == spec_itf_new(data@),
            barcode matches Ok(b) ==> b.is_interleaved(),
    {
        let _chars = parse_input(data, 1, 256, Charset::Decimal)?;
        proof {
            crate::sym::lemma_decimal_input(data@, 1, 256);
        }
        let mut digits = helpers::parse_digits(data)?;
        proof {
            assert forall|j: int| 0 <= j < digits@.len() implies #[trigger] digits@[j] < 10 by {
                assert(helpers::is_decimal(data@[j]));
            }
        }
        let checksum_required = digits.len() % 2 == 1;
        if checksum_required {
            let check_digit = helpers::modulo_10_checksum(digits.as_slice(), false);
            digits.push(check_digit);
        }
        Ok(TF::Interleaved(Interleaved(digits)))
    }

    /// Creates a new standard barcode.
    pub fn standard(data: &str) -> (barcode: Result<TF>)
        ensures
            crate::error::result_view(barcode) == spec_stf_new(data@),
            barcode matches Ok(b) ==> !b.is_interleaved(),
    {
        let _chars = parse_input(data, 1, 256, Charset::Decimal)?;
        proof {
            crate::sym::lemma_decimal_input(data@, 1, 256);
        }
        let digits = helpers::parse_digits(data)?;
        proof {
            assert forall|j: int| 0 <= j < digits@.len() implies #[trigger] digits@[j] < 10 by {
                assert(helpers::is_decimal(data@[j]));
            }
        }
        Ok(TF::Standard(Standard(digits)))
    }

    /// The digits of the barcode, the check digit included.
    pub fn raw_data(&self) -> (digits: &Vec<u8>)
        ensures
            digits@ == self@,
            standard_data(digits@),
            self.is_interleaved() ==> digits@.len() % 2 == 0,
    {
        match self {
            TF::Standard(data) => {
                proof {
                    use_type_invariant(data);
                }
                &data.0
            },
            TF::Interleaved(data) => {
                proof {
                    use_type_invariant(data);
                }
                &data.0
            },
        }
    }

    /// Appends the elements of the widths row of digit `d` as bars.
    fn char_encoding(into: &mut Vec<u8>, d: u8)
        requires
            d < 10,
        ensures
            final(into)@ == old(into)@ + standard_digit(d),
    {
        let widths = WIDTHS[d as usize];
        let ghost start = into@;
        let ghost f = |k: int|
            if WIDTHS[d as int][k] == 'W' {
                seq![1u8, 1, 1, 0]
            } else {
                seq![1u8, 0]
            };
        let mut k: usize = 0;
        while k < 5
            invariant
                k <= 5,
                d < 10,
                widths == WIDTHS[d as int],
                f == (|k: int|
                    if WIDTHS[d as int][k] == 'W' {
                        seq![1u8, 1, 1, 0]
                    } else {
                        seq![1u8, 0]
                    }),
                into@ == start + concat_n(k as nat, f),
            decreases 5 - k,
        {
            let ghost before = into@;
            if widths[k] == 'W' {
                into.push(1);
                into.push(1);
                into.push(1);
                into.push(0);
            } else {
                into.push(1);
                into.push(0);
            }
            assert(into@ =~= before + f(k as int));
            k += 1;
        }
    }

    /// Appends one element of width `width`, made of `bar` modules.
    fn push_element(into: &mut Vec<u8>, width: char, bar: u8)
        ensures
            final(into)@ == old(into)@ + element(width, bar),
    {
        let ghost before = into@;
        if width == 'W' {
            into.push(bar);
            into.push(bar);
            into.push(bar);
        } else {
            into.push(bar);
        }
        assert(into@ =~= before + element(width, bar));
    }

    /// Appends the interleaving of the bar digit `bars` and the space digit `spaces`.
    fn interleave(into: &mut Vec<u8>, bars: u8, spaces: u8)
        requires
            bars < 10,
            spaces < 10,
        ensures
            final(into)@ == old(into)@ + interleaved_pair(bars, spaces),
    {
        let bwidths = WIDTHS[bars as usize];
        let swidths = WIDTHS[spaces as usize];
        let ghost start = into@;
        let ghost f = |k: int|
            element(WIDTHS[bars as int][k], 1) + element(WIDTHS[spaces as int][k], 0);
        let mut k: usize = 0;
        while k < 5
            invariant
                k <= 5,
                bars < 10,
                spaces < 10,
                bwidths == WIDTHS[bars as int],
                swidths == WIDTHS[spaces as int],
                f == (|k: int|
                    element(WIDTHS[bars as int][k], 1) + element(WIDTHS[spaces as int][k], 0)),
                into@ == start + concat_n(k as nat, f),
            decreases 5 - k,
        {
            let ghost before = into@;
            Self::push_element(into, bwidths[k], 1);
            Self::push_element(into, swidths[k], 0);
            assert(into@ =~= before + f(k as int));
            k += 1;
        }
    }

    fn stf_payload(digits: &Vec<u8>) -> (payload: Vec<u8>)
        requires
            standard_data(digits@),
        ensures
            payload@ == concat_n(digits@.len(), |i: int| standard_digit(digits@[i])),
    {
        let ghost f = |i: int| standard_digit(digits@[i]);
        let mut encodings: Vec<u8> = Vec::new();
        let mut i: usize = 0;
        while i < digits.len()
            invariant
                i <= digits@.len(),
                standard_data(digits@),
                f == (|i: int| standard_digit(digits@[i])),
                encodings@ == concat_n(i as nat, f),
            decreases digits@.len() - i,
        {
            Self::char_encoding(&mut encodings, digits[i]);
            i += 1;
        }
        encodings
    }

    fn itf_payload(digits: &Vec<u8>) -> (payload: Vec<u8>)
        requires
            interleaved_data(digits@),
        ensures
            payload@ == concat_n(
                digits@.len() / 2,
                |p: int| interleaved_pair(digits@[2 * p], digits@[2 * p + 1]),
            ),
    {
        let ghost f = |p: int| interleaved_pair(digits@[2 * p], digits@[2 * p + 1]);
        let pairs = digits.len() / 2;
        let mut weaves: Vec<u8> = Vec::new();
        let mut p: usize = 0;
        while p < pairs
            invariant
                p <= pairs,
                pairs == digits@.len() / 2,
                interleaved_data(digits@),
                f == (|p: int| interleaved_pair(digits@[2 * p], digits@[2 * p + 1])),
                weaves@ == concat_n(p as nat, f),
            decreases pairs - p,
        {
            Self::interleave(&mut weaves, digits[2 * p], digits[2 * p + 1]);
            p += 1;
        }
        weaves
    }

    /// Encodes the barcode into its binary modules.
    pub fn encode(&self) -> (modules: Vec<u8>)
        ensures
            modules@ == tf_modules(self.is_interleaved(), self@),
            is_binary(modules@),
            1 <= modules@.len() <= 5140,
    {
        let digits = self.raw_data();
        match self {
            TF::Standard(_) => {
                let payload = Self::stf_payload(digits);
                let modules = helpers::join_slices(&[&STF_START, payload.as_slice(), &STF_STOP]);
                proof {
                    reveal_with_fuel(helpers::joined, 4);
                    lemma_stf_modules_shape(self@);
                }
                modules
            },
            TF::Interleaved(_) => {
                let payload = Self::itf_payload(digits);
                let modules = helpers::join_slices(&[&ITF_START, payload.as_slice(), &ITF_STOP]);
                proof {
                    reveal_with_fuel(helpers::joined, 4);
                    lemma_itf_modules_shape(self@);
                }
                modules
            },
        }
    }
}

/// Concatenations of at most `k`-long binary pieces are binary and at most `n * k` long.
proof fn lemma_concat_bounded(n: nat, f: spec_fn(int) -> Seq<u8>, k: nat)
    requires
        forall|i: int| 0 <= i < n ==> is_binary(#[trigger] f(i)) && f(i).len() <= k,
    ensures
        is_binary(concat_n(n, f)),
        concat_n(n, f).len() <= n * k,
    decreases n,
{
    helpers::lemma_concat_n_binary(n, f);
    if n > 0 {
        lemma_concat_bounded((n - 1) as nat, f, k);
        assert(f(n - 1).len() <= k);
        assert((n - 1) * k + k == n * k) by (nonlinear_arith);
    } else {
        assert(n * k == 0) by (nonlinear_arith)
            requires
                n == 0,
        ;
    }
}

proof fn lemma_standard_digit_shape(d: u8)
    requires
        d < 10,
    ensures
        is_binary(standard_digit(d)),
        standard_digit(d).len() <= 20,
{
    let f = |k: int|
        if WIDTHS[d as int][k] == 'W' {
            seq![1u8, 1, 1, 0]
        } else {
            seq![1u8, 0]
        };
    assert forall|k: int| 0 <= k < 5 implies is_binary(#[trigger] f(k)) && f(k).len() <= 4 by {}
    lemma_concat_bounded(5, f, 4);
}

proof fn lemma_pair_shape(bars: u8, spaces: u8)
    requires
        bars < 10,
        spaces < 10,
    ensures
        is_binary(interleaved_pair(bars, spaces)),
        interleaved_pair(bars, spaces).len() <= 30,
{
    let f = |k: int| element(WIDTHS[bars as int][k], 1) + element(WIDTHS[spaces as int][k], 0);
    assert forall|k: int| 0 <= k < 5 implies is_binary(#[trigger] f(k)) && f(k).len() <= 6 by {
        helpers::lemma_add_binary(
            element(WIDTHS[bars as int][k], 1),
            element(WIDTHS[spaces as int][k], 0),
        );
    }
    lemma_concat_bounded(5, f, 6);
}

/// The standard 2-of-5 modules of valid digits are binary and at most 5140 long.
pub proof fn lemma_stf_modules_shape(d: Seq<u8>)
    requires
        standard_data(d),
    ensures
        is_binary(stf_modules(d)),
        1 <= stf_modules(d).len() <= 5140,
{
    let f = |i: int| standard_digit(d[i]);
    assert forall|i: int| 0 <= i < d.len() implies is_binary(#[trigger] f(i)) && f(i).len()
        <= 20 by {
        lemma_standard_digit_shape(d[i]);
    }
    lemma_concat_bounded(d.len(), f, 20);
    assert(d.len() * 20 <= 5120) by (nonlinear_arith)
        requires
            d.len() <= 256,
    ;
    assert(is_binary(STF_START@) && is_binary(STF_STOP@));
    helpers::lemma_add_binary(STF_START@, concat_n(d.len(), f));
    helpers::lemma_add_binary(STF_START@ + concat_n(d.len(), f), STF_STOP@);
}

/// The interleaved 2-of-5 modules of valid digits are binary and at most 5140 long.
pub proof fn lemma_itf_modules_shape(d: Seq<u8>)
    requires
        interleaved_data(d),
    ensures
        is_binary(itf_modules(d)),
        1 <= itf_modules(d).len() <= 5140,
{
    let f = |p: int| interleaved_pair(d[2 * p], d[2 * p + 1]);
    assert forall|p: int| 0 <= p < d.len() / 2 implies is_binary(#[trigger] f(p)) && f(p).len()
        <= 30 by {
        lemma_pair_shape(d[2 * p], d[2 * p + 1]);
    }
    lemma_concat_bounded(d.len() / 2, f, 30);
    assert((d.len() / 2) * 30 <= 3840) by (nonlinear_arith)
        requires
            d.len() <= 256,
    ;
    assert(is_binary(ITF_START@) && is_binary(ITF_STOP@));
    helpers::lemma_add_binary(ITF_START@, concat_n(d.len() / 2, f));
    helpers::lemma_add_binary(ITF_START@ + concat_n(d.len() / 2, f), ITF_STOP@);
}

/// An interleaved text of odd length is the same barcode as the text followed by its check
/// digit: the check digit may be given or left out.
pub proof fn lemma_itf_check_digit_optional(s: Seq<char>)
    requires
        s.len() % 2 == 1,
        spec_itf_new(s) is Ok,
    ensures
        spec_itf_new(
            s.push(
                crate::text::digit_char(
                    helpers::spec_modulo_10_checksum(
                        s.map_values(|c: char| helpers::digit_value(c)),
                        false,
                    ) as nat,
                ),
            ),
        ) == spec_itf_new(s),
{
    crate::sym::lemma_decimal_input(s, 1, 256);
    let digits = s.map_values(|c: char| helpers::digit_value(c));
    let check = helpers::spec_modulo_10_checksum(digits, false);
    helpers::lemma_modulo_10_checksum_digit(digits, false);
    crate::sym::lemma_digit_char_value(check as nat);
    let t = s.push(crate::text::digit_char(check as nat));
    assert forall|j: int| 0 <= j < t.len() implies helpers::is_decimal(#[trigger] t[j]) by {
        if j < s.len() {
            assert(t[j] == s[j]);
        }
    }
    crate::sym::lemma_decimal_accepted(t, 1, 256);
    assert(t.map_values(|c: char| helpers::digit_value(c)) =~= digits.push(check));
}

} // verus!
