//! Encoder for UPC-A barcodes.
//!
//! UPC-A barcodes are common in the retail sector in the USA.

use crate::error::{Error, Result};
use crate::sym::ean13::digits_of_len;
use crate::sym::ean8::take_digits;
use crate::sym::helpers::{self, concat_n, is_binary};
use crate::sym::{parse_input, spec_parse_input, Charset};
use vstd::prelude::*;

verus! {

/// Encodings of the UPC digits; `1` is a bar and `0` a space.
///
/// The two tables are:
/// * Left side.
/// * Right side.
pub const ENCODINGS: [[[u8; 7]; 10]; 2] = [
    [
        [0, 0, 0, 1, 1, 0, 1],
        [0, 0, 1, 1, 0, 0, 1],
        [0, 0, 1, 0, 0, 1, 1],
        [0, 1, 1, 1, 1, 0, 1],
        [0, 1, 0, 0, 0, 1, 1],
        [0, 1, 1, 0, 0, 0, 1],
        [0, 1, 0, 1, 1, 1, 1],
        [0, 1, 1, 1, 0, 1, 1],
        [0, 1, 1, 0, 1, 1, 1],
        [0, 0, 0, 1, 0, 1, 1],
    ],
    [
        [1, 1, 1, 0, 0, 1, 0],
        [1, 1, 0, 0, 1, 1, 0],
        [1, 1, 0, 1, 1, 0, 0],
        [1, 0, 0, 0, 0, 1, 0],
        [1, 0, 1, 1, 1, 0, 0],
        [1, 0, 0, 1, 1, 1, 0],
        [1, 0, 1, 0, 0, 0, 0],
        [1, 0, 0, 0, 1, 0, 0],
        [1, 0, 0, 1, 0, 0, 0],
        [1, 1, 1, 0, 1, 0, 0],
    ],
];

/// Left guard pattern.
pub const LEFT_GUARD: [u8; 3] = [1, 0, 1];
/// Middle guard pattern.
pub const MIDDLE_GUARD: [u8; 5] = [0, 1, 0, 1, 0];
/// Right guard pattern.
pub const RIGHT_GUARD: [u8; 3] = [1, 0, 1];

/// The modules of digit `d` in table `side` of [`ENCODINGS`].
pub open spec fn upc_pattern(side: int, d: u8) -> Seq<u8> {
    ENCODINGS[side][d as int]@
}

/// The modules of `count` digits of `digits`, from position `start`, all in table `side`.
pub open spec fn upc_run(side: int, digits: Seq<u8>, start: int, count: nat) -> Seq<u8> {
    concat_n(count, |i: int| upc_pattern(side, digits[start + i]))
}

/// The UPC-A barcode type: the eleven data digits, the check digit being computed.
#[derive(Debug, PartialEq, Eq)]
pub struct UPCA(Vec<u8>);

impl View for UPCA {
    type V = Seq<u8>;

    closed spec fn view(&self) -> Seq<u8> {
        self.0@
    }
}

impl Clone for UPCA {
    fn clone(&self) -> (copy: Self)
        ensures
            copy@ == self@,
    {
        proof {
            use_type_invariant(self);
        }
        let digits = self.0.clone();
        assert(digits@ =~= self.0@);
        UPCA(digits)
    }
}

/// What [`UPCA::new`] gives for the text `s`: eleven digits, optionally followed by a check
/// digit that must match the computed one.
pub open spec fn spec_upca_new(s: Seq<char>) -> core::result::Result<Seq<u8>, Error> {
    match spec_parse_input(s, 11, 12, Charset::Decimal) {
        Err(e) => Err(e),
        Ok(_) => {
            let digits = s.map_values(|c: char| helpers::digit_value(c));
            let body = digits.take(11);
            let check = helpers::spec_modulo_10_checksum(body, false);
            if digits.len() == 12 && digits[11] != check {
                Err(Error::Checksum { expected: check, found: digits[11] })
            } else {
                Ok(body)
            }
        },
    }
}

/// The modules of the UPC-A barcode of the eleven digits `d`: six digits on the left, five
/// digits and the check digit on the right.
pub open spec fn upca_modules(d: Seq<u8>) -> Seq<u8> {
    LEFT_GUARD@ + upc_run(0, d, 0, 6) + MIDDLE_GUARD@ + upc_run(1, d, 6, 5) + upc_pattern(
        1,
        helpers::spec_modulo_10_checksum(d, false),
    ) + RIGHT_GUARD@
}

fn encode_upc_digits(side: usize, digits: &Vec<u8>, start: usize, count: usize) -> (modules: Vec<u8>)
    requires
        side < 2,
        start + count <= digits@.len(),
        forall|i: int| start <= i < start + count ==> #[trigger] digits@[i] < 10,
    ensures
        modules@ == upc_run(side as int, digits@, start as int, count as nat),
{
    let ghost f = |i: int| upc_pattern(side as int, digits@[start + i]);
    let mut out: Vec<u8> = Vec::new();
    let mut i: usize = 0;
    while i < count
        invariant
            i <= count,
            side < 2,
            start + count <= digits@.len(),
            forall|i: int| start <= i < start + count ==> #[trigger] digits@[i] < 10,
            f == (|i: int| upc_pattern(side as int, digits@[start + i])),
            out@ == concat_n(i as nat, f),
        decreases count - i,
    {
        let _n = digits.len();
        let d = digits[start + i];
        out.extend_from_slice(&ENCODINGS[side][d as usize]);
        i += 1;
    }
    out
}

proof fn lemma_upc_run_shape(side: int, digits: Seq<u8>, start: int, count: nat)
    requires
        0 <= side < 2,
        0 <= start,
        start + count <= digits.len(),
        forall|i: int| start <= i < start + count ==> #[trigger] digits[i] < 10,
    ensures
        is_binary(upc_run(side, digits, start, count)),
        upc_run(side, digits, start, count).len() == 7 * count,
{
    let f = |i: int| upc_pattern(side, digits[start + i]);
    assert forall|i: int| 0 <= i < count implies is_binary(#[trigger] f(i)) && f(i).len() == 7 by {
        assert(digits[start + i] < 10);
        assert(is_binary(ENCODINGS[side][digits[start + i] as int]@));
    }
    helpers::lemma_concat_n_binary(count, f);
    helpers::lemma_concat_n_len(count, f, 7);
}

impl UPCA {
    #[verifier::type_invariant]
    spec fn well_formed(self) -> bool {
        digits_of_len(self.0@, 11)
    }

    /// Creates a new barcode from eleven digits, or twelve when the check digit is given.
    pub fn new(data: &str) -> (barcode: Result<UPCA>)
        ensures
            crate::error::result_view(barcode) == spec_upca_new(data@),
    {
        let _chars = parse_input(data, 11, 12, Charset::Decimal)?;
        proof {
            crate::sym::lemma_decimal_input(data@, 11, 12);
        }
        let digits = helpers::parse_digits(data)?;
        let body = take_digits(&digits, 11);
        proof {
            assert forall|j: int| 0 <= j < body@.len() implies #[trigger] body@[j] < 10 by {
                assert(helpers::is_decimal(data@[j]));
            }
        }
        let upca = UPCA(body);
        let checksum = upca.checksum_digit();
        if digits.len() == 12 && digits[11] != checksum {
            return Err(Error::Checksum { expected: checksum, found: digits[11] });
        }
        Ok(upca)
    }

    /// The modulo-10 check digit of the eleven digits.
    fn checksum_digit(&self) -> (checksum: u8)
        ensures
            checksum == helpers::spec_modulo_10_checksum(self@, false),
            checksum < 10,
    {
        helpers::modulo_10_checksum(self.0.as_slice(), false)
    }

    /// Encodes the barcode into its 95 binary modules.
    pub fn encode(&self) -> (modules: Vec<u8>)
        ensures
            modules@ == upca_modules(self@),
            is_binary(modules@),
            modules@.len() == 95,
    {
        proof {
            use_type_invariant(self);
        }
        let left_payload = encode_upc_digits(0, &self.0, 0, 6);
        let right_payload = encode_upc_digits(1, &self.0, 6, 5);
        let checksum = ENCODINGS[1][self.checksum_digit() as usize];
        let modules = helpers::join_slices(
            &[
                &LEFT_GUARD,
                left_payload.as_slice(),
                &MIDDLE_GUARD,
                right_payload.as_slice(),
                &checksum,
                &RIGHT_GUARD,
            ],
        );
        proof {
            reveal_with_fuel(helpers::joined, 7);
            lemma_upca_modules_shape(self@);
        }
        modules
    }
}

/// The UPC-A modules of valid digits are binary and 95 long.
pub proof fn lemma_upca_modules_shape(d: Seq<u8>)
    requires
        digits_of_len(d, 11),
    ensures
        is_binary(upca_modules(d)),
        upca_modules(d).len() == 95,
{
    let c = helpers::spec_modulo_10_checksum(d, false);
    lemma_upc_run_shape(0, d, 0, 6);
    lemma_upc_run_shape(1, d, 6, 5);
    assert(is_binary(upc_pattern(1, c)) && upc_pattern(1, c).len() == 7) by {
        assert(is_binary(ENCODINGS[1][c as int]@));
    }
    assert(is_binary(LEFT_GUARD@) && is_binary(MIDDLE_GUARD@) && is_binary(RIGHT_GUARD@));
    let a = LEFT_GUARD@ + upc_run(0, d, 0, 6);
    helpers::lemma_add_binary(LEFT_GUARD@, upc_run(0, d, 0, 6));
    helpers::lemma_add_binary(a, MIDDLE_GUARD@);
    helpers::lemma_add_binary(a + MIDDLE_GUARD@, upc_run(1, d, 6, 5));
    let b = a + MIDDLE_GUARD@ + upc_run(1, d, 6, 5);
    helpers::lemma_add_binary(b, upc_pattern(1, c));
    helpers::lemma_add_binary(b + upc_pattern(1, c), RIGHT_GUARD@);
}

/// The check digit may be given or left out: a valid 11-digit text followed by its check
/// digit is the same barcode as the text alone.
pub proof fn lemma_upca_check_digit_optional(s: Seq<char>)
    requires
        s.len() == 11,
        spec_upca_new(s) is Ok,
    ensures
        spec_upca_new(
            s.push(
                crate::text::digit_char(
                    helpers::spec_modulo_10_checksum(
                        s.map_values(|c: char| helpers::digit_value(c)),
                        false,
                    ) as nat,
                ),
            ),
        ) == spec_upca_new(s),
{
    crate::sym::lemma_decimal_input(s, 11, 12);
    let digits = s.map_values(|c: char| helpers::digit_value(c));
    assert(digits.take(11) =~= digits);
    crate::sym::lemma_check_digit_appended(s, 11, false);
}

} // verus!
