//! Encoder for EAN-8 barcodes.
//!
//! EAN-8 barcodes are EAN style barcodes for smaller packages on products like cigarettes,
//! chewing gum, etc. where package space is limited.

use crate::error::{Error, Result};
use crate::sym::ean13::{
    digit_run, digits_of_len, encode_digits, lemma_digit_run_shape, lemma_guards_binary,
    lemma_patterns_binary, pattern, ENCODINGS, LEFT_GUARD, MIDDLE_GUARD, RIGHT_GUARD,
};
use crate::sym::helpers::{self, is_binary};
use crate::sym::{parse_input, spec_parse_input, Charset};
use vstd::prelude::*;

verus! {

/// The EAN-8 barcode type: the seven data digits, the check digit being computed.
#[derive(Debug)]
pub struct EAN8(Vec<u8>);

impl View for EAN8 {
    type V = Seq<u8>;

    closed spec fn view(&self) -> Seq<u8> {
        self.0@
    }
}

/// What [`EAN8::new`] gives for the text `s`: seven digits, optionally followed by a check
/// digit that must match the computed one.
pub open spec fn spec_ean8_new(s: Seq<char>) -> core::result::Result<Seq<u8>, Error> {
    match spec_parse_input(s, 7, 8, Charset::Decimal) {
        Err(e) => Err(e),
        Ok(_) => {
            let digits = s.map_values(|c: char| helpers::digit_value(c));
            let body = digits.take(7);
            let check = helpers::spec_modulo_10_checksum(body, false);
            if digits.len() == 8 && digits[7] != check {
                Err(Error::Checksum { expected: check, found: digits[7] })
            } else {
                Ok(body)
            }
        },
    }
}

/// The modules of the EAN-8 barcode of the seven digits `d`: two number-system digits and
/// two data digits on the left (table A), three data digits and the check digit on the right.
pub open spec fn ean8_modules(d: Seq<u8>) -> Seq<u8> {
    LEFT_GUARD@ + digit_run(0, d, 0, 2) + digit_run(0, d, 2, 2) + MIDDLE_GUARD@ + digit_run(
        2,
        d,
        4,
        3,
    ) + pattern(2, helpers::spec_modulo_10_checksum(d, false)) + RIGHT_GUARD@
}

/// Copies the first `n` elements of `digits`.
pub fn take_digits(digits: &Vec<u8>, n: usize) -> (prefix: Vec<u8>)
    requires
        n <= digits@.len(),
    ensures
        prefix@ == digits@.take(n as int),
{
    let mut out: Vec<u8> = Vec::new();
    let mut i: usize = 0;
    while i < n
        invariant
            i <= n,
            n <= digits@.len(),
            out@ == digits@.take(i as int),
        decreases n - i,
    {
        out.push(digits[i]);
        assert(out@ =~= digits@.take(i + 1));
        i += 1;
    }
    out
}

impl EAN8 {
    #[verifier::type_invariant]
    spec fn well_formed(self) -> bool {
        digits_of_len(self.0@, 7)
    }

    /// Creates a new barcode from seven digits, or eight when the check digit is given.
    pub fn new(data: &str) -> (barcode: Result<EAN8>)
        ensures
            crate::error::result_view(barcode) == spec_ean8_new(data@),
    {
        let _chars = parse_input(data, 7, 8, Charset::Decimal)?;
        proof {
            crate::sym::lemma_decimal_input(data@, 7, 8);
        }
        let digits = helpers::parse_digits(data)?;
        let body = take_digits(&digits, 7);
        proof {
            assert forall|j: int| 0 <= j < body@.len() implies #[trigger] body@[j] < 10 by {
                assert(helpers::is_decimal(data@[j]));
            }
        }
        let ean8 = EAN8(body);
        let checksum = ean8.checksum_digit();
        if digits.len() == 8 && digits[7] != checksum {
            return Err(Error::Checksum { expected: checksum, found: digits[7] });
        }
        Ok(ean8)
    }

    /// The modulo-10 check digit of the seven digits.
    fn checksum_digit(&self) -> (checksum: u8)
        ensures
            checksum == helpers::spec_modulo_10_checksum(self@, false),
            checksum < 10,
    {
        helpers::modulo_10_checksum(self.0.as_slice(), false)
    }

    /// Encodes the barcode into its 67 binary modules.
    pub fn encode(&self) -> (modules: Vec<u8>)
        ensures
            modules@ == ean8_modules(self@),
            is_binary(modules@),
            modules@.len() == 67,
    {
        proof {
            use_type_invariant(self);
        }
        let number_system = encode_digits(0, &self.0, 0, 2);
        let left_payload = encode_digits(0, &self.0, 2, 2);
        let right_payload = encode_digits(2, &self.0, 4, 3);
        let checksum = ENCODINGS[2][self.checksum_digit() as usize];
        let modules = helpers::join_slices(
            &[
                &LEFT_GUARD,
                number_system.as_slice(),
                left_payload.as_slice(),
                &MIDDLE_GUARD,
                right_payload.as_slice(),
                &checksum,
                &RIGHT_GUARD,
            ],
        );
        proof {
            reveal_with_fuel(helpers::joined, 8);
            lemma_ean8_modules_shape(self@);
        }
        modules
    }
}

/// The EAN-8 modules of valid digits are binary and 67 long.
pub proof fn lemma_ean8_modules_shape(d: Seq<u8>)
    requires
        digits_of_len(d, 7),
    ensures
        is_binary(ean8_modules(d)),
        ean8_modules(d).len() == 67,
{
    let c = helpers::spec_modulo_10_checksum(d, false);
    lemma_digit_run_shape(0, d, 0, 2);
    lemma_digit_run_shape(0, d, 2, 2);
    lemma_digit_run_shape(2, d, 4, 3);
    lemma_patterns_binary(2, c);
    lemma_guards_binary();
    let a = LEFT_GUARD@ + digit_run(0, d, 0, 2);
    helpers::lemma_add_binary(LEFT_GUARD@, digit_run(0, d, 0, 2));
    helpers::lemma_add_binary(a, digit_run(0, d, 2, 2));
    let b = a + digit_run(0, d, 2, 2);
    helpers::lemma_add_binary(b, MIDDLE_GUARD@);
    helpers::lemma_add_binary(b + MIDDLE_GUARD@, digit_run(2, d, 4, 3));
    let e = b + MIDDLE_GUARD@ + digit_run(2, d, 4, 3);
    helpers::lemma_add_binary(e, pattern(2, c));
    helpers::lemma_add_binary(e + pattern(2, c), RIGHT_GUARD@);
}

/// The check digit may be given or left out: a valid 7-digit text followed by its check
/// digit is the same barcode as the text alone.
pub proof fn lemma_ean8_check_digit_optional(s: Seq<char>)
    requires
        s.len() == 7,
        spec_ean8_new(s) is Ok,
    ensures
        spec_ean8_new(
            s.push(
                crate::text::digit_char(
                    helpers::spec_modulo_10_checksum(
                        s.map_values(|c: char| helpers::digit_value(c)),
                        false,
                    ) as nat,
                ),
            ),
        ) == spec_ean8_new(s),
{
    crate::sym::lemma_decimal_input(s, 7, 8);
    let digits = s.map_values(|c: char| helpers::digit_value(c));
    assert(digits.take(7) =~= digits);
    crate::sym::lemma_check_digit_appended(s, 7, false);
}

} // verus!
