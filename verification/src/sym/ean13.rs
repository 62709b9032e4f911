//! Encoder for EAN-13 barcodes (and its variants Bookland and JAN).
//!
//! EAN-13 barcodes are very common in retail: around 90% of the products bought in a
//! supermarket carry one.

use crate::error::{Error, Result};
use crate::sym::helpers::{self, concat_n, is_binary};
use crate::sym::{parse_input, spec_parse_input, Charset};
use vstd::prelude::*;

verus! {

/// Encodings of the EAN digits; `1` is a bar and `0` a space.
///
/// The three tables are:
/// * Left side A (odd parity).
/// * Left side B (even parity).
/// * Right side.
pub const ENCODINGS: [[[u8; 7]; 10]; 3] = [
    [
        [0, 0, 0, 1, 1, 0, 1],
        [0, 0, 1, 1, 0, 0, 1],
        [0, 0, 1, 0, 0, 1, 1],
        [0, 1, 1, 1, 1, 0, 1],
        [0, 1, 0, 0, 0, 1, 1],
        [0, 1, 1, 0, 0, 0, 1],
        [0, 1, 0, 1, 1, 1, 1],
        [0, 1, 1, 1, 0, 1, 1],
        [0, 1, 1, 0, 1, 1, 1],
        [0, 0, 0, 1, 0, 1, 1],
    ],
    [
        [0, 1, 0, 0, 1, 1, 1],
        [0, 1, 1, 0, 0, 1, 1],
        [0, 0, 1, 1, 0, 1, 1],
        [0, 1, 0, 0, 0, 0, 1],
        [0, 0, 1, 1, 1, 0, 1],
        [0, 1, 1, 1, 0, 0, 1],
        [0, 0, 0, 0, 1, 0, 1],
        [0, 0, 1, 0, 0, 0, 1],
        [0, 0, 0, 1, 0, 0, 1],
        [0, 0, 1, 0, 1, 1, 1],
    ],
    [
        [1, 1, 1, 0, 0, 1, 0],
        [1, 1, 0, 0, 1, 1, 0],
        [1, 1, 0, 1, 1, 0, 0],
        [1, 0, 0, 0, 0, 1, 0],
        [1, 0, 1, 1, 1, 0, 0],
        [1, 0, 0, 1, 1, 1, 0],
        [1, 0, 1, 0, 0, 0, 0],
        [1, 0, 0, 0, 1, 0, 0],
        [1, 0, 0, 1, 0, 0, 0],
        [1, 1, 1, 0, 1, 0, 0],
    ],
];

/// Parity (odd table A = 0, even table B = 1) of the five left-hand digits, chosen by the
/// first digit of the number system.
pub const PARITY: [[usize; 5]; 10] = [
    [0, 0, 0, 0, 0],
    [0, 1, 0, 1, 1],
    [0, 1, 1, 0, 1],
    [0, 1, 1, 1, 0],
    [1, 0, 0, 1, 1],
    [1, 1, 0, 0, 1],
    [1, 1, 1, 0, 0],
    [1, 0, 1, 0, 1],
    [1, 0, 1, 1, 0],
    [1, 1, 0, 1, 0],
];

/// Left guard pattern.
pub const LEFT_GUARD: [u8; 3] = [1, 0, 1];
/// Middle guard pattern.
pub const MIDDLE_GUARD: [u8; 5] = [0, 1, 0, 1, 0];
/// Right guard pattern.
pub const RIGHT_GUARD: [u8; 3] = [1, 0, 1];

/// The modules of digit `d` in table `side` of [`ENCODINGS`].
pub open spec fn pattern(side: int, d: u8) -> Seq<u8> {
    ENCODINGS[side][d as int]@
}

/// Every entry of [`ENCODINGS`] has seven binary modules.
pub proof fn lemma_patterns_binary(side: int, d: u8)
    requires
        0 <= side < 3,
        d < 10,
    ensures
        is_binary(pattern(side, d)),
        pattern(side, d).len() == 7,
{
    assert(is_binary(ENCODINGS[side][d as int]@));
}

/// The guard patterns are binary.
pub proof fn lemma_guards_binary()
    ensures
        is_binary(LEFT_GUARD@),
        is_binary(MIDDLE_GUARD@),
        is_binary(RIGHT_GUARD@),
{
}


/// The modules of `count` digits of `digits`, from position `start`, all in table `side`.
pub open spec fn digit_run(side: int, digits: Seq<u8>, start: int, count: nat) -> Seq<u8> {
    concat_n(count, |i: int| pattern(side, digits[start + i]))
}

/// Encodes `count` digits of `digits`, from position `start`, all in table `side`.
pub fn encode_digits(side: usize, digits: &Vec<u8>, start: usize, count: usize) -> (modules: Vec<u8>)
    requires
        side < 3,
        start + count <= digits@.len(),
        forall|i: int| start <= i < start + count ==> #[trigger] digits@[i] < 10,
    ensures
        modules@ == digit_run(side as int, digits@, start as int, count as nat),
{
    let ghost f = |i: int| pattern(side as int, digits@[start + i]);
    let mut out: Vec<u8> = Vec::new();
    let mut i: usize = 0;
    while i < count
        invariant
            i <= count,
            side < 3,
            start + count <= digits@.len(),
            forall|i: int| start <= i < start + count ==> #[trigger] digits@[i] < 10,
            f == (|i: int| pattern(side as int, digits@[start + i])),
            out@ == concat_n(i as nat, f),
        decreases count - i,
    {
        let _n = digits.len();
        let d = digits[start + i];
        out.extend_from_slice(&ENCODINGS[side][d as usize]);
        i += 1;
    }
    out
}

/// The modules of `digit_run` are binary, seven per digit.
pub proof fn lemma_digit_run_shape(side: int, digits: Seq<u8>, start: int, count: nat)
    requires
        0 <= side < 3,
        0 <= start,
        start + count <= digits.len(),
        forall|i: int| start <= i < start + count ==> #[trigger] digits[i] < 10,
    ensures
        is_binary(digit_run(side, digits, start, count)),
        digit_run(side, digits, start, count).len() == 7 * count,
{
    let f = |i: int| pattern(side, digits[start + i]);
    assert forall|i: int| 0 <= i < count implies is_binary(#[trigger] f(i)) && f(i).len() == 7 by {
        assert(digits[start + i] < 10);
        lemma_patterns_binary(side, digits[start + i]);
    }
    helpers::lemma_concat_n_binary(count, f);
    helpers::lemma_concat_n_len(count, f, 7);
}

/// The EAN-13 barcode type: the twelve data digits, the check digit being computed.
#[derive(Debug, PartialEq, Eq)]
pub struct EAN13(Vec<u8>);

impl Clone for EAN13 {
    fn clone(&self) -> (copy: Self)
        ensures
            copy@ == self@,
    {
        proof {
            use_type_invariant(self);
        }
        let digits = self.0.clone();
        assert(digits@ =~= self.0@);
        EAN13(digits)
    }
}

/// Bookland barcodes are EAN-13 barcodes of the number system 978.
pub type Bookland = EAN13;

/// JAN barcodes are EAN-13 barcodes of the number system 49.
pub type JAN = EAN13;

impl View for EAN13 {
    type V = Seq<u8>;

    closed spec fn view(&self) -> Seq<u8> {
        self.0@
    }
}

/// `d` is a sequence of `n` decimal digits.
pub open spec fn digits_of_len(d: Seq<u8>, n: nat) -> bool {
    d.len() == n && forall|i: int| 0 <= i < d.len() ==> #[trigger] d[i] < 10
}

/// What [`EAN13::new`] gives for the text `s`: twelve digits, optionally followed by a check
/// digit that must match the computed one.
pub open spec fn spec_ean13_new(s: Seq<char>) -> core::result::Result<Seq<u8>, Error> {
    match spec_parse_input(s, 12, 13, Charset::Decimal) {
        Err(e) => Err(e),
        Ok(_) => {
            let digits = s.map_values(|c: char| helpers::digit_value(c));
            let body = digits.take(12);
            let check = helpers::spec_modulo_10_checksum(body, true);
            if digits.len() == 13 && digits[12] != check {
                Err(Error::Checksum { expected: check, found: digits[12] })
            } else {
                Ok(body)
            }
        },
    }
}

/// The five left-hand digits, each in the table that the first digit's parity row selects.
pub open spec fn ean13_left(d: Seq<u8>) -> Seq<u8> {
    concat_n(5, |i: int| pattern(PARITY[d[0] as int][i] as int, d[2 + i]))
}

/// The five right-hand data digits, in the right-side table.
pub open spec fn ean13_right(d: Seq<u8>) -> Seq<u8> {
    digit_run(2, d, 7, 5)
}

/// The modules of the EAN-13 barcode of the twelve digits `d`.
pub open spec fn ean13_modules(d: Seq<u8>) -> Seq<u8> {
    LEFT_GUARD@ + pattern(0, d[1]) + ean13_left(d) + MIDDLE_GUARD@ + ean13_right(d) + pattern(
        2,
        helpers::spec_modulo_10_checksum(d, true),
    ) + RIGHT_GUARD@
}

impl EAN13 {
    #[verifier::type_invariant]
    spec fn well_formed(self) -> bool {
        digits_of_len(self.0@, 12)
    }

    /// Creates a new barcode from twelve digits, or thirteen when the check digit is given.
    pub fn new(data: &str) -> (barcode: Result<EAN13>)
        ensures
            crate::error::result_view(barcode) == spec_ean13_new(data@),
    {
        let _chars = parse_input(data, 12, 13, Charset::Decimal)?;
        proof {
            crate::sym::lemma_decimal_input(data@, 12, 13);
        }
        let digits = helpers::parse_digits(data)?;
        let mut body: Vec<u8> = Vec::new();
        let mut i: usize = 0;
        while i < 12
            invariant
                i <= 12,
                digits@.len() >= 12,
                digits@ == data@.map_values(|c: char| helpers::digit_value(c)),
                forall|j: int| 0 <= j < data@.len() ==> helpers::is_decimal(#[trigger] data@[j]),
                body@ == digits@.take(i as int),
            decreases 12 - i,
        {
            body.push(digits[i]);
            assert(body@ =~= digits@.take(i + 1));
            i += 1;
        }
        proof {
            assert forall|j: int| 0 <= j < body@.len() implies #[trigger] body@[j] < 10 by {
                assert(helpers::is_decimal(data@[j]));
            }
        }
        let ean13 = EAN13(body);
        let checksum = ean13.checksum_digit();
        if digits.len() == 13 && digits[12] != checksum {
            return Err(Error::Checksum { expected: checksum, found: digits[12] });
        }
        Ok(ean13)
    }

    /// The modulo-10 check digit of the twelve digits.
    fn checksum_digit(&self) -> (checksum: u8)
        ensures
            checksum == helpers::spec_modulo_10_checksum(self@, true),
            checksum < 10,
    {
        helpers::modulo_10_checksum(self.0.as_slice(), true)
    }

    fn left_payload(&self) -> (payload: Vec<u8>)
        ensures
            payload@ == ean13_left(self@),
    {
        proof {
            use_type_invariant(self);
        }
        let first = self.0[0] as usize;
        let parity = PARITY[first];
        let ghost f = |i: int| pattern(PARITY[self@[0] as int][i] as int, self@[2 + i]);
        let mut out: Vec<u8> = Vec::new();
        let mut i: usize = 0;
        while i < 5
            invariant
                i <= 5,
                digits_of_len(self@, 12),
                parity == PARITY[self@[0] as int],
                f == (|i: int| pattern(PARITY[self@[0] as int][i] as int, self@[2 + i])),
                out@ == concat_n(i as nat, f),
            decreases 5 - i,
        {
            let side = parity[i];
            assert(side < 2) by {
                assert(forall|a: int, b: int| 0 <= a < 10 && 0 <= b < 5 ==> PARITY[a][b] < 2);
            }
            let d = self.0[2 + i];
            out.extend_from_slice(&ENCODINGS[side][d as usize]);
            i += 1;
        }
        out
    }

    fn right_payload(&self) -> (payload: Vec<u8>)
        ensures
            payload@ == ean13_right(self@),
    {
        proof {
            use_type_invariant(self);
        }
        encode_digits(2, &self.0, 7, 5)
    }

    /// Encodes the barcode into its 95 binary modules.
    pub fn encode(&self) -> (modules: Vec<u8>)
        ensures
            modules@ == ean13_modules(self@),
            is_binary(modules@),
            modules@.len() == 95,
    {
        proof {
            use_type_invariant(self);
        }
        let number_system = ENCODINGS[0][self.0[1] as usize];
        let left_payload = self.left_payload();
        let right_payload = self.right_payload();
        let checksum = ENCODINGS[2][self.checksum_digit() as usize];
        let modules = helpers::join_slices(
            &[
                &LEFT_GUARD,
                &number_system,
                left_payload.as_slice(),
                &MIDDLE_GUARD,
                right_payload.as_slice(),
                &checksum,
                &RIGHT_GUARD,
            ],
        );
        proof {
            reveal_with_fuel(helpers::joined, 8);
            lemma_ean13_modules_shape(self@);
        }
        modules
    }
}

/// The EAN-13 modules of valid digits are binary and 95 long.
pub proof fn lemma_ean13_modules_shape(d: Seq<u8>)
    requires
        digits_of_len(d, 12),
    ensures
        is_binary(ean13_modules(d)),
        ean13_modules(d).len() == 95,
{
    let fl = |i: int| pattern(PARITY[d[0] as int][i] as int, d[2 + i]);
    assert forall|i: int| 0 <= i < 5 implies is_binary(#[trigger] fl(i)) && fl(i).len() == 7 by {
        assert(forall|a: int, b: int| 0 <= a < 10 && 0 <= b < 5 ==> PARITY[a][b] < 2);
        lemma_patterns_binary(PARITY[d[0] as int][i] as int, d[2 + i]);
    }
    helpers::lemma_concat_n_binary(5, fl);
    helpers::lemma_concat_n_len(5, fl, 7);
    lemma_digit_run_shape(2, d, 7, 5);
    let c = helpers::spec_modulo_10_checksum(d, true);
    helpers::lemma_modulo_10_checksum_digit(d, true);
    lemma_patterns_binary(0, d[1]);
    lemma_patterns_binary(2, c);
    lemma_guards_binary();
    let parts = LEFT_GUARD@ + pattern(0, d[1]);
    helpers::lemma_add_binary(LEFT_GUARD@, pattern(0, d[1]));
    helpers::lemma_add_binary(parts, ean13_left(d));
    helpers::lemma_add_binary(parts + ean13_left(d), MIDDLE_GUARD@);
    helpers::lemma_add_binary(parts + ean13_left(d) + MIDDLE_GUARD@, ean13_right(d));
    helpers::lemma_add_binary(parts + ean13_left(d) + MIDDLE_GUARD@ + ean13_right(d), pattern(2, c));
    helpers::lemma_add_binary(
        parts + ean13_left(d) + MIDDLE_GUARD@ + ean13_right(d) + pattern(2, c),
        RIGHT_GUARD@,
    );
}

/// The check digit may be given or left out: a valid 12-digit text followed by its check
/// digit is the same barcode as the text alone.
pub proof fn lemma_ean13_check_digit_optional(s: Seq<char>)
    requires
        s.len() == 12,
        spec_ean13_new(s) is Ok,
    ensures
        spec_ean13_new(
            s.push(
                crate::text::digit_char(
                    helpers::spec_modulo_10_checksum(
                        s.map_values(|c: char| helpers::digit_value(c)),
                        true,
                    ) as nat,
                ),
            ),
        ) == spec_ean13_new(s),
{
    crate::sym::lemma_decimal_input(s, 12, 13);
    let digits = s.map_values(|c: char| helpers::digit_value(c));
    assert(digits.take(12) =~= digits);
    crate::sym::lemma_check_digit_appended(s, 12, true);
}

/// A thirteenth digit other than the check digit is refused, naming both digits.
pub proof fn lemma_ean13_wrong_check_digit(s: Seq<char>, found: u8)
    requires
        s.len() == 12,
        spec_ean13_new(s) is Ok,
        found < 10,
        found != helpers::spec_modulo_10_checksum(
            s.map_values(|c: char| helpers::digit_value(c)),
            true,
        ),
    ensures
        spec_ean13_new(s.push(crate::text::digit_char(found as nat))) == Err::<Seq<u8>, Error>(
            Error::Checksum {
                expected: helpers::spec_modulo_10_checksum(
                    s.map_values(|c: char| helpers::digit_value(c)),
                    true,
                ),
                found,
            },
        ),
{
    crate::sym::lemma_decimal_input(s, 12, 13);
    let digits = s.map_values(|c: char| helpers::digit_value(c));
    crate::sym::lemma_digit_char_value(found as nat);
    let t = s.push(crate::text::digit_char(found as nat));
    assert forall|j: int| 0 <= j < t.len() implies helpers::is_decimal(#[trigger] t[j]) by {
        if j < s.len() {
            assert(t[j] == s[j]);
        }
    }
    crate::sym::lemma_decimal_accepted(t, 12, 13);
    let t_digits = t.map_values(|c: char| helpers::digit_value(c));
    assert(t_digits.take(12) =~= digits);
    assert(t_digits[12] == found);
}

/// Twelve decimal digits are always accepted.
pub proof fn lemma_ean13_twelve_digits_accepted(s: Seq<char>)
    requires
        s.len() == 12,
        forall|j: int| 0 <= j < s.len() ==> helpers::is_decimal(#[trigger] s[j]),
    ensures
        spec_ean13_new(s) is Ok,
{
    crate::sym::lemma_decimal_accepted(s, 12, 13);
}

} // verus!
