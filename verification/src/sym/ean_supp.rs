//! Encoders for the two- and five-digit supplemental EAN barcodes.
//!
//! EAN-2 barcodes carry the issue number of magazines and newspapers.
//!
//! EAN-5 barcodes mostly carry the suggested retail price of books.
//!
//! These supplements are never used without a full EAN-13 barcode beside them.

use crate::error::{Error, Result};
use crate::sym::ean13::{digits_of_len, lemma_patterns_binary, pattern, ENCODINGS};
use crate::sym::helpers::{self, concat_n, is_binary, parity_sum};
use crate::sym::{parse_input, spec_parse_input, Charset};
use vstd::prelude::*;

verus! {

/// Left guard of the supplemental barcodes.
pub const LEFT_GUARD: [u8; 4] = [1, 0, 1, 1];

/// Parity (table A = 0, table B = 1) of the EAN-5 digits, chosen by the check digit.
pub const EAN5_PARITY: [[usize; 5]; 10] = [
    [1, 1, 0, 0, 0],
    [1, 0, 1, 0, 0],
    [1, 0, 0, 1, 0],
    [1, 0, 0, 0, 1],
    [0, 1, 1, 0, 0],
    [0, 0, 1, 1, 0],
    [0, 0, 0, 1, 1],
    [0, 1, 0, 1, 0],
    [0, 1, 0, 0, 1],
    [0, 0, 1, 0, 1],
];

/// Parity of the EAN-2 digits, chosen by the value of the two digits modulo 4.
pub const EAN2_PARITY: [[usize; 5]; 4] = [
    [0, 0, 0, 0, 0],
    [0, 1, 0, 0, 0],
    [1, 0, 0, 0, 0],
    [1, 1, 0, 0, 0],
];

/// Validated two-digit supplemental data.
#[derive(Clone, Copy, Debug, PartialEq, Eq)]
pub struct EAN2([u8; 2]);

/// Validated five-digit supplemental data.
#[derive(Clone, Copy, Debug, PartialEq, Eq)]
pub struct EAN5([u8; 5]);

impl AsRef<[u8]> for EAN2 {
    fn as_ref(&self) -> &[u8] {
        self.0.as_slice()
    }
}

impl AsRef<[u8]> for EAN5 {
    fn as_ref(&self) -> &[u8] {
        self.0.as_slice()
    }
}

impl EAN2 {
    #[verifier::type_invariant]
    spec fn well_formed(self) -> bool {
        digits_of_len(self.0@, 2)
    }

    /// The two digits.
    pub closed spec fn digits(self) -> Seq<u8> {
        self.0@
    }
}

impl EAN5 {
    #[verifier::type_invariant]
    spec fn well_formed(self) -> bool {
        digits_of_len(self.0@, 5)
    }

    /// The five digits.
    pub closed spec fn digits(self) -> Seq<u8> {
        self.0@
    }
}

/// The supplemental EAN barcode type.
#[derive(Clone, Copy, Debug, PartialEq, Eq)]
pub enum EANSUPP {
    /// The two-digit supplement.
    EAN2(EAN2),
    /// The five-digit supplement.
    EAN5(EAN5),
}

impl View for EANSUPP {
    type V = Seq<u8>;

    open spec fn view(&self) -> Seq<u8> {
        match *self {
            EANSUPP::EAN2(data) => data.digits(),
            EANSUPP::EAN5(data) => data.digits(),
        }
    }
}

/// What [`EANSUPP::new`] gives for the text `s`: two or five digits.
pub open spec fn spec_eansupp_new(s: Seq<char>) -> core::result::Result<Seq<u8>, Error> {
    match spec_parse_input(s, 2, 5, Charset::Decimal) {
        Err(e) => Err(e),
        Ok(_) => {
            let digits = s.map_values(|c: char| helpers::digit_value(c));
            if digits.len() == 2 || digits.len() == 5 {
                Ok(digits)
            } else {
                Err(Error::Length { min: 2, max: Some(5), found: digits.len() as usize })
            }
        },
    }
}

/// The modified modulo-10 check digit of the supplements: three times the digits at even
/// positions plus nine times those at odd positions, modulo 10.
pub open spec fn supp_checksum(d: Seq<u8>) -> int {
    (3 * parity_sum(d, 0) + 9 * parity_sum(d, 1)) % 10
}

/// The parity row of the supplement with digits `d`.
pub open spec fn supp_parity(d: Seq<u8>) -> [usize; 5] {
    if d.len() == 2 {
        EAN2_PARITY[(10 * d[0] + d[1]) % 4]
    } else {
        EAN5_PARITY[supp_checksum(d)]
    }
}

/// The modules of digit `i`: a `01` separator before every digit but the first, then the
/// digit in the table of its parity.
pub open spec fn supp_piece(d: Seq<u8>, i: int) -> Seq<u8> {
    (if i > 0 {
        seq![0u8, 1u8]
    } else {
        Seq::<u8>::empty()
    }) + pattern(supp_parity(d)[i] as int, d[i])
}

/// The modules of the supplement with digits `d`.
pub open spec fn eansupp_modules(d: Seq<u8>) -> Seq<u8> {
    LEFT_GUARD@ + concat_n(d.len(), |i: int| supp_piece(d, i))
}

proof fn lemma_parity_sum_nonneg(d: Seq<u8>, p: int)
    ensures
        parity_sum(d, p) >= 0,
    decreases d.len(),
{
    if d.len() > 0 {
        lemma_parity_sum_nonneg(d.drop_last(), p);
    }
}

impl EANSUPP {
    /// Creates a new barcode: `EAN2` for two digits, `EAN5` for five.
    pub fn new(data: &str) -> (barcode: Result<EANSUPP>)
        ensures
            crate::error::result_view(barcode) == spec_eansupp_new(data@),
            barcode matches Ok(b) ==> (b is EAN2 <==> data@.len() == 2),
            barcode matches Ok(b) ==> (b is EAN5 <==> data@.len() == 5),
    {
        let _chars = parse_input(data, 2, 5, Charset::Decimal)?;
        proof {
            crate::sym::lemma_decimal_input(data@, 2, 5);
        }
        let digits = helpers::parse_digits(data)?;
        proof {
            assert forall|j: int| 0 <= j < digits@.len() implies #[trigger] digits@[j] < 10 by {
                assert(helpers::is_decimal(data@[j]));
            }
        }
        if digits.len() == 2 {
            let data = EAN2([digits[0], digits[1]]);
            assert(data.0@ =~= digits@);
            Ok(EANSUPP::EAN2(data))
        } else if digits.len() == 5 {
            let data = EAN5([digits[0], digits[1], digits[2], digits[3], digits[4]]);
            assert(data.0@ =~= digits@);
            Ok(EANSUPP::EAN5(data))
        } else {
            Err(Error::length(2, Some(5), digits.len()))
        }
    }

    /// The digits of the supplement.
    fn raw_data(&self) -> (digits: Vec<u8>)
        ensures
            digits@ == self@,
            digits@.len() == 2 || digits@.len() == 5,
            forall|i: int| 0 <= i < digits@.len() ==> #[trigger] digits@[i] < 10,
    {
        match *self {
            EANSUPP::EAN2(data) => {
                proof {
                    use_type_invariant(data);
                }
                let digits = vec![data.0[0], data.0[1]];
                assert(digits@ =~= data.0@);
                digits
            },
            EANSUPP::EAN5(data) => {
                proof {
                    use_type_invariant(data);
                }
                let digits = vec![data.0[0], data.0[1], data.0[2], data.0[3], data.0[4]];
                assert(digits@ =~= data.0@);
                digits
            },
        }
    }

    /// The check digit of the modified modulo-10 scheme (meaningful for EAN-5 only).
    fn checksum_digit(data: &Vec<u8>) -> (checksum: u8)
        requires
            forall|i: int| 0 <= i < data@.len() ==> #[trigger] data@[i] < 10,
        ensures
            checksum == supp_checksum(data@),
    {
        let mut odds: u16 = 0;
        let mut evens: u16 = 0;
        let mut i: usize = 0;
        while i < data.len()
            invariant
                i <= data@.len(),
                odds as int == parity_sum(data@.take(i as int), 0) % 10,
                evens as int == parity_sum(data@.take(i as int), 1) % 10,
            decreases data@.len() - i,
        {
            let ghost prefix = data@.take(i as int);
            assert(data@.take(i + 1).drop_last() =~= prefix);
            proof {
                lemma_parity_sum_nonneg(prefix, 0);
                lemma_parity_sum_nonneg(prefix, 1);
            }
            let d = data[i] as u16;
            if i % 2 == 1 {
                assert((parity_sum(prefix, 1) % 10 + d) % 10 == (parity_sum(prefix, 1) + d) % 10)
                    by (nonlinear_arith)
                    requires
                        parity_sum(prefix, 1) >= 0,
                        d >= 0,
                ;
                evens = (evens + d) % 10;
            } else {
                assert((parity_sum(prefix, 0) % 10 + d) % 10 == (parity_sum(prefix, 0) + d) % 10)
                    by (nonlinear_arith)
                    requires
                        parity_sum(prefix, 0) >= 0,
                        d >= 0,
                ;
                odds = (odds + d) % 10;
            }
            i += 1;
        }
        assert(data@.take(data@.len() as int) =~= data@);
        let ghost so = parity_sum(data@, 0);
        let ghost se = parity_sum(data@, 1);
        proof {
            lemma_parity_sum_nonneg(data@, 0);
            lemma_parity_sum_nonneg(data@, 1);
        }
        assert(((so % 10) * 3 + (se % 10) * 9) % 10 == (3 * so + 9 * se) % 10) by (nonlinear_arith)
            requires
                so >= 0,
                se >= 0,
        ;
        ((odds * 3 + evens * 9) % 10) as u8
    }

    fn parity(&self, digits: &Vec<u8>) -> (parity: [usize; 5])
        requires
            digits@ == self@,
            digits@.len() == 2 || digits@.len() == 5,
            forall|i: int| 0 <= i < digits@.len() ==> #[trigger] digits@[i] < 10,
        ensures
            parity == supp_parity(self@),
            forall|i: int| 0 <= i < 5 ==> #[trigger] parity[i] < 2,
    {
        assert(forall|a: int, b: int| 0 <= a < 4 && 0 <= b < 5 ==> EAN2_PARITY[a][b] < 2);
        assert(forall|a: int, b: int| 0 <= a < 10 && 0 <= b < 5 ==> EAN5_PARITY[a][b] < 2);
        match *self {
            EANSUPP::EAN2(_) => {
                let modulo = (digits[0] as usize * 10 + digits[1] as usize) % 4;
                EAN2_PARITY[modulo]
            },
            EANSUPP::EAN5(_) => {
                let check = Self::checksum_digit(digits) as usize;
                EAN5_PARITY[check]
            },
        }
    }

    fn payload(&self) -> (payload: Vec<u8>)
        ensures
            payload@ == concat_n(self@.len(), |i: int| supp_piece(self@, i)),
            self@.len() == 2 || self@.len() == 5,
            forall|i: int| 0 <= i < self@.len() ==> #[trigger] self@[i] < 10,
    {
        let digits = self.raw_data();
        let parity = self.parity(&digits);
        let ghost f = |i: int| supp_piece(self@, i);
        let mut out: Vec<u8> = Vec::new();
        let mut i: usize = 0;
        while i < digits.len()
            invariant
                i <= digits@.len(),
                digits@ == self@,
                parity == supp_parity(self@),
                forall|i: int| 0 <= i < 5 ==> #[trigger] parity[i] < 2,
                forall|i: int| 0 <= i < digits@.len() ==> #[trigger] digits@[i] < 10,
                digits@.len() <= 5,
                f == (|i: int| supp_piece(self@, i)),
                out@ == concat_n(i as nat, f),
            decreases digits@.len() - i,
        {
            let ghost before = out@;
            if i > 0 {
                out.push(0);
                out.push(1);
            }
            out.extend_from_slice(&ENCODINGS[parity[i]][digits[i] as usize]);
            assert(out@ =~= before + f(i as int));
            i += 1;
        }
        out
    }

    /// Encodes the barcode: 20 modules for EAN-2, 47 for EAN-5.
    pub fn encode(&self) -> (modules: Vec<u8>)
        ensures
            modules@ == eansupp_modules(self@),
            is_binary(modules@),
            modules@.len() == if self@.len() == 2 {
                20int
            } else {
                47int
            },
    {
        let payload = self.payload();
        let modules = helpers::join_slices(&[&LEFT_GUARD, payload.as_slice()]);
        proof {
            reveal_with_fuel(helpers::joined, 3);
            lemma_eansupp_modules_shape(self@);
        }
        modules
    }
}

/// The supplement modules of valid digits are binary, 20 long for two digits and 47 for
/// five.
pub proof fn lemma_eansupp_modules_shape(d: Seq<u8>)
    requires
        d.len() == 2 || d.len() == 5,
        forall|i: int| 0 <= i < d.len() ==> #[trigger] d[i] < 10,
    ensures
        is_binary(eansupp_modules(d)),
        eansupp_modules(d).len() == if d.len() == 2 {
            20int
        } else {
            47int
        },
{
    let f = |i: int| supp_piece(d, i);
    assert(forall|a: int, b: int| 0 <= a < 4 && 0 <= b < 5 ==> EAN2_PARITY[a][b] < 2);
    assert(forall|a: int, b: int| 0 <= a < 10 && 0 <= b < 5 ==> EAN5_PARITY[a][b] < 2);
    lemma_parity_sum_nonneg(d, 0);
    lemma_parity_sum_nonneg(d, 1);
    assert forall|i: int| 0 <= i < d.len() implies is_binary(#[trigger] f(i)) && f(i).len() == (
    if i > 0 {
        9int
    } else {
        7int
    }) by {
        lemma_patterns_binary(supp_parity(d)[i] as int, d[i]);
        let sep = if i > 0 {
            seq![0u8, 1u8]
        } else {
            Seq::<u8>::empty()
        };
        helpers::lemma_add_binary(sep, pattern(supp_parity(d)[i] as int, d[i]));
    }
    helpers::lemma_concat_n_binary(d.len(), f);
    helpers::lemma_add_binary(LEFT_GUARD@, concat_n(d.len(), f));
    if d.len() == 2 {
        assert(concat_n(2, f).len() == 16) by {
            reveal_with_fuel(concat_n, 3);
        }
    } else {
        assert(concat_n(5, f).len() == 43) by {
            reveal_with_fuel(concat_n, 6);
        }
    }
}

} // verus!
