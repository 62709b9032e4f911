//! The supported barcode symbologies.
//!
//! Every encoder accepts the text to encode. What is valid depends on the symbology, so the
//! constructors return `Result<T, Error>`.

pub mod code11;
pub mod code128;
pub mod code39;
pub mod code93;
pub mod ean13;
pub mod ean8;
pub mod ean_supp;
pub mod upca;
pub mod helpers;
pub mod tf;

use crate::error::{Error, Result};
use vstd::prelude::*;

verus! {

/// A set of characters accepted by a symbology.
#[derive(Clone, Copy, Debug, PartialEq, Eq)]
pub enum Charset {
    /// `'0'..='9'`.
    Decimal,
    /// The characters of the Code11 table.
    Code11,
    /// The characters of the Code39 table.
    Code39,
    /// The characters of the Code93 table.
    Code93,
}

/// `c` belongs to the character set `charset`.
pub open spec fn charset_contains(charset: Charset, c: char) -> bool {
    match charset {
        Charset::Decimal => helpers::is_decimal(c),
        Charset::Code11 => code11::char_index(c) is Some,
        Charset::Code39 => code39::char_index(c) is Some,
        Charset::Code93 => code93::char_index(c) is Some,
    }
}

fn in_charset(charset: Charset, c: char) -> (inside: bool)
    ensures
        inside == charset_contains(charset, c),
{
    match charset {
        Charset::Decimal => '0' <= c && c <= '9',
        Charset::Code11 => code11::char_position(c).is_some(),
        Charset::Code39 => code39::char_position(c).is_some(),
        Charset::Code93 => code93::char_position(c).is_some(),
    }
}

/// Position of the first character of `s`, at or after `from`, outside `charset`.
pub open spec fn first_outside(s: Seq<char>, charset: Charset, from: int) -> Option<int>
    decreases s.len() - from,
{
    if from < 0 || from >= s.len() {
        None
    } else if !charset_contains(charset, s[from]) {
        Some(from)
    } else {
        first_outside(s, charset, from + 1)
    }
}

/// The outcome of checking the text `s` against an inclusive length range and a character
/// set: the length is checked first, then the first character outside the set is reported.
pub open spec fn spec_parse_input(s: Seq<char>, min: usize, max: usize, charset: Charset) -> core::result::Result<
    Seq<char>,
    Error,
> {
    if s.len() < min || s.len() > max {
        Err(Error::Length { min, max: Some(max), found: s.len() as usize })
    } else {
        match first_outside(s, charset, 0) {
            Some(i) => Err(Error::Character { character: Some(s[i]), index: Some(i as usize) }),
            None => Ok(s),
        }
    }
}

/// Checks `data` against the length range `min..=max` and the character set `charset`,
/// returning its characters when it passes.
pub fn parse_input(data: &str, min: usize, max: usize, charset: Charset) -> (chars: Result<Vec<char>>)
    ensures
        crate::error::result_view(chars) == spec_parse_input(data@, min, max, charset),
{
    let len = data.unicode_len();
    if len < min || len > max {
        return Err(Error::length(min, Some(max), len));
    }
    let mut out: Vec<char> = Vec::new();
    let mut i: usize = 0;
    while i < len
        invariant
            len == data@.len(),
            min <= len <= max,
            i <= len,
            out@ == data@.take(i as int),
            first_outside(data@, charset, 0) == first_outside(data@, charset, i as int),
        decreases len - i,
    {
        let c = data.get_char(i);
        if !in_charset(charset, c) {
            return Err(Error::character(Some(c), Some(i)));
        }
        out.push(c);
        assert(data@.take(i + 1) =~= data@.take(i as int).push(c));
        i += 1;
    }
    assert(data@.take(len as int) =~= data@);
    Ok(out)
}


/// Text that passes the check has the accepted length and only characters of the set.
pub proof fn lemma_parse_input_ok(s: Seq<char>, min: usize, max: usize, charset: Charset)
    requires
        spec_parse_input(s, min, max, charset) is Ok,
    ensures
        min <= s.len() <= max,
        forall|j: int| 0 <= j < s.len() ==> charset_contains(charset, #[trigger] s[j]),
{
    lemma_first_outside_none(s, charset, 0);
}

/// Text that passes the decimal check consists of decimal digits only, so converting it to
/// digits succeeds.
pub proof fn lemma_decimal_input(s: Seq<char>, min: usize, max: usize)
    requires
        spec_parse_input(s, min, max, Charset::Decimal) is Ok,
    ensures
        forall|j: int| 0 <= j < s.len() ==> helpers::is_decimal(#[trigger] s[j]),
        helpers::spec_parse_digits(s) == core::result::Result::<Seq<u8>, Error>::Ok(
            s.map_values(|c: char| helpers::digit_value(c)),
        ),
        min <= s.len() <= max,
{
    lemma_first_outside_none(s, Charset::Decimal, 0);
    lemma_first_non_decimal_none(s, 0);
}

proof fn lemma_first_outside_none(s: Seq<char>, charset: Charset, from: int)
    requires
        0 <= from,
        first_outside(s, charset, from) is None,
    ensures
        forall|j: int| from <= j < s.len() ==> charset_contains(charset, #[trigger] s[j]),
    decreases s.len() - from,
{
    if from < s.len() {
        lemma_first_outside_none(s, charset, from + 1);
    }
}

proof fn lemma_first_non_decimal_none(s: Seq<char>, from: int)
    requires
        0 <= from,
        forall|j: int| from <= j < s.len() ==> helpers::is_decimal(#[trigger] s[j]),
    ensures
        helpers::first_non_decimal(s, from) is None,
    decreases s.len() - from,
{
    if from < s.len() {
        lemma_first_non_decimal_none(s, from + 1);
    }
}

proof fn lemma_decimal_first_outside(s: Seq<char>, from: int)
    requires
        0 <= from,
        forall|j: int| from <= j < s.len() ==> helpers::is_decimal(#[trigger] s[j]),
    ensures
        first_outside(s, Charset::Decimal, from) is None,
    decreases s.len() - from,
{
    if from < s.len() {
        assert(helpers::is_decimal(s[from]));
        lemma_decimal_first_outside(s, from + 1);
    }
}

/// Decimal text of an accepted length passes the decimal check unchanged.
pub proof fn lemma_decimal_accepted(s: Seq<char>, min: usize, max: usize)
    requires
        min <= s.len() <= max,
        forall|j: int| 0 <= j < s.len() ==> helpers::is_decimal(#[trigger] s[j]),
    ensures
        spec_parse_input(s, min, max, Charset::Decimal) == core::result::Result::<
            Seq<char>,
            Error,
        >::Ok(s),
{
    lemma_decimal_first_outside(s, 0);
}

/// The character of a decimal digit is a decimal digit character of that value.
pub proof fn lemma_digit_char_value(d: nat)
    requires
        d < 10,
    ensures
        helpers::is_decimal(crate::text::digit_char(d)),
        helpers::digit_value(crate::text::digit_char(d)) == d,
{
    let ch = crate::text::digit_char(d);
    assert(ch as u32 == d + 48);
}

/// Appending the check digit of the `n` decimal digits `s` keeps the text decimal, one
/// character longer, with the same first `n` digits and the check digit last.
pub proof fn lemma_check_digit_appended(s: Seq<char>, n: nat, even_start: bool)
    requires
        s.len() == n,
        n < 256,
        forall|j: int| 0 <= j < s.len() ==> helpers::is_decimal(#[trigger] s[j]),
    ensures
        ({
            let digits = s.map_values(|c: char| helpers::digit_value(c));
            let check = helpers::spec_modulo_10_checksum(digits, even_start);
            let t = s.push(crate::text::digit_char(check as nat));
            let t_digits = t.map_values(|c: char| helpers::digit_value(c));
            &&& spec_parse_input(t, n as usize, (n + 1) as usize, Charset::Decimal) is Ok
            &&& t_digits.take(n as int) == digits
            &&& t_digits.len() == n + 1
            &&& t_digits[n as int] == check
        }),
{
    let digits = s.map_values(|c: char| helpers::digit_value(c));
    let check = helpers::spec_modulo_10_checksum(digits, even_start);
    helpers::lemma_modulo_10_checksum_digit(digits, even_start);
    let ch = crate::text::digit_char(check as nat);
    let t = s.push(ch);
    lemma_digit_char_value(check as nat);
    assert forall|j: int| 0 <= j < t.len() implies helpers::is_decimal(#[trigger] t[j]) by {
        if j < s.len() {
            assert(t[j] == s[j]);
        }
    }
    lemma_decimal_accepted(t, n as usize, (n + 1) as usize);
    let t_digits = t.map_values(|c: char| helpers::digit_value(c));
    assert(t_digits.take(n as int) =~= digits);
}

} // verus!
