//! Building blocks shared by the encoders: sequence concatenation, digit parsing and the
//! modulo-10 check digit.

use crate::error::{Error, Result};
use vstd::prelude::*;

verus! {

/// `f(0) + f(1) + ... + f(n - 1)`.
pub open spec fn concat_n<T>(n: nat, f: spec_fn(int) -> Seq<T>) -> Seq<T>
    decreases n,
{
    if n == 0 {
        Seq::empty()
    } else {
        concat_n((n - 1) as nat, f) + f(n - 1)
    }
}

/// Every element of `s` is `0` or `1`.
pub open spec fn is_binary(s: Seq<u8>) -> bool {
    forall|i: int| 0 <= i < s.len() ==> #[trigger] s[i] <= 1
}

/// A concatenation of pieces of one fixed length has that length times the count.
pub proof fn lemma_concat_n_len<T>(n: nat, f: spec_fn(int) -> Seq<T>, k: nat)
    requires
        forall|i: int| 0 <= i < n ==> #[trigger] f(i).len() == k,
    ensures
        concat_n(n, f).len() == n * k,
    decreases n,
{
    if n > 0 {
        let m = (n - 1) as nat;
        lemma_concat_n_len(m, f, k);
        assert(f(n - 1).len() == k);
        assert(concat_n(n, f) == concat_n(m, f) + f(n - 1));
        assert(m * k + k == n * k) by (nonlinear_arith)
            requires
                m + 1 == n,
        ;
    } else {
        assert(n * k == 0) by (nonlinear_arith)
            requires
                n == 0,
        ;
    }
}

/// A concatenation of binary pieces is binary.
pub proof fn lemma_concat_n_binary(n: nat, f: spec_fn(int) -> Seq<u8>)
    requires
        forall|i: int| 0 <= i < n ==> is_binary(#[trigger] f(i)),
    ensures
        is_binary(concat_n(n, f)),
    decreases n,
{
    if n > 0 {
        lemma_concat_n_binary((n - 1) as nat, f);
        let a = concat_n((n - 1) as nat, f);
        let b = f(n - 1);
        assert(is_binary(b));
        assert forall|i: int| 0 <= i < (a + b).len() implies #[trigger] (a + b)[i] <= 1 by {
            if i < a.len() {
                assert((a + b)[i] == a[i]);
            } else {
                assert((a + b)[i] == b[i - a.len()]);
            }
        }
    }
}

/// The concatenation of binary sequences is binary.
pub proof fn lemma_add_binary(a: Seq<u8>, b: Seq<u8>)
    requires
        is_binary(a),
        is_binary(b),
    ensures
        is_binary(a + b),
{
    assert forall|i: int| 0 <= i < (a + b).len() implies #[trigger] (a + b)[i] <= 1 by {
        if i < a.len() {
            assert((a + b)[i] == a[i]);
        } else {
            assert((a + b)[i] == b[i - a.len()]);
        }
    }
}

/// The concatenation of the given slices, in order.
pub open spec fn joined(slices: Seq<&[u8]>) -> Seq<u8>
    decreases slices.len(),
{
    if slices.len() == 0 {
        Seq::empty()
    } else {
        joined(slices.drop_last()) + slices.last()@
    }
}

/// Joins the given `&[u8]` slices into one `Vec<u8>`.
pub fn join_slices(slices: &[&[u8]]) -> (joined_modules: Vec<u8>)
    ensures
        joined_modules@ == joined(slices@),
{
    let mut out: Vec<u8> = Vec::new();
    let mut i: usize = 0;
    while i < slices.len()
        invariant
            i <= slices@.len(),
            out@ == joined(slices@.take(i as int)),
        decreases slices@.len() - i,
    {
        out.extend_from_slice(slices[i]);
        assert(slices@.take(i + 1).drop_last() =~= slices@.take(i as int));
        i += 1;
    }
    assert(slices@.take(slices@.len() as int) =~= slices@);
    out
}

/// The concatenation of the given module pieces, in order.
pub open spec fn joined_pieces(pieces: Seq<Vec<u8>>) -> Seq<u8>
    decreases pieces.len(),
{
    if pieces.len() == 0 {
        Seq::empty()
    } else {
        joined_pieces(pieces.drop_last()) + pieces.last()@
    }
}

/// Joins the given module pieces into one `Vec<u8>`.
pub fn join_iters(pieces: &[Vec<u8>]) -> (joined_modules: Vec<u8>)
    ensures
        joined_modules@ == joined_pieces(pieces@),
{
    let mut out: Vec<u8> = Vec::new();
    let mut i: usize = 0;
    while i < pieces.len()
        invariant
            i <= pieces@.len(),
            out@ == joined_pieces(pieces@.take(i as int)),
        decreases pieces@.len() - i,
    {
        out.extend_from_slice(pieces[i].as_slice());
        assert(pieces@.take(i + 1).drop_last() =~= pieces@.take(i as int));
        i += 1;
    }
    assert(pieces@.take(pieces@.len() as int) =~= pieces@);
    out
}

/// Takes a value that an invariant of the caller guarantees to be present.
pub fn invariant_or<T>(value: Option<T>, fallback: T, message: &'static str) -> (taken: T)
    requires
        value is Some,
    ensures
        taken == value.unwrap(),
{
    match value {
        Some(v) => v,
        None => fallback,
    }
}

/// The numeric value of a decimal digit character.
pub open spec fn digit_value(c: char) -> u8 {
    (c as u32 - '0' as u32) as u8
}

/// `c` is one of `'0'..='9'`.
pub open spec fn is_decimal(c: char) -> bool {
    '0' <= c && c <= '9'
}

/// Position of the first character of `s` at or after `from` that is not a decimal digit.
pub open spec fn first_non_decimal(s: Seq<char>, from: int) -> Option<int>
    decreases s.len() - from,
{
    if from < 0 || from >= s.len() {
        None
    } else if !is_decimal(s[from]) {
        Some(from)
    } else {
        first_non_decimal(s, from + 1)
    }
}

/// What `parse_digits` gives for the characters `s`.
pub open spec fn spec_parse_digits(s: Seq<char>) -> core::result::Result<Seq<u8>, Error> {
    match first_non_decimal(s, 0) {
        Some(i) => Err(Error::Character { character: Some(s[i]), index: Some(i as usize) }),
        None => Ok(s.map_values(|c: char| digit_value(c))),
    }
}

/// Converts decimal text into barcode digits, rejecting the first character that is not a
/// decimal digit.
pub fn parse_digits(data: &str) -> (digits: Result<Vec<u8>>)
    ensures
        crate::error::result_view(digits) == spec_parse_digits(data@),
{
    let len = data.unicode_len();
    let mut out: Vec<u8> = Vec::new();
    let mut i: usize = 0;
    while i < len
        invariant
            len == data@.len(),
            i <= len,
            out@ == data@.take(i as int).map_values(|c: char| digit_value(c)),
            first_non_decimal(data@, 0) == first_non_decimal(data@, i as int),
        decreases len - i,
    {
        let c = data.get_char(i);
        if c < '0' || c > '9' {
            return Err(Error::character(Some(c), Some(i)));
        }
        let d = (c as u32 - '0' as u32) as u8;
        out.push(d);
        assert(data@.take(i + 1).map_values(|c: char| digit_value(c)) =~= data@.take(
            i as int,
        ).map_values(|c: char| digit_value(c)).push(digit_value(c)));
        i += 1;
    }
    assert(data@.take(len as int) =~= data@);
    Ok(out)
}

/// The characters accepted by the decimal symbologies.
pub fn decimal_chars() -> (chars: Vec<char>)
    ensures
        chars@ == seq!['0', '1', '2', '3', '4', '5', '6', '7', '8', '9'],
{
    vec!['0', '1', '2', '3', '4', '5', '6', '7', '8', '9']
}

/// Sum of the elements of `data` at positions of the given parity (`0` even, `1` odd).
pub open spec fn parity_sum(data: Seq<u8>, parity: int) -> int
    decreases data.len(),
{
    if data.len() == 0 {
        0
    } else {
        parity_sum(data.drop_last(), parity) + if (data.len() - 1) % 2 == parity {
            data.last() as int
        } else {
            0
        }
    }
}

/// The weighted sum of the modulo-10 scheme: positions of one parity weigh 3, the others 1.
/// With `even_start` the odd positions weigh 3 (EAN-13); otherwise the even ones do.
pub open spec fn modulo_10_weighted_sum(data: Seq<u8>, even_start: bool) -> int {
    if even_start {
        3 * parity_sum(data, 1) + parity_sum(data, 0)
    } else {
        parity_sum(data, 1) + 3 * parity_sum(data, 0)
    }
}

/// The modulo-10 check digit: what must be added to the weighted sum to reach a multiple
/// of ten.
pub open spec fn spec_modulo_10_checksum(data: Seq<u8>, even_start: bool) -> u8 {
    ((10 - modulo_10_weighted_sum(data, even_start) % 10) % 10) as u8
}

proof fn lemma_parity_sum_nonneg(data: Seq<u8>, parity: int)
    ensures
        parity_sum(data, parity) >= 0,
    decreases data.len(),
{
    if data.len() > 0 {
        lemma_parity_sum_nonneg(data.drop_last(), parity);
    }
}

/// Computes the check digit with the modulo-10 weighting scheme.
pub fn modulo_10_checksum(data: &[u8], even_start: bool) -> (checksum: u8)
    ensures
        checksum == spec_modulo_10_checksum(data@, even_start),
        checksum < 10,
{
    let mut odds: u16 = 0;
    let mut evens: u16 = 0;
    let mut i: usize = 0;
    while i < data.len()
        invariant
            i <= data@.len(),
            odds as int == parity_sum(data@.take(i as int), 1) % 10,
            evens as int == parity_sum(data@.take(i as int), 0) % 10,
        decreases data@.len() - i,
    {
        let ghost prefix = data@.take(i as int);
        let ghost next = data@.take(i + 1);
        assert(next.drop_last() =~= prefix);
        proof {
            lemma_parity_sum_nonneg(prefix, 1);
            lemma_parity_sum_nonneg(prefix, 0);
        }
        if i % 2 == 1 {
            assert((parity_sum(prefix, 1) % 10 + data[i as int]) % 10 == (parity_sum(prefix, 1)
                + data[i as int]) % 10) by {
                vstd::arithmetic::div_mod::lemma_add_mod_noop(
                    parity_sum(prefix, 1),
                    data[i as int] as int,
                    10,
                );
                vstd::arithmetic::div_mod::lemma_mod_twice(data[i as int] as int, 10);
                vstd::arithmetic::div_mod::lemma_add_mod_noop(
                    parity_sum(prefix, 1) % 10,
                    data[i as int] as int,
                    10,
                );
            }
            odds = (odds + data[i] as u16) % 10;
        } else {
            assert((parity_sum(prefix, 0) % 10 + data[i as int]) % 10 == (parity_sum(prefix, 0)
                + data[i as int]) % 10) by {
                vstd::arithmetic::div_mod::lemma_add_mod_noop(
                    parity_sum(prefix, 0),
                    data[i as int] as int,
                    10,
                );
                vstd::arithmetic::div_mod::lemma_mod_twice(data[i as int] as int, 10);
                vstd::arithmetic::div_mod::lemma_add_mod_noop(
                    parity_sum(prefix, 0) % 10,
                    data[i as int] as int,
                    10,
                );
            }
            evens = (evens + data[i] as u16) % 10;
        }
        i += 1;
    }
    assert(data@.take(data@.len() as int) =~= data@);
    let ghost so = parity_sum(data@, 1);
    let ghost se = parity_sum(data@, 0);
    proof {
        lemma_parity_sum_nonneg(data@, 1);
        lemma_parity_sum_nonneg(data@, 0);
    }
    let total: u16 = if even_start {
        (odds * 3 % 10 + evens) % 10
    } else {
        (odds + evens * 3 % 10) % 10
    };
    assert(total as int == modulo_10_weighted_sum(data@, even_start) % 10) by {
        lemma_weighted_mod(so, se, even_start);
    }
    let checksum: u16 = (10 - total) % 10;
    checksum as u8
}

/// The weighted sum of the Code11 and Code93 check characters: the value at distance `k`
/// from the end of `values` weighs `(k % threshold) + 1`.
pub open spec fn weighted_sum(values: Seq<int>, threshold: int) -> int
    decreases values.len(),
{
    if values.len() == 0 {
        0
    } else {
        (((values.len() - 1) % threshold) + 1) * values[0] + weighted_sum(
            values.drop_first(),
            threshold,
        )
    }
}

pub proof fn lemma_weighted_sum_nonneg(values: Seq<int>, threshold: int)
    requires
        threshold > 0,
        forall|i: int| 0 <= i < values.len() ==> #[trigger] values[i] >= 0,
    ensures
        weighted_sum(values, threshold) >= 0,
    decreases values.len(),
{
    if values.len() > 0 {
        lemma_weighted_sum_nonneg(values.drop_first(), threshold);
        assert(values[0] >= 0);
        let w = ((values.len() - 1) % threshold) + 1;
        assert(w * values[0] >= 0) by (nonlinear_arith)
            requires
                w >= 1,
                values[0] >= 0,
        ;
    }
}

/// The weighted sum of `positions`, reduced modulo `modulus`.
pub fn weighted_checksum_index(positions: &Vec<usize>, threshold: usize, modulus: usize) -> (index: usize)
    requires
        0 < threshold <= 20,
        0 < modulus <= 47,
        forall|i: int| 0 <= i < positions@.len() ==> #[trigger] positions@[i] < modulus,
    ensures
        index as int == weighted_sum(positions@.map_values(|p: usize| p as int), threshold as int)
            % (modulus as int),
        index < modulus,
{
    let ghost values = positions@.map_values(|p: usize| p as int);
    let n = positions.len();
    let mut index: usize = 0;
    let mut offset: usize = 0;
    assert(values.subrange(n as int, n as int) =~= Seq::<int>::empty());
    proof {
        vstd::arithmetic::div_mod::lemma_small_mod(0, modulus as nat);
    }
    while offset < n
        invariant
            n == positions@.len(),
            values == positions@.map_values(|p: usize| p as int),
            0 < threshold <= 20,
            0 < modulus <= 47,
            forall|i: int| 0 <= i < positions@.len() ==> #[trigger] positions@[i] < modulus,
            offset <= n,
            index < modulus,
            index as int == weighted_sum(values.subrange(n - offset, n as int), threshold as int)
                % (modulus as int),
        decreases n - offset,
    {
        let ghost suffix = values.subrange(n - offset, n as int);
        let ghost longer = values.subrange(n - offset - 1, n as int);
        assert(longer.drop_first() =~= suffix);
        let position = positions[n - 1 - offset];
        let weight = (offset % threshold) + 1;
        proof {
            assert forall|i: int| 0 <= i < suffix.len() implies #[trigger] suffix[i] >= 0 by {
                assert(suffix[i] == positions@[n - offset + i] as int);
            }
            lemma_weighted_sum_nonneg(suffix, threshold as int);
            assert(longer[0] == position as int);
            let ws = weighted_sum(suffix, threshold as int);
            assert(weight * position <= 20 * 47) by (nonlinear_arith)
                requires
                    weight <= 20,
                    position < 47,
            ;
            lemma_mod_add_reduce(ws, weight * position, modulus as int);
            assert(weighted_sum(longer, threshold as int) == weight * position + ws);
        }
        index = (index + weight * position) % modulus;
        offset += 1;
    }
    assert(values.subrange(0, n as int) =~= values);
    index
}

/// Reducing the left operand first does not change a sum modulo `m`.
pub proof fn lemma_mod_add_reduce(a: int, b: int, m: int)
    requires
        m > 0,
    ensures
        (a % m + b) % m == (a + b) % m,
{
    vstd::arithmetic::div_mod::lemma_add_mod_noop(a, b, m);
    vstd::arithmetic::div_mod::lemma_mod_twice(a, m);
    vstd::arithmetic::div_mod::lemma_add_mod_noop(a % m, b, m);
}

/// The modulo-10 check digit is a decimal digit.
pub proof fn lemma_modulo_10_checksum_digit(data: Seq<u8>, even_start: bool)
    ensures
        spec_modulo_10_checksum(data, even_start) < 10,
{
}

/// The modulo-10 check digit completes the weighted sum of the data to a multiple of ten.
pub proof fn lemma_modulo_10_checksum_completes(data: Seq<u8>, even_start: bool)
    ensures
        (modulo_10_weighted_sum(data, even_start) + spec_modulo_10_checksum(data, even_start)) % 10
            == 0,
{
    lemma_parity_sum_nonneg(data, 0);
    lemma_parity_sum_nonneg(data, 1);
    let s = modulo_10_weighted_sum(data, even_start);
    assert(s >= 0);
    let c = (10 - s % 10) % 10;
    assert(spec_modulo_10_checksum(data, even_start) == c);
    assert((s + c) % 10 == 0) by {
        vstd::arithmetic::div_mod::lemma_fundamental_div_mod(s, 10);
    }
}

proof fn lemma_weighted_mod(so: int, se: int, even_start: bool)
    requires
        so >= 0,
        se >= 0,
    ensures
        even_start ==> ((so % 10) * 3 % 10 + se % 10) % 10 == (3 * so + se) % 10,
        !even_start ==> (so % 10 + (se % 10) * 3 % 10) % 10 == (so + 3 * se) % 10,
{
    assert(((so % 10) * 3 % 10 + se % 10) % 10 == (3 * so + se) % 10) by (nonlinear_arith)
        requires
            so >= 0,
            se >= 0,
    ;
    assert((so % 10 + (se % 10) * 3 % 10) % 10 == (so + 3 * se) % 10) by (nonlinear_arith)
        requires
            so >= 0,
            se >= 0,
    ;
}

} // verus!
