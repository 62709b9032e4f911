//! Encoder for Code11 (USD-8) barcodes.
//!
//! Code11 encodes all decimal digits and the dash character. It is mainly used in the
//! telecommunications sector.
//!
//! Code11 is a discrete symbology. This encoder always adds the C check character; barcodes
//! longer than ten characters also get a second (K) check character.

use crate::error::Result;
use crate::sym::helpers::{self, concat_n, is_binary, weighted_sum};
use crate::sym::{parse_input, spec_parse_input, Charset};
use vstd::prelude::*;

verus! {

/// Character to modules mappings for the allowed characters: the modules of each character
/// are the first `width` entries of its row (the narrow characters have six modules).
pub const CHARS: [(char, [u8; 7], usize); 11] = [
    ('0', [1, 0, 1, 0, 1, 1, 0], 6),
    ('1', [1, 1, 0, 1, 0, 1, 1], 7),
    ('2', [1, 0, 0, 1, 0, 1, 1], 7),
    ('3', [1, 1, 0, 0, 1, 0, 1], 7),
    ('4', [1, 0, 1, 1, 0, 1, 1], 7),
    ('5', [1, 1, 0, 1, 1, 0, 1], 7),
    ('6', [1, 0, 0, 1, 1, 0, 1], 7),
    ('7', [1, 0, 1, 0, 0, 1, 1], 7),
    ('8', [1, 1, 0, 1, 0, 0, 1], 7),
    ('9', [1, 1, 0, 1, 0, 1, 0], 6),
    ('-', [1, 0, 1, 1, 0, 1, 0], 6),
];

/// Code11 barcodes start and end with a special character.
pub const GUARD: [u8; 7] = [1, 0, 1, 1, 0, 0, 1];
/// The narrow space after every character.
pub const SEPARATOR: [u8; 1] = [0];

/// Position of the first entry of [`CHARS`], at or after `from`, for the character `c`.
pub open spec fn char_index_from(c: char, from: int) -> Option<int>
    decreases 11 - from,
{
    if from < 0 || from >= 11 {
        None
    } else if CHARS[from].0 == c {
        Some(from)
    } else {
        char_index_from(c, from + 1)
    }
}

/// Position of the character `c` in [`CHARS`], if it is a Code11 character.
pub open spec fn char_index(c: char) -> Option<int> {
    char_index_from(c, 0)
}

proof fn lemma_char_index_from_range(c: char, from: int)
    requires
        0 <= from,
    ensures
        char_index_from(c, from) matches Some(i) ==> from <= i < 11 && CHARS[i].0 == c,
    decreases 11 - from,
{
    if from < 11 && CHARS[from].0 != c {
        lemma_char_index_from_range(c, from + 1);
    }
}

/// A found position is a valid index of [`CHARS`] holding that character.
pub proof fn lemma_char_index_range(c: char)
    ensures
        char_index(c) matches Some(i) ==> 0 <= i < 11 && CHARS[i].0 == c,
{
    lemma_char_index_from_range(c, 0);
}

proof fn lemma_char_index_search(c: char, from: int, i: int)
    requires
        0 <= from <= i < 11,
        CHARS[i].0 == c,
        forall|j: int| from <= j < i ==> CHARS[j].0 != c,
    ensures
        char_index_from(c, from) == Some(i),
    decreases i - from,
{
    if from < i {
        lemma_char_index_search(c, from + 1, i);
    }
}

/// Each character of [`CHARS`] is found at its own position: the characters are distinct.
proof fn lemma_char_index_first(i: int)
    requires
        0 <= i < 11,
    ensures
        char_index(CHARS[i].0) == Some(i),
{
    assert(forall|a: int, b: int| 0 <= a < b < 11 ==> CHARS[a].0 != CHARS[b].0);
    lemma_char_index_search(CHARS[i].0, 0, i);
}

/// Finds the position of `c` in [`CHARS`].
pub fn char_position(c: char) -> (position: Option<usize>)
    ensures
        position matches Some(i) ==> char_index(c) == Some(i as int),
        position is None ==> char_index(c) is None,
{
    let mut i: usize = 0;
    while i < 11
        invariant
            i <= 11,
            char_index(c) == char_index_from(c, i as int),
        decreases 11 - i,
    {
        if CHARS[i].0 == c {
            return Some(i);
        }
        i += 1;
    }
    None
}

/// The [`CHARS`] positions of the characters of `data`.
pub open spec fn positions_of(data: Seq<char>) -> Seq<int> {
    data.map_values(|c: char| char_index(c).unwrap_or(0))
}

/// The weighted modulo-11 check character of `data`, the weights cycling through
/// `1..=threshold` from the end.
pub open spec fn checksum_char(data: Seq<char>, threshold: int) -> char {
    CHARS[weighted_sum(positions_of(data), threshold) % 11].0
}

/// The C check character (weights up to 10).
pub open spec fn c_checksum(data: Seq<char>) -> char {
    checksum_char(data, 10)
}

/// The K check character (weights up to 9), computed over the data and the C character.
pub open spec fn k_checksum(data: Seq<char>) -> char {
    checksum_char(data.push(c_checksum(data)), 9)
}

/// The modules of the Code11 character `c`.
pub open spec fn char_pattern(c: char) -> Seq<u8> {
    CHARS[char_index(c).unwrap()].1@.take(CHARS[char_index(c).unwrap()].2 as int)
}

/// The modules of a character followed by the separator.
pub open spec fn char_piece(c: char) -> Seq<u8> {
    char_pattern(c) + SEPARATOR@
}

/// The modules of the Code11 barcode of `data`: the guard and a separator, every character
/// and the C check character each followed by a separator, the K check character too when
/// there are more than ten characters, and the guard.
pub open spec fn code11_modules(data: Seq<char>) -> Seq<u8> {
    GUARD@ + SEPARATOR@ + concat_n(data.len(), |i: int| char_piece(data[i])) + char_piece(
        c_checksum(data),
    ) + (if data.len() > 10 {
        char_piece(k_checksum(data))
    } else {
        Seq::empty()
    }) + GUARD@
}

/// Every character of `data` is a Code11 character.
pub open spec fn valid_data(data: Seq<char>) -> bool {
    &&& 1 <= data.len() <= 256
    &&& forall|i: int| 0 <= i < data.len() ==> (#[trigger] char_index(data[i])) is Some
}

/// What [`Code11::new`] keeps of the text `s`.
pub open spec fn spec_code11_new(s: Seq<char>) -> core::result::Result<Seq<char>, crate::error::Error> {
    spec_parse_input(s, 1, 256, Charset::Code11)
}

/// The Code11 barcode type.
#[derive(Debug, PartialEq, Eq)]
pub struct Code11(Vec<char>);

/// USD-8 is another name of Code11.
pub type USD8 = Code11;

impl View for Code11 {
    type V = Seq<char>;

    closed spec fn view(&self) -> Seq<char> {
        self.0@
    }
}

impl Clone for Code11 {
    fn clone(&self) -> (copy: Self)
        ensures
            copy@ == self@,
    {
        proof {
            use_type_invariant(self);
        }
        let chars = self.0.clone();
        assert(chars@ =~= self.0@);
        Code11(chars)
    }
}

impl Code11 {
    #[verifier::type_invariant]
    spec fn well_formed(self) -> bool {
        valid_data(self.0@)
    }

    /// Creates a new barcode.
    pub fn new(data: &str) -> (barcode: Result<Code11>)
        ensures
            crate::error::result_view(barcode) == spec_code11_new(data@),
    {
        let chars = parse_input(data, 1, 256, Charset::Code11)?;
        proof {
            crate::sym::lemma_parse_input_ok(data@, 1, 256, Charset::Code11);
        }
        Ok(Code11(chars))
    }

    /// The weighted modulo-11 check character of `data`.
    fn checksum_char(data: &Vec<char>, threshold: usize) -> (c: char)
        requires
            0 < threshold <= 20,
            forall|i: int| 0 <= i < data@.len() ==> (#[trigger] char_index(data@[i])) is Some,
        ensures
            c == checksum_char(data@, threshold as int),
            char_index(c) is Some,
    {
        let mut positions: Vec<usize> = Vec::new();
        let mut i: usize = 0;
        while i < data.len()
            invariant
                i <= data@.len(),
                positions@.len() == i,
                forall|i: int| 0 <= i < data@.len() ==> (#[trigger] char_index(data@[i])) is Some,
                forall|j: int|
                    0 <= j < i ==> #[trigger] positions@[j] as int == char_index(
                        data@[j],
                    ).unwrap() && positions@[j] < 11,
            decreases data@.len() - i,
        {
            proof {
                lemma_char_index_range(data@[i as int]);
            }
            let p = match char_position(data[i]) {
                Some(p) => p,
                None => 0,
            };
            positions.push(p);
            i += 1;
        }
        assert(positions@.map_values(|p: usize| p as int) =~= positions_of(data@));
        let index = helpers::weighted_checksum_index(&positions, threshold, 11);
        proof {
            lemma_char_index_first(index as int);
        }
        CHARS[index].0
    }

    /// Appends the modules of `c` and the separator.
    fn push_encoding(into: &mut Vec<u8>, c: char)
        requires
            char_index(c) is Some,
        ensures
            final(into)@ == old(into)@ + char_piece(c),
    {
        proof {
            lemma_char_index_range(c);
            assert(forall|k: int| 0 <= k < 11 ==> 6 <= #[trigger] CHARS[k].2 <= 7);
        }
        let p = match char_position(c) {
            Some(p) => p,
            None => 0,
        };
        let (_, modules, width) = CHARS[p];
        let ghost start = into@;
        let mut j: usize = 0;
        while j < width
            invariant
                j <= width <= 7,
                modules == CHARS[p as int].1,
                into@ == start + modules@.take(j as int),
            decreases width - j,
        {
            into.push(modules[j]);
            assert(into@ =~= start + modules@.take(j + 1));
            j += 1;
        }
        into.extend_from_slice(&SEPARATOR);
    }

    fn payload(&self) -> (payload: Vec<u8>)
        ensures
            payload@ == concat_n(self@.len(), |i: int| char_piece(self@[i])) + char_piece(
                c_checksum(self@),
            ) + (if self@.len() > 10 {
                char_piece(k_checksum(self@))
            } else {
                Seq::empty()
            }),
    {
        proof {
            use_type_invariant(self);
        }
        let c_checksum = Self::checksum_char(&self.0, 10);
        let ghost f = |i: int| char_piece(self@[i]);
        let mut enc: Vec<u8> = Vec::new();
        let mut i: usize = 0;
        while i < self.0.len()
            invariant
                i <= self@.len(),
                valid_data(self@),
                self.0@ == self@,
                f == (|i: int| char_piece(self@[i])),
                enc@ == concat_n(i as nat, f),
            decreases self@.len() - i,
        {
            Self::push_encoding(&mut enc, self.0[i]);
            i += 1;
        }
        Self::push_encoding(&mut enc, c_checksum);
        if self.0.len() > 10 {
            let mut with_c = self.0.clone();
            assert(with_c@ =~= self.0@);
            with_c.push(c_checksum);
            assert forall|i: int| 0 <= i < with_c@.len() implies (#[trigger] char_index(
                with_c@[i],
            )) is Some by {
                if i < self.0@.len() {
                    assert(with_c@[i] == self.0@[i]);
                }
            }
            let k_checksum = Self::checksum_char(&with_c, 9);
            Self::push_encoding(&mut enc, k_checksum);
        } else {
            assert(enc@ =~= enc@ + Seq::<u8>::empty());
        }
        enc
    }

    /// Encodes the barcode into its binary modules.
    pub fn encode(&self) -> (modules: Vec<u8>)
        ensures
            modules@ == code11_modules(self@),
            is_binary(modules@),
            1 <= modules@.len() <= 8 * self@.len() + 31,
            modules@.len() <= 2079,
    {
        let payload = self.payload();
        let modules = helpers::join_slices(&[&GUARD, &SEPARATOR, payload.as_slice(), &GUARD]);
        proof {
            use_type_invariant(self);
            reveal_with_fuel(helpers::joined, 5);
            lemma_code11_modules_shape(self@);
            assert(modules@ =~= code11_modules(self@));
        }
        modules
    }
}

proof fn lemma_checksum_char_valid(data: Seq<char>, threshold: int)
    requires
        threshold > 0,
        forall|i: int| 0 <= i < data.len() ==> (#[trigger] char_index(data[i])) is Some,
    ensures
        char_index(checksum_char(data, threshold)) is Some,
{
    let v = positions_of(data);
    assert forall|i: int| 0 <= i < v.len() implies #[trigger] v[i] >= 0 by {
        lemma_char_index_range(data[i]);
    }
    helpers::lemma_weighted_sum_nonneg(v, threshold);
    lemma_char_index_first(weighted_sum(v, threshold) % 11);
}

proof fn lemma_piece_shape(c: char)
    requires
        char_index(c) is Some,
    ensures
        is_binary(char_piece(c)),
        7 <= char_piece(c).len() <= 8,
{
    lemma_char_index_range(c);
    let k = char_index(c).unwrap();
    assert(is_binary(CHARS[k].1@) && 6 <= CHARS[k].2 <= 7);
    assert(is_binary(char_pattern(c)));
    helpers::lemma_add_binary(char_pattern(c), SEPARATOR@);
}

proof fn lemma_concat_pieces_len(data: Seq<char>, n: nat)
    requires
        n <= data.len(),
        forall|i: int| 0 <= i < data.len() ==> (#[trigger] char_index(data[i])) is Some,
    ensures
        concat_n(n, |i: int| char_piece(data[i])).len() <= 8 * n,
    decreases n,
{
    if n > 0 {
        lemma_concat_pieces_len(data, (n - 1) as nat);
        lemma_piece_shape(data[n - 1]);
    }
}

/// The Code11 modules of valid data are binary, at most eight modules per character plus
/// the guards and check characters.
pub proof fn lemma_code11_modules_shape(data: Seq<char>)
    requires
        valid_data(data),
    ensures
        is_binary(code11_modules(data)),
        1 <= code11_modules(data).len() <= 8 * data.len() + 31,
{
    let f = |i: int| char_piece(data[i]);
    assert forall|i: int| 0 <= i < data.len() implies is_binary(#[trigger] f(i)) by {
        lemma_piece_shape(data[i]);
    }
    helpers::lemma_concat_n_binary(data.len(), f);
    lemma_concat_pieces_len(data, data.len());
    lemma_checksum_char_valid(data, 10);
    let c = c_checksum(data);
    let with_c = data.push(c);
    assert forall|i: int| 0 <= i < with_c.len() implies (#[trigger] char_index(with_c[i])) is Some by {
        if i < data.len() {
            assert(with_c[i] == data[i]);
        }
    }
    lemma_checksum_char_valid(with_c, 9);
    let k = k_checksum(data);
    lemma_piece_shape(c);
    lemma_piece_shape(k);
    let tail = if data.len() > 10 {
        char_piece(k)
    } else {
        Seq::empty()
    };
    assert(is_binary(GUARD@) && is_binary(SEPARATOR@));
    let body = concat_n(data.len(), f);
    helpers::lemma_add_binary(GUARD@, SEPARATOR@);
    helpers::lemma_add_binary(GUARD@ + SEPARATOR@, body);
    helpers::lemma_add_binary(GUARD@ + SEPARATOR@ + body, char_piece(c));
    helpers::lemma_add_binary(GUARD@ + SEPARATOR@ + body + char_piece(c), tail);
    helpers::lemma_add_binary(GUARD@ + SEPARATOR@ + body + char_piece(c) + tail, GUARD@);
}

} // verus!
