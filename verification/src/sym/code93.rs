//! Encoder for Code93 barcodes.
//!
//! Code93 improves upon Code39 by offering a wider array of encodable ASCII characters. It
//! also produces denser barcodes than Code39.
//!
//! Code93 is a continuous, variable-length symbology. This encoder supports the basic Code93
//! character set, not the full-ASCII mode.

use crate::error::Result;
use crate::sym::helpers::{self, concat_n, is_binary, weighted_sum};
use crate::sym::{parse_input, spec_parse_input, Charset};
use vstd::prelude::*;

verus! {

/// Character to modules mappings for the 47 allowed characters. The special "full-ASCII"
/// characters are represented with `(`, `)`, `[` and `]`.
pub const CHARS: [(char, [u8; 9]); 47] = [
    ('0', [1, 0, 0, 0, 1, 0, 1, 0, 0]),
    ('1', [1, 0, 1, 0, 0, 1, 0, 0, 0]),
    ('2', [1, 0, 1, 0, 0, 0, 1, 0, 0]),
    ('3', [1, 0, 1, 0, 0, 0, 0, 1, 0]),
    ('4', [1, 0, 0, 1, 0, 1, 0, 0, 0]),
    ('5', [1, 0, 0, 1, 0, 0, 1, 0, 0]),
    ('6', [1, 0, 0, 1, 0, 0, 0, 1, 0]),
    ('7', [1, 0, 1, 0, 1, 0, 0, 0, 0]),
    ('8', [1, 0, 0, 0, 1, 0, 0, 1, 0]),
    ('9', [1, 0, 0, 0, 0, 1, 0, 1, 0]),
    ('A', [1, 1, 0, 1, 0, 1, 0, 0, 0]),
    ('B', [1, 1, 0, 1, 0, 0, 1, 0, 0]),
    ('C', [1, 1, 0, 1, 0, 0, 0, 1, 0]),
    ('D', [1, 1, 0, 0, 1, 0, 1, 0, 0]),
    ('E', [1, 1, 0, 0, 1, 0, 0, 1, 0]),
    ('F', [1, 1, 0, 0, 0, 1, 0, 1, 0]),
    ('G', [1, 0, 1, 1, 0, 1, 0, 0, 0]),
    ('H', [1, 0, 1, 1, 0, 0, 1, 0, 0]),
    ('I', [1, 0, 1, 1, 0, 0, 0, 1, 0]),
    ('J', [1, 0, 0, 1, 1, 0, 1, 0, 0]),
    ('K', [1, 0, 0, 0, 1, 1, 0, 1, 0]),
    ('L', [1, 0, 1, 0, 1, 1, 0, 0, 0]),
    ('M', [1, 0, 1, 0, 0, 1, 1, 0, 0]),
    ('N', [1, 0, 1, 0, 0, 0, 1, 1, 0]),
    ('O', [1, 0, 0, 1, 0, 1, 1, 0, 0]),
    ('P', [1, 0, 0, 0, 1, 0, 1, 1, 0]),
    ('Q', [1, 1, 0, 1, 1, 0, 1, 0, 0]),
    ('R', [1, 1, 0, 1, 1, 0, 0, 1, 0]),
    ('S', [1, 1, 0, 1, 0, 1, 1, 0, 0]),
    ('T', [1, 1, 0, 1, 0, 0, 1, 1, 0]),
    ('U', [1, 1, 0, 0, 1, 0, 1, 1, 0]),
    ('V', [1, 1, 0, 0, 1, 1, 0, 1, 0]),
    ('W', [1, 0, 1, 1, 0, 1, 1, 0, 0]),
    ('X', [1, 0, 1, 1, 0, 0, 1, 1, 0]),
    ('Y', [1, 0, 0, 1, 1, 0, 1, 1, 0]),
    ('Z', [1, 0, 0, 1, 1, 1, 0, 1, 0]),
    ('-', [1, 0, 0, 1, 0, 1, 1, 1, 0]),
    ('.', [1, 1, 1, 0, 1, 0, 1, 0, 0]),
    (' ', [1, 1, 1, 0, 1, 0, 0, 1, 0]),
    ('$', [1, 1, 1, 0, 0, 1, 0, 1, 0]),
    ('/', [1, 0, 1, 1, 0, 1, 1, 1, 0]),
    ('+', [1, 0, 1, 1, 1, 0, 1, 1, 0]),
    ('%', [1, 1, 0, 1, 0, 1, 1, 1, 0]),
    ('(', [1, 0, 0, 1, 0, 0, 1, 1, 0]),
    (')', [1, 1, 1, 0, 1, 1, 0, 1, 0]),
    ('[', [1, 1, 1, 0, 1, 0, 1, 1, 0]),
    (']', [1, 0, 0, 1, 1, 0, 0, 1, 0]),
];

/// Code93 barcodes start and end with the special `*` character.
pub const GUARD: [u8; 9] = [1, 0, 1, 0, 1, 1, 1, 1, 0];
/// The termination bar after the closing guard.
pub const TERMINATOR: [u8; 1] = [1];

/// Position of the first entry of [`CHARS`], at or after `from`, for the character `c`.
pub open spec fn char_index_from(c: char, from: int) -> Option<int>
    decreases 47 - from,
{
    if from < 0 || from >= 47 {
        None
    } else if CHARS[from].0 == c {
        Some(from)
    } else {
        char_index_from(c, from + 1)
    }
}

/// Position of the character `c` in [`CHARS`], if it is a Code93 character.
pub open spec fn char_index(c: char) -> Option<int> {
    char_index_from(c, 0)
}

proof fn lemma_char_index_from_range(c: char, from: int)
    requires
        0 <= from,
    ensures
        char_index_from(c, from) matches Some(i) ==> from <= i < 47 && CHARS[i].0 == c,
    decreases 47 - from,
{
    if from < 47 && CHARS[from].0 != c {
        lemma_char_index_from_range(c, from + 1);
    }
}

/// A found position is a valid index of [`CHARS`] holding that character.
pub proof fn lemma_char_index_range(c: char)
    ensures
        char_index(c) matches Some(i) ==> 0 <= i < 47 && CHARS[i].0 == c,
{
    lemma_char_index_from_range(c, 0);
}

proof fn lemma_char_index_search(c: char, from: int, i: int)
    requires
        0 <= from <= i < 47,
        CHARS[i].0 == c,
        forall|j: int| from <= j < i ==> CHARS[j].0 != c,
    ensures
        char_index_from(c, from) == Some(i),
    decreases i - from,
{
    if from < i {
        lemma_char_index_search(c, from + 1, i);
    }
}

/// Each character of [`CHARS`] is found at its own position: the characters are distinct.
proof fn lemma_char_index_first(i: int)
    requires
        0 <= i < 47,
    ensures
        char_index(CHARS[i].0) == Some(i),
{
    assert(forall|a: int, b: int| 0 <= a < b < 47 ==> CHARS[a].0 != CHARS[b].0);
    lemma_char_index_search(CHARS[i].0, 0, i);
}

/// Finds the position of `c` in [`CHARS`].
pub fn char_position(c: char) -> (position: Option<usize>)
    ensures
        position matches Some(i) ==> char_index(c) == Some(i as int),
        position is None ==> char_index(c) is None,
{
    let mut i: usize = 0;
    while i < 47
        invariant
            i <= 47,
            char_index(c) == char_index_from(c, i as int),
        decreases 47 - i,
    {
        if CHARS[i].0 == c {
            return Some(i);
        }
        i += 1;
    }
    None
}

/// The [`CHARS`] positions of the characters of `data`.
pub open spec fn positions_of(data: Seq<char>) -> Seq<int> {
    data.map_values(|c: char| char_index(c).unwrap_or(0))
}

/// The weighted modulo-47 check character of `data`, the weights cycling through
/// `1..=threshold` from the end.
pub open spec fn checksum_char(data: Seq<char>, threshold: int) -> char {
    CHARS[weighted_sum(positions_of(data), threshold) % 47].0
}

/// The C check character (weights up to 20).
pub open spec fn c_checksum(data: Seq<char>) -> char {
    checksum_char(data, 20)
}

/// The K check character (weights up to 15), computed over the data and the C character.
pub open spec fn k_checksum(data: Seq<char>) -> char {
    checksum_char(data.push(c_checksum(data)), 15)
}

/// The modules of the Code93 character `c`.
pub open spec fn char_pattern(c: char) -> Seq<u8> {
    CHARS[char_index(c).unwrap()].1@
}

/// The modules of the Code93 barcode of `data`: the guard, the characters, the C and K check
/// characters, the guard and the termination bar.
pub open spec fn code93_modules(data: Seq<char>) -> Seq<u8> {
    GUARD@ + concat_n(data.len(), |i: int| char_pattern(data[i])) + char_pattern(c_checksum(data))
        + char_pattern(k_checksum(data)) + GUARD@ + TERMINATOR@
}

/// Every character of `data` is a Code93 character.
pub open spec fn valid_data(data: Seq<char>) -> bool {
    &&& 1 <= data.len() <= 256
    &&& forall|i: int| 0 <= i < data.len() ==> (#[trigger] char_index(data[i])) is Some
}

/// What [`Code93::new`] keeps of the text `s`.
pub open spec fn spec_code93_new(s: Seq<char>) -> core::result::Result<Seq<char>, crate::error::Error> {
    spec_parse_input(s, 1, 256, Charset::Code93)
}

/// The Code93 barcode type.
#[derive(Debug)]
pub struct Code93(Vec<char>);

impl View for Code93 {
    type V = Seq<char>;

    closed spec fn view(&self) -> Seq<char> {
        self.0@
    }
}

impl Code93 {
    #[verifier::type_invariant]
    spec fn well_formed(self) -> bool {
        valid_data(self.0@)
    }

    /// Creates a new barcode.
    pub fn new(data: &str) -> (barcode: Result<Code93>)
        ensures
            crate::error::result_view(barcode) == spec_code93_new(data@),
    {
        let chars = parse_input(data, 1, 256, Charset::Code93)?;
        proof {
            crate::sym::lemma_parse_input_ok(data@, 1, 256, Charset::Code93);
        }
        Ok(Code93(chars))
    }

    fn char_encoding(c: char) -> (modules: [u8; 9])
        requires
            char_index(c) is Some,
        ensures
            modules@ == char_pattern(c),
    {
        proof {
            lemma_char_index_range(c);
        }
        match char_position(c) {
            Some(p) => CHARS[p].1,
            None => GUARD,
        }
    }

    /// The weighted modulo-47 check character of `data`.
    fn checksum_char(data: &Vec<char>, threshold: usize) -> (c: char)
        requires
            0 < threshold <= 20,
            forall|i: int| 0 <= i < data@.len() ==> (#[trigger] char_index(data@[i])) is Some,
        ensures
            c == checksum_char(data@, threshold as int),
            char_index(c) is Some,
    {
        let mut positions: Vec<usize> = Vec::new();
        let mut i: usize = 0;
        while i < data.len()
            invariant
                i <= data@.len(),
                positions@.len() == i,
                forall|i: int| 0 <= i < data@.len() ==> (#[trigger] char_index(data@[i])) is Some,
                forall|j: int|
                    0 <= j < i ==> #[trigger] positions@[j] as int == char_index(
                        data@[j],
                    ).unwrap() && positions@[j] < 47,
            decreases data@.len() - i,
        {
            proof {
                lemma_char_index_range(data@[i as int]);
            }
            let p = match char_position(data[i]) {
                Some(p) => p,
                None => 0,
            };
            positions.push(p);
            i += 1;
        }
        assert(positions@.map_values(|p: usize| p as int) =~= positions_of(data@));
        let index = helpers::weighted_checksum_index(&positions, threshold, 47);
        proof {
            lemma_char_index_first(index as int);
        }
        CHARS[index].0
    }

    fn payload(&self) -> (payload: Vec<u8>)
        ensures
            payload@ == concat_n(self@.len(), |i: int| char_pattern(self@[i])) + char_pattern(
                c_checksum(self@),
            ) + char_pattern(k_checksum(self@)),
    {
        proof {
            use_type_invariant(self);
        }
        let c_checksum = Self::checksum_char(&self.0, 20);
        let mut with_c = self.0.clone();
        assert(with_c@ =~= self.0@);
        with_c.push(c_checksum);
        assert forall|i: int| 0 <= i < with_c@.len() implies (#[trigger] char_index(
            with_c@[i],
        )) is Some by {
            if i < self.0@.len() {
                assert(with_c@[i] == self.0@[i]);
            }
        }
        let k_checksum = Self::checksum_char(&with_c, 15);
        let ghost f = |i: int| char_pattern(self@[i]);
        let mut enc: Vec<u8> = Vec::new();
        let mut i: usize = 0;
        while i < self.0.len()
            invariant
                i <= self@.len(),
                valid_data(self@),
                self.0@ == self@,
                f == (|i: int| char_pattern(self@[i])),
                enc@ == concat_n(i as nat, f),
            decreases self@.len() - i,
        {
            let modules = Self::char_encoding(self.0[i]);
            enc.extend_from_slice(&modules);
            i += 1;
        }
        let c_modules = Self::char_encoding(c_checksum);
        enc.extend_from_slice(&c_modules);
        let k_modules = Self::char_encoding(k_checksum);
        enc.extend_from_slice(&k_modules);
        enc
    }

    /// Encodes the barcode into its binary modules.
    pub fn encode(&self) -> (modules: Vec<u8>)
        ensures
            modules@ == code93_modules(self@),
            is_binary(modules@),
            modules@.len() == 9 * self@.len() + 37,
            modules@.len() <= 2341,
    {
        let payload = self.payload();
        let modules = helpers::join_slices(&[&GUARD, payload.as_slice(), &GUARD, &TERMINATOR]);
        proof {
            use_type_invariant(self);
            reveal_with_fuel(helpers::joined, 5);
            lemma_code93_modules_shape(self@);
            assert(modules@ =~= code93_modules(self@));
        }
        modules
    }
}

proof fn lemma_checksum_char_valid(data: Seq<char>, threshold: int)
    requires
        threshold > 0,
        forall|i: int| 0 <= i < data.len() ==> (#[trigger] char_index(data[i])) is Some,
    ensures
        char_index(checksum_char(data, threshold)) is Some,
{
    let v = positions_of(data);
    assert forall|i: int| 0 <= i < v.len() implies #[trigger] v[i] >= 0 by {
        lemma_char_index_range(data[i]);
    }
    helpers::lemma_weighted_sum_nonneg(v, threshold);
    lemma_char_index_first(weighted_sum(v, threshold) % 47);
}

/// The Code93 modules of valid data are binary, nine modules per character plus 37.
pub proof fn lemma_code93_modules_shape(data: Seq<char>)
    requires
        valid_data(data),
    ensures
        is_binary(code93_modules(data)),
        code93_modules(data).len() == 9 * data.len() + 37,
{
    let f = |i: int| char_pattern(data[i]);
    assert forall|i: int| 0 <= i < data.len() implies is_binary(#[trigger] f(i)) && f(i).len()
        == 9 by {
        lemma_char_index_range(data[i]);
        let k = char_index(data[i]).unwrap();
        assert(is_binary(CHARS[k].1@));
    }
    helpers::lemma_concat_n_binary(data.len(), f);
    helpers::lemma_concat_n_len(data.len(), f, 9);
    lemma_checksum_char_valid(data, 20);
    let c = c_checksum(data);
    let with_c = data.push(c);
    assert forall|i: int| 0 <= i < with_c.len() implies (#[trigger] char_index(with_c[i])) is Some by {
        if i < data.len() {
            assert(with_c[i] == data[i]);
        }
    }
    lemma_checksum_char_valid(with_c, 15);
    let k = k_checksum(data);
    lemma_char_index_range(c);
    lemma_char_index_range(k);
    assert(is_binary(CHARS[char_index(c).unwrap()].1@));
    assert(is_binary(CHARS[char_index(k).unwrap()].1@));
    assert(is_binary(GUARD@) && is_binary(TERMINATOR@));
    let body = concat_n(data.len(), f);
    helpers::lemma_add_binary(GUARD@, body);
    helpers::lemma_add_binary(GUARD@ + body, char_pattern(c));
    helpers::lemma_add_binary(GUARD@ + body + char_pattern(c), char_pattern(k));
    helpers::lemma_add_binary(GUARD@ + body + char_pattern(c) + char_pattern(k), GUARD@);
    helpers::lemma_add_binary(
        GUARD@ + body + char_pattern(c) + char_pattern(k) + GUARD@,
        TERMINATOR@,
    );
}

} // verus!
