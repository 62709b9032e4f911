//! Encoder for Code39 barcodes.
//!
//! Code39 is a discrete, variable-length barcode, often called "3-of-9".
//!
//! It is the standard barcode of the US Department of Defense and common outside retail. It
//! was one of the first symbologies able to encode the ASCII alphabet.

use crate::error::Result;
use crate::sym::helpers::{self, concat_n, is_binary};
use crate::sym::{parse_input, spec_parse_input, Charset};
use vstd::prelude::*;

verus! {

/// Character to modules mappings for the 43 allowed characters.
pub const CHARS: [(char, [u8; 12]); 43] = [
    ('0', [1, 0, 1, 0, 0, 1, 1, 0, 1, 1, 0, 1]),
    ('1', [1, 1, 0, 1, 0, 0, 1, 0, 1, 0, 1, 1]),
    ('2', [1, 0, 1, 1, 0, 0, 1, 0, 1, 0, 1, 1]),
    ('3', [1, 1, 0, 1, 1, 0, 0, 1, 0, 1, 0, 1]),
    ('4', [1, 0, 1, 0, 0, 1, 1, 0, 1, 0, 1, 1]),
    ('5', [1, 1, 0, 1, 0, 0, 1, 1, 0, 1, 0, 1]),
    ('6', [1, 0, 1, 1, 0, 0, 1, 1, 0, 1, 0, 1]),
    ('7', [1, 0, 1, 0, 0, 1, 0, 1, 1, 0, 1, 1]),
    ('8', [1, 1, 0, 1, 0, 0, 1, 0, 1, 1, 0, 1]),
    ('9', [1, 0, 1, 1, 0, 0, 1, 0, 1, 1, 0, 1]),
    ('A', [1, 1, 0, 1, 0, 1, 0, 0, 1, 0, 1, 1]),
    ('B', [1, 0, 1, 1, 0, 1, 0, 0, 1, 0, 1, 1]),
    ('C', [1, 1, 0, 1, 1, 0, 1, 0, 0, 1, 0, 1]),
    ('D', [1, 0, 1, 0, 1, 1, 0, 0, 1, 0, 1, 1]),
    ('E', [1, 1, 0, 1, 0, 1, 1, 0, 0, 1, 0, 1]),
    ('F', [1, 0, 1, 1, 0, 1, 1, 0, 0, 1, 0, 1]),
    ('G', [1, 0, 1, 0, 1, 0, 0, 1, 1, 0, 1, 1]),
    ('H', [1, 1, 0, 1, 0, 1, 0, 0, 1, 1, 0, 1]),
    ('I', [1, 0, 1, 1, 0, 1, 0, 0, 1, 1, 0, 1]),
    ('J', [1, 0, 1, 0, 1, 1, 0, 0, 1, 1, 0, 1]),
    ('K', [1, 1, 0, 1, 0, 1, 0, 1, 0, 0, 1, 1]),
    ('L', [1, 0, 1, 1, 0, 1, 0, 1, 0, 0, 1, 1]),
    ('M', [1, 1, 0, 1, 1, 0, 1, 0, 1, 0, 0, 1]),
    ('N', [1, 0, 1, 0, 1, 1, 0, 1, 0, 0, 1, 1]),
    ('O', [1, 1, 0, 1, 0, 1, 1, 0, 1, 0, 0, 1]),
    ('P', [1, 0, 1, 1, 0, 1, 1, 0, 1, 0, 0, 1]),
    ('Q', [1, 0, 1, 0, 1, 0, 1, 1, 0, 0, 1, 1]),
    ('R', [1, 1, 0, 1, 0, 1, 0, 1, 1, 0, 0, 1]),
    ('S', [1, 0, 1, 1, 0, 1, 0, 1, 1, 0, 0, 1]),
    ('T', [1, 0, 1, 0, 1, 1, 0, 1, 1, 0, 0, 1]),
    ('U', [1, 1, 0, 0, 1, 0, 1, 0, 1, 0, 1, 1]),
    ('V', [1, 0, 0, 1, 1, 0, 1, 0, 1, 0, 1, 1]),
    ('W', [1, 1, 0, 0, 1, 1, 0, 1, 0, 1, 0, 1]),
    ('X', [1, 0, 0, 1, 0, 1, 1, 0, 1, 0, 1, 1]),
    ('Y', [1, 1, 0, 0, 1, 0, 1, 1, 0, 1, 0, 1]),
    ('Z', [1, 0, 0, 1, 1, 0, 1, 1, 0, 1, 0, 1]),
    ('-', [1, 0, 0, 1, 0, 1, 0, 1, 1, 0, 1, 1]),
    ('.', [1, 1, 0, 0, 1, 0, 1, 0, 1, 1, 0, 1]),
    (' ', [1, 0, 0, 1, 1, 0, 1, 0, 1, 1, 0, 1]),
    ('$', [1, 0, 0, 1, 0, 0, 1, 0, 0, 1, 0, 1]),
    ('/', [1, 0, 0, 1, 0, 0, 1, 0, 1, 0, 0, 1]),
    ('+', [1, 0, 0, 1, 0, 1, 0, 0, 1, 0, 0, 1]),
    ('%', [1, 0, 1, 0, 0, 1, 0, 0, 1, 0, 0, 1]),
];

/// Code39 barcodes start and end with the special `*` character.
pub const GUARD: [u8; 12] = [1, 0, 0, 1, 0, 1, 1, 0, 1, 1, 0, 1];

/// Position of the first entry of [`CHARS`], at or after `from`, for the character `c`.
pub open spec fn char_index_from(c: char, from: int) -> Option<int>
    decreases 43 - from,
{
    if from < 0 || from >= 43 {
        None
    } else if CHARS[from].0 == c {
        Some(from)
    } else {
        char_index_from(c, from + 1)
    }
}

/// Position of the character `c` in [`CHARS`], if it is a Code39 character.
pub open spec fn char_index(c: char) -> Option<int> {
    char_index_from(c, 0)
}

proof fn lemma_char_index_from_range(c: char, from: int)
    requires
        0 <= from,
    ensures
        char_index_from(c, from) matches Some(i) ==> from <= i < 43 && CHARS[i].0 == c,
    decreases 43 - from,
{
    if from < 43 && CHARS[from].0 != c {
        lemma_char_index_from_range(c, from + 1);
    }
}

/// A found position is a valid index of [`CHARS`] holding that character.
pub proof fn lemma_char_index_range(c: char)
    ensures
        char_index(c) matches Some(i) ==> 0 <= i < 43 && CHARS[i].0 == c,
{
    lemma_char_index_from_range(c, 0);
}

/// Finds the position of `c` in [`CHARS`].
pub fn char_position(c: char) -> (position: Option<usize>)
    ensures
        position matches Some(i) ==> char_index(c) == Some(i as int),
        position is None ==> char_index(c) is None,
{
    let mut i: usize = 0;
    while i < 43
        invariant
            i <= 43,
            char_index(c) == char_index_from(c, i as int),
        decreases 43 - i,
    {
        if CHARS[i].0 == c {
            return Some(i);
        }
        i += 1;
    }
    None
}

/// Sum of the [`CHARS`] positions of the characters of `data`.
pub open spec fn position_sum(data: Seq<char>) -> int
    decreases data.len(),
{
    if data.len() == 0 {
        0
    } else {
        position_sum(data.drop_last()) + char_index(data.last()).unwrap_or(0)
    }
}

/// The modulo-43 check character of `data`.
pub open spec fn checksum_char(data: Seq<char>) -> char {
    CHARS[position_sum(data) % 43].0
}

/// The modules of the Code39 character `c`.
pub open spec fn char_pattern(c: char) -> Seq<u8> {
    CHARS[char_index(c).unwrap()].1@
}

/// The modules of the Code39 barcode of `data`, with the check character when `checksum`.
/// Every character is followed by a narrow space, and the payload starts with one.
pub open spec fn code39_modules(data: Seq<char>, checksum: bool) -> Seq<u8> {
    GUARD@ + seq![0u8] + concat_n(data.len(), |i: int| char_pattern(data[i]) + seq![0u8]) + (
    if checksum {
        char_pattern(checksum_char(data)) + seq![0u8]
    } else {
        Seq::empty()
    }) + GUARD@
}

/// Every character of `data` is a Code39 character.
pub open spec fn valid_data(data: Seq<char>) -> bool {
    &&& 1 <= data.len() <= 256
    &&& forall|i: int| 0 <= i < data.len() ==> (#[trigger] char_index(data[i])) is Some
}

/// Validated Code39 characters.
#[derive(Debug, PartialEq, Eq)]
pub struct Code39Data(Vec<char>);

impl Code39Data {
    /// The characters.
    pub closed spec fn chars(self) -> Seq<char> {
        self.0@
    }

    #[verifier::type_invariant]
    spec fn well_formed(self) -> bool {
        valid_data(self.0@)
    }
}

/// The Code39 barcode type.
#[derive(Debug, PartialEq, Eq)]
pub struct Code39 {
    /// The validated characters; only this module can make a value of this type.
    pub data: Code39Data,
    /// Whether the check character is encoded.
    pub checksum: bool,
}

impl View for Code39 {
    type V = Seq<char>;

    closed spec fn view(&self) -> Seq<char> {
        self.data.chars()
    }
}

impl Clone for Code39 {
    fn clone(&self) -> (copy: Self)
        ensures
            copy@ == self@,
            copy.encodes_checksum() == self.encodes_checksum(),
    {
        proof {
            use_type_invariant(&self.data);
        }
        let chars = self.data.0.clone();
        assert(chars@ =~= self.data.0@);
        Code39 { data: Code39Data(chars), checksum: self.checksum }
    }
}

/// What [`Code39::new`] and [`Code39::with_checksum`] keep of the text `s`.
pub open spec fn spec_code39_new(s: Seq<char>) -> core::result::Result<Seq<char>, crate::error::Error> {
    spec_parse_input(s, 1, 256, Charset::Code39)
}

impl Code39 {
    /// Whether the check character is encoded (the `checksum` field).
    pub open spec fn encodes_checksum(&self) -> bool {
        self.checksum
    }

    fn init(data: &str, checksum: bool) -> (barcode: Result<Code39>)
        ensures
            crate::error::result_view(barcode) == spec_code39_new(data@),
            barcode matches Ok(b) ==> b.encodes_checksum() == checksum,
    {
        let chars = parse_input(data, 1, 256, Charset::Code39)?;
        proof {
            crate::sym::lemma_parse_input_ok(data@, 1, 256, Charset::Code39);
        }
        Ok(Code39 { data: Code39Data(chars), checksum })
    }

    /// Creates a new barcode without the check character.
    pub fn new(data: &str) -> (barcode: Result<Code39>)
        ensures
            crate::error::result_view(barcode) == spec_code39_new(data@),
            barcode matches Ok(b) ==> !b.encodes_checksum(),
    {
        Code39::init(data, false)
    }

    /// Creates a new barcode that encodes the modulo-43 check character.
    pub fn with_checksum(data: &str) -> (barcode: Result<Code39>)
        ensures
            crate::error::result_view(barcode) == spec_code39_new(data@),
            barcode matches Ok(b) ==> b.encodes_checksum(),
    {
        Code39::init(data, true)
    }

    /// The modulo-43 check character.
    fn checksum_char(&self) -> (c: char)
        ensures
            c == checksum_char(self@),
            char_index(c) is Some,
    {
        proof {
            use_type_invariant(&self.data);
        }
        let data = &self.data.0;
        let mut sum: usize = 0;
        let mut i: usize = 0;
        while i < data.len()
            invariant
                i <= data@.len(),
                valid_data(data@),
                sum < 43,
                sum == position_sum(data@.take(i as int)) % 43,
            decreases data@.len() - i,
        {
            let c = data[i];
            let position = char_position(c);
            proof {
                lemma_char_index_range(c);
                assert(data@.take(i + 1).drop_last() =~= data@.take(i as int));
                lemma_position_sum_nonneg(data@.take(i as int));
                assert(char_index(data@[i as int]) is Some);
            }
            let p = match position {
                Some(p) => p,
                None => 0,
            };
            assert((position_sum(data@.take(i as int)) % 43 + p) % 43 == (position_sum(
                data@.take(i as int),
            ) + p) % 43) by (nonlinear_arith)
                requires
                    position_sum(data@.take(i as int)) >= 0,
                    p >= 0,
            ;
            sum = (sum + p) % 43;
            i += 1;
        }
        assert(data@.take(data@.len() as int) =~= data@);
        let c = CHARS[sum].0;
        proof {
            lemma_char_index_first(sum as int);
        }
        c
    }

    fn char_encoding(c: char) -> (modules: [u8; 12])
        requires
            char_index(c) is Some,
        ensures
            modules@ == char_pattern(c),
    {
        proof {
            lemma_char_index_range(c);
        }
        match char_position(c) {
            Some(p) => CHARS[p].1,
            None => GUARD,
        }
    }

    fn payload(&self) -> (payload: Vec<u8>)
        ensures
            payload@ == seq![0u8] + concat_n(self@.len(), |i: int| char_pattern(self@[i]) + seq![0u8])
                + (if self.encodes_checksum() {
                char_pattern(checksum_char(self@)) + seq![0u8]
            } else {
                Seq::empty()
            }),
    {
        proof {
            use_type_invariant(&self.data);
        }
        let data = &self.data.0;
        let ghost f = |i: int| char_pattern(self@[i]) + seq![0u8];
        let mut enc: Vec<u8> = vec![0];
        let mut i: usize = 0;
        while i < data.len()
            invariant
                i <= data@.len(),
                data@ == self@,
                valid_data(data@),
                f == (|i: int| char_pattern(self@[i]) + seq![0u8]),
                enc@ == seq![0u8] + concat_n(i as nat, f),
            decreases data@.len() - i,
        {
            let ghost before = enc@;
            let modules = Self::char_encoding(data[i]);
            enc.extend_from_slice(&modules);
            enc.push(0);
            assert(enc@ =~= before + f(i as int));
            i += 1;
        }
        if self.checksum {
            let ghost before = enc@;
            let modules = Self::char_encoding(self.checksum_char());
            enc.extend_from_slice(&modules);
            enc.push(0);
            assert(enc@ =~= before + char_pattern(checksum_char(self@)) + seq![0u8]);
        } else {
            assert(enc@ =~= enc@ + Seq::<u8>::empty());
        }
        enc
    }

    /// Encodes the barcode into its binary modules.
    pub fn encode(&self) -> (modules: Vec<u8>)
        ensures
            modules@ == code39_modules(self@, self.encodes_checksum()),
            is_binary(modules@),
            modules@.len() == 13 * self@.len() + 25 + if self.encodes_checksum() {
                13int
            } else {
                0
            },
            modules@.len() <= 3380,
    {
        let payload = self.payload();
        let modules = helpers::join_slices(&[&GUARD, payload.as_slice(), &GUARD]);
        proof {
            use_type_invariant(&self.data);
            reveal_with_fuel(helpers::joined, 4);
            lemma_code39_modules_shape(self@, self.checksum);
            assert(modules@ =~= code39_modules(self@, self.checksum));
        }
        modules
    }
}

proof fn lemma_position_sum_nonneg(data: Seq<char>)
    ensures
        position_sum(data) >= 0,
    decreases data.len(),
{
    if data.len() > 0 {
        lemma_position_sum_nonneg(data.drop_last());
        lemma_char_index_range(data.last());
    }
}

/// Each character of [`CHARS`] is found at its own position: the characters are distinct.
proof fn lemma_char_index_first(i: int)
    requires
        0 <= i < 43,
    ensures
        char_index(CHARS[i].0) == Some(i),
{
    assert(forall|a: int, b: int| 0 <= a < b < 43 ==> CHARS[a].0 != CHARS[b].0);
    lemma_char_index_search(CHARS[i].0, 0, i);
}

proof fn lemma_char_index_search(c: char, from: int, i: int)
    requires
        0 <= from <= i < 43,
        CHARS[i].0 == c,
        forall|j: int| from <= j < i ==> CHARS[j].0 != c,
    ensures
        char_index_from(c, from) == Some(i),
    decreases i - from,
{
    if from < i {
        lemma_char_index_search(c, from + 1, i);
    }
}

/// The Code39 modules of valid data are binary: thirteen modules per character, plus the
/// guards, the leading space and the optional check character.
pub proof fn lemma_code39_modules_shape(data: Seq<char>, checksum: bool)
    requires
        valid_data(data),
    ensures
        is_binary(code39_modules(data, checksum)),
        code39_modules(data, checksum).len() == 13 * data.len() + 25 + if checksum {
            13int
        } else {
            0
        },
{
    let f = |i: int| char_pattern(data[i]) + seq![0u8];
    assert forall|i: int| 0 <= i < data.len() implies is_binary(#[trigger] f(i)) && f(i).len()
        == 13 by {
        lemma_char_index_range(data[i]);
        let k = char_index(data[i]).unwrap();
        assert(is_binary(CHARS[k].1@));
        helpers::lemma_add_binary(char_pattern(data[i]), seq![0u8]);
    }
    helpers::lemma_concat_n_binary(data.len(), f);
    helpers::lemma_concat_n_len(data.len(), f, 13);
    let tail = if checksum {
        char_pattern(checksum_char(data)) + seq![0u8]
    } else {
        Seq::empty()
    };
    lemma_position_sum_nonneg(data);
    let k = position_sum(data) % 43;
    lemma_char_index_first(k);
    assert(is_binary(CHARS[k].1@));
    helpers::lemma_add_binary(char_pattern(checksum_char(data)), seq![0u8]);
    assert(is_binary(GUARD@));
    let a = GUARD@ + seq![0u8];
    helpers::lemma_add_binary(GUARD@, seq![0u8]);
    helpers::lemma_add_binary(a, concat_n(data.len(), f));
    helpers::lemma_add_binary(a + concat_n(data.len(), f), tail);
    helpers::lemma_add_binary(a + concat_n(data.len(), f) + tail, GUARD@);
}

/// The check character goes in just before the closing guard: with it the barcode is 13
/// modules longer, the modules before the closing guard are unchanged, and then come the
/// pattern of the table character at the sum of the data's table positions modulo 43 and
/// a narrow space, followed by the same closing guard.
pub proof fn lemma_checksum_inserted(data: Seq<char>)
    requires
        valid_data(data),
    ensures
        ({
            let plain = code39_modules(data, false);
            let checked = code39_modules(data, true);
            let k = plain.len() - 12;
            &&& checked.len() == plain.len() + 13
            &&& checked.subrange(0, k) == plain.subrange(0, k)
            &&& checked.subrange(k, k + 12) == char_pattern(checksum_char(data))
            &&& checked[k + 12] == 0
            &&& checked.subrange(k + 13, checked.len() as int) == plain.subrange(k, plain.len() as int)
            &&& checksum_char(data) == CHARS[position_sum(data) % 43].0
        }),
{
    lemma_code39_modules_shape(data, false);
    lemma_code39_modules_shape(data, true);
    lemma_position_sum_nonneg(data);
    let k39 = position_sum(data) % 43;
    lemma_char_index_first(k39);
    let body = GUARD@ + seq![0u8] + concat_n(data.len(), |i: int| char_pattern(data[i]) + seq![0u8]);
    let check = char_pattern(checksum_char(data));
    assert(check.len() == 12);
    let plain = code39_modules(data, false);
    let checked = code39_modules(data, true);
    assert(plain =~= body + GUARD@);
    assert(checked =~= body + (check + seq![0u8]) + GUARD@);
    let k = plain.len() - 12;
    assert(k == body.len());
    assert(checked.subrange(0, k) =~= plain.subrange(0, k));
    assert(checked.subrange(k, k + 12) =~= check);
    assert(checked.subrange(k + 13, checked.len() as int) =~= plain.subrange(k, plain.len() as int));
}

/// The check character of no characters is the first table character, `'0'`.
pub proof fn lemma_checksum_char_empty()
    ensures
        checksum_char(Seq::empty()) == CHARS[0].0,
{
}

/// Appending a character shifts the check character along the table by that character's
/// position: if the check character of `data` stands at position `k` of [`CHARS`], the
/// check character of `data` followed by the table character at position `j` stands at
/// `(k + j) % 43`. Every one of the 43 positions counts with its full value.
pub proof fn lemma_checksum_char_append(data: Seq<char>, j: int)
    requires
        0 <= j < 43,
    ensures
        char_index(checksum_char(data)) matches Some(k) && checksum_char(data.push(CHARS[j].0))
            == CHARS[(k + j) % 43].0,
{
    lemma_position_sum_nonneg(data);
    let t = position_sum(data);
    let k = t % 43;
    lemma_char_index_first(k);
    lemma_char_index_first(j);
    let longer = data.push(CHARS[j].0);
    assert(longer.drop_last() =~= data);
    assert(position_sum(longer) == t + j);
    vstd::arithmetic::div_mod::lemma_add_mod_noop(t, j, 43);
    vstd::arithmetic::div_mod::lemma_mod_twice(j, 43);
    vstd::arithmetic::div_mod::lemma_small_mod(j as nat, 43);
}

} // verus!
