//! Encoder for Code128 barcodes.
//!
//! Code128 is a popular, high-density symbology that encodes alphanumeric data and many
//! special characters with three character sets. It can also encode digits at double
//! density.
//!
//! ## Character sets
//!
//! The text names the character sets with special Unicode characters:
//!
//! - `\u{00C0}` (`À`): switch to character set A
//! - `\u{0181}` (`Ɓ`): switch to character set B
//! - `\u{0106}` (`Ć`): switch to character set C
//!
//! The starting character set and every change of set must be given, so every Code128
//! barcode starts with `À`, `Ɓ` or `Ć`. For example `ƁHE1234A*1` uses set B throughout,
//! while `ÀHE@$AĆ123456` starts in set A and switches to set C to encode the digits more
//! densely.
//!
//! ## Unicode characters
//!
//! The invisible control characters of set A are written as Unicode escapes, for example
//! `À\u{0006}` for `ACK`.
//!
//! ## Function characters
//!
//! - FNC1: `Ź` (`\u{0179}`)
//! - FNC2: `ź` (`\u{017A}`)
//! - FNC3: `Ż` (`\u{017B}`)
//! - FNC4: `ż` (`\u{017C}`)
//! - SHIFT: `Ž` (`\u{017D}`)
//!
//! ## SHIFT
//!
//! `Ž` is valid only in sets A and B. It encodes the single next character in the other of
//! the two sets, after which the active set continues unchanged: in a barcode that starts
//! with `À`, `Že` encodes only the small `e` in set B. A SHIFT as the last character, two
//! SHIFTs in a row, a SHIFT in set C, or a SHIFT followed by a character missing from the
//! target set give `Error::Character`.

use crate::error::{Error, Result};
use crate::sym::helpers::{self, concat_n, is_binary};
use vstd::prelude::*;

verus! {

/// The character set that a unit was looked up in.
#[derive(Clone, Copy, Debug, PartialEq, Eq, Structural)]
pub enum UnitKind {
    A,
    B,
    C,
}

/// One symbol of a Code128 barcode: the set it belongs to and its position in the symbol
/// table.
#[derive(Clone, Copy, Debug, PartialEq, Eq, Structural)]
pub struct Unit {
    pub kind: UnitKind,
    pub index: usize,
}

/// The active character set while the text is read; `Unset` before the start character.
#[derive(Clone, Copy, Debug, PartialEq, Eq, Structural)]
pub enum CharacterSet {
    A,
    B,
    C,
    Unset,
}

/// Switches to character set A (and starts a barcode in it).
pub const SET_A: char = '\u{00C0}';
/// Switches to character set B (and starts a barcode in it).
pub const SET_B: char = '\u{0181}';
/// Switches to character set C (and starts a barcode in it).
pub const SET_C: char = '\u{0106}';
/// FNC1.
pub const FNC1: char = '\u{0179}';
/// FNC2.
pub const FNC2: char = '\u{017A}';
/// FNC3.
pub const FNC3: char = '\u{017B}';
/// FNC4.
pub const FNC4: char = '\u{017C}';
/// Encodes the next character in the other of sets A and B.
pub const SHIFT: char = '\u{017D}';

/// The modules of each of the 106 symbols, by table position. Positions 103 to 105 are the
/// start symbols of sets A, B and C.
pub const PATTERNS: [[u8; 11]; 106] = [
    [1, 1, 0, 1, 1, 0, 0, 1, 1, 0, 0],
    [1, 1, 0, 0, 1, 1, 0, 1, 1, 0, 0],
    [1, 1, 0, 0, 1, 1, 0, 0, 1, 1, 0],
    [1, 0, 0, 1, 0, 0, 1, 1, 0, 0, 0],
    [1, 0, 0, 1, 0, 0, 0, 1, 1, 0, 0],
    [1, 0, 0, 0, 1, 0, 0, 1, 1, 0, 0],
    [1, 0, 0, 1, 1, 0, 0, 1, 0, 0, 0],
    [1, 0, 0, 1, 1, 0, 0, 0, 1, 0, 0],
    [1, 0, 0, 0, 1, 1, 0, 0, 1, 0, 0],
    [1, 1, 0, 0, 1, 0, 0, 1, 0, 0, 0],
    [1, 1, 0, 0, 1, 0, 0, 0, 1, 0, 0],
    [1, 1, 0, 0, 0, 1, 0, 0, 1, 0, 0],
    [1, 0, 1, 1, 0, 0, 1, 1, 1, 0, 0],
    [1, 0, 0, 1, 1, 0, 1, 1, 1, 0, 0],
    [1, 0, 0, 1, 1, 0, 0, 1, 1, 1, 0],
    [1, 0, 1, 1, 1, 0, 0, 1, 1, 0, 0],
    [1, 0, 0, 1, 1, 1, 0, 1, 1, 0, 0],
    [1, 0, 0, 1, 1, 1, 0, 0, 1, 1, 0],
    [1, 1, 0, 0, 1, 1, 1, 0, 0, 1, 0],
    [1, 1, 0, 0, 1, 0, 1, 1, 1, 0, 0],
    [1, 1, 0, 0, 1, 0, 0, 1, 1, 1, 0],
    [1, 1, 0, 1, 1, 1, 0, 0, 1, 0, 0],
    [1, 1, 0, 0, 1, 1, 1, 0, 1, 0, 0],
    [1, 1, 1, 0, 1, 1, 0, 1, 1, 1, 0],
    [1, 1, 1, 0, 1, 0, 0, 1, 1, 0, 0],
    [1, 1, 1, 0, 0, 1, 0, 1, 1, 0, 0],
    [1, 1, 1, 0, 0, 1, 0, 0, 1, 1, 0],
    [1, 1, 1, 0, 1, 1, 0, 0, 1, 0, 0],
    [1, 1, 1, 0, 0, 1, 1, 0, 1, 0, 0],
    [1, 1, 1, 0, 0, 1, 1, 0, 0, 1, 0],
    [1, 1, 0, 1, 1, 0, 1, 1, 0, 0, 0],
    [1, 1, 0, 1, 1, 0, 0, 0, 1, 1, 0],
    [1, 1, 0, 0, 0, 1, 1, 0, 1, 1, 0],
    [1, 0, 1, 0, 0, 0, 1, 1, 0, 0, 0],
    [1, 0, 0, 0, 1, 0, 1, 1, 0, 0, 0],
    [1, 0, 0, 0, 1, 0, 0, 0, 1, 1, 0],
    [1, 0, 1, 1, 0, 0, 0, 1, 0, 0, 0],
    [1, 0, 0, 0, 1, 1, 0, 1, 0, 0, 0],
    [1, 0, 0, 0, 1, 1, 0, 0, 0, 1, 0],
    [1, 1, 0, 1, 0, 0, 0, 1, 0, 0, 0],
    [1, 1, 0, 0, 0, 1, 0, 1, 0, 0, 0],
    [1, 1, 0, 0, 0, 1, 0, 0, 0, 1, 0],
    [1, 0, 1, 1, 0, 1, 1, 1, 0, 0, 0],
    [1, 0, 1, 1, 0, 0, 0, 1, 1, 1, 0],
    [1, 0, 0, 0, 1, 1, 0, 1, 1, 1, 0],
    [1, 0, 1, 1, 1, 0, 1, 1, 0, 0, 0],
    [1, 0, 1, 1, 1, 0, 0, 0, 1, 1, 0],
    [1, 0, 0, 0, 1, 1, 1, 0, 1, 1, 0],
    [1, 1, 1, 0, 1, 1, 1, 0, 1, 1, 0],
    [1, 1, 0, 1, 0, 0, 0, 1, 1, 1, 0],
    [1, 1, 0, 0, 0, 1, 0, 1, 1, 1, 0],
    [1, 1, 0, 1, 1, 1, 0, 1, 0, 0, 0],
    [1, 1, 0, 1, 1, 1, 0, 0, 0, 1, 0],
    [1, 1, 0, 1, 1, 1, 0, 1, 1, 1, 0],
    [1, 1, 1, 0, 1, 0, 1, 1, 0, 0, 0],
    [1, 1, 1, 0, 1, 0, 0, 0, 1, 1, 0],
    [1, 1, 1, 0, 0, 0, 1, 0, 1, 1, 0],
    [1, 1, 1, 0, 1, 1, 0, 1, 0, 0, 0],
    [1, 1, 1, 0, 1, 1, 0, 0, 0, 1, 0],
    [1, 1, 1, 0, 0, 0, 1, 1, 0, 1, 0],
    [1, 1, 1, 0, 1, 1, 1, 1, 0, 1, 0],
    [1, 1, 0, 0, 1, 0, 0, 0, 0, 1, 0],
    [1, 1, 1, 1, 0, 0, 0, 1, 0, 1, 0],
    [1, 0, 1, 0, 0, 1, 1, 0, 0, 0, 0],
    [1, 0, 1, 0, 0, 0, 0, 1, 1, 0, 0],
    [1, 0, 0, 1, 0, 1, 1, 0, 0, 0, 0],
    [1, 0, 0, 1, 0, 0, 0, 0, 1, 1, 0],
    [1, 0, 0, 0, 0, 1, 0, 1, 1, 0, 0],
    [1, 0, 0, 0, 0, 1, 0, 0, 1, 1, 0],
    [1, 0, 1, 1, 0, 0, 1, 0, 0, 0, 0],
    [1, 0, 1, 1, 0, 0, 0, 0, 1, 0, 0],
    [1, 0, 0, 1, 1, 0, 1, 0, 0, 0, 0],
    [1, 0, 0, 1, 1, 0, 0, 0, 0, 1, 0],
    [1, 0, 0, 0, 0, 1, 1, 0, 1, 0, 0],
    [1, 0, 0, 0, 0, 1, 1, 0, 0, 1, 0],
    [1, 1, 0, 0, 0, 0, 1, 0, 0, 1, 0],
    [1, 1, 0, 0, 1, 0, 1, 0, 0, 0, 0],
    [1, 1, 1, 1, 0, 1, 1, 1, 0, 1, 0],
    [1, 1, 0, 0, 0, 0, 1, 0, 1, 0, 0],
    [1, 0, 0, 0, 1, 1, 1, 1, 0, 1, 0],
    [1, 0, 1, 0, 0, 1, 1, 1, 1, 0, 0],
    [1, 0, 0, 1, 0, 1, 1, 1, 1, 0, 0],
    [1, 0, 0, 1, 0, 0, 1, 1, 1, 1, 0],
    [1, 0, 1, 1, 1, 1, 0, 0, 1, 0, 0],
    [1, 0, 0, 1, 1, 1, 1, 0, 1, 0, 0],
    [1, 0, 0, 1, 1, 1, 1, 0, 0, 1, 0],
    [1, 1, 1, 1, 0, 1, 0, 0, 1, 0, 0],
    [1, 1, 1, 1, 0, 0, 1, 0, 1, 0, 0],
    [1, 1, 1, 1, 0, 0, 1, 0, 0, 1, 0],
    [1, 1, 0, 1, 1, 0, 1, 1, 1, 1, 0],
    [1, 1, 0, 1, 1, 1, 1, 0, 1, 1, 0],
    [1, 1, 1, 1, 0, 1, 1, 0, 1, 1, 0],
    [1, 0, 1, 0, 1, 1, 1, 1, 0, 0, 0],
    [1, 0, 1, 0, 0, 0, 1, 1, 1, 1, 0],
    [1, 0, 0, 0, 1, 0, 1, 1, 1, 1, 0],
    [1, 0, 1, 1, 1, 1, 0, 1, 0, 0, 0],
    [1, 0, 1, 1, 1, 1, 0, 0, 0, 1, 0],
    [1, 1, 1, 1, 0, 1, 0, 1, 0, 0, 0],
    [1, 1, 1, 1, 0, 1, 0, 0, 0, 1, 0],
    [1, 0, 1, 1, 1, 0, 1, 1, 1, 1, 0],
    [1, 0, 1, 1, 1, 1, 0, 1, 1, 1, 0],
    [1, 1, 1, 0, 1, 0, 1, 1, 1, 1, 0],
    [1, 1, 1, 1, 0, 1, 0, 1, 1, 1, 0],
    [1, 1, 0, 1, 0, 0, 0, 0, 1, 0, 0],
    [1, 1, 0, 1, 0, 0, 1, 0, 0, 0, 0],
    [1, 1, 0, 1, 0, 0, 1, 1, 1, 0, 0],
];

/// The stop symbol.
pub const STOP: [u8; 11] = [1, 1, 0, 0, 0, 1, 1, 1, 0, 1, 0];

/// The termination bar after the stop symbol.
pub const TERM: [u8; 2] = [1, 1];

/// Table position of the character `c` in character set A: `' '..='_'` from 0, the control
/// characters `'\u{0}'..='\u{1F}'` from 64, then FNC3, FNC2, SHIFT, switch to C, switch to B,
/// FNC4 and FNC1 at 96 to 102.
#[verifier::opaque]
pub open spec fn position_a(c: char) -> Option<int> {
    if ' ' <= c && c <= '_' {
        Some(c as int - 32)
    } else if c <= '\u{1F}' {
        Some(c as int + 64)
    } else if c == FNC3 {
        Some(96)
    } else if c == FNC2 {
        Some(97)
    } else if c == SHIFT {
        Some(98)
    } else if c == SET_C {
        Some(99)
    } else if c == SET_B {
        Some(100)
    } else if c == FNC4 {
        Some(101)
    } else if c == FNC1 {
        Some(102)
    } else {
        None
    }
}

/// Table position of the character `c` in character set B: `' '..='\u{7F}'` from 0, then
/// FNC3, FNC2, SHIFT, switch to C, FNC4, switch to A and FNC1 at 96 to 102.
#[verifier::opaque]
pub open spec fn position_b(c: char) -> Option<int> {
    if ' ' <= c && c <= '\u{7F}' {
        Some(c as int - 32)
    } else if c == FNC3 {
        Some(96)
    } else if c == FNC2 {
        Some(97)
    } else if c == SHIFT {
        Some(98)
    } else if c == SET_C {
        Some(99)
    } else if c == FNC4 {
        Some(100)
    } else if c == SET_A {
        Some(101)
    } else if c == FNC1 {
        Some(102)
    } else {
        None
    }
}

/// Table position of the single character `c` in character set C, where digits are
/// encoded in pairs: switch to B, switch to A and FNC1 at 100 to 102.
#[verifier::opaque]
pub open spec fn position_c(c: char) -> Option<int> {
    if c == SET_B {
        Some(100)
    } else if c == SET_A {
        Some(101)
    } else if c == FNC1 {
        Some(102)
    } else {
        None
    }
}

/// The unit kind of the symbols looked up in `set`, if it is a character set.
pub open spec fn set_kind(set: CharacterSet) -> Option<UnitKind> {
    match set {
        CharacterSet::A => Some(UnitKind::A),
        CharacterSet::B => Some(UnitKind::B),
        CharacterSet::C => Some(UnitKind::C),
        CharacterSet::Unset => None,
    }
}

/// Table position of `c` in `set`.
pub open spec fn set_position(set: CharacterSet, c: char) -> Option<int> {
    match set {
        CharacterSet::A => position_a(c),
        CharacterSet::B => position_b(c),
        CharacterSet::C => position_c(c),
        CharacterSet::Unset => None,
    }
}

/// The unit of the single character `c` in `set`: no set gives a character error without
/// character, a character missing from the set gives a character error naming it.
pub open spec fn lookup_unit(set: CharacterSet, c: char) -> core::result::Result<Unit, Error> {
    match set_kind(set) {
        None => Err(Error::Character { character: None, index: None }),
        Some(kind) => match set_position(set, c) {
            Some(i) => Ok(Unit { kind, index: i as usize }),
            None => Err(Error::Character { character: Some(c), index: None }),
        },
    }
}

fn position_in(set: CharacterSet, c: char) -> (position: Option<usize>)
    ensures
        position matches Some(i) ==> set_position(set, c) == Some(i as int) && i < 103,
        position is None ==> set_position(set, c) is None,
{
    reveal(position_a);
    reveal(position_b);
    reveal(position_c);
    match set {
        CharacterSet::A => {
            if ' ' <= c && c <= '_' {
                Some((c as u32 - 32) as usize)
            } else if c <= '\u{1F}' {
                Some((c as u32 + 64) as usize)
            } else if c == FNC3 {
                Some(96)
            } else if c == FNC2 {
                Some(97)
            } else if c == SHIFT {
                Some(98)
            } else if c == SET_C {
                Some(99)
            } else if c == SET_B {
                Some(100)
            } else if c == FNC4 {
                Some(101)
            } else if c == FNC1 {
                Some(102)
            } else {
                None
            }
        },
        CharacterSet::B => {
            if ' ' <= c && c <= '\u{7F}' {
                Some((c as u32 - 32) as usize)
            } else if c == FNC3 {
                Some(96)
            } else if c == FNC2 {
                Some(97)
            } else if c == SHIFT {
                Some(98)
            } else if c == SET_C {
                Some(99)
            } else if c == FNC4 {
                Some(100)
            } else if c == SET_A {
                Some(101)
            } else if c == FNC1 {
                Some(102)
            } else {
                None
            }
        },
        CharacterSet::C => {
            if c == SET_B {
                Some(100)
            } else if c == SET_A {
                Some(101)
            } else if c == FNC1 {
                Some(102)
            } else {
                None
            }
        },
        CharacterSet::Unset => None,
    }
}

/// Looks up the unit of the single character `c` in `set`.
fn lookup(set: CharacterSet, c: char) -> (unit: Result<Unit>)
    ensures
        unit == lookup_unit(set, c),
        unit matches Ok(u) ==> u.index < 103,
{
    let kind = match set {
        CharacterSet::A => UnitKind::A,
        CharacterSet::B => UnitKind::B,
        CharacterSet::C => UnitKind::C,
        CharacterSet::Unset => {
            return Err(Error::character(None, None));
        },
    };
    match position_in(set, c) {
        Some(index) => Ok(Unit { kind, index }),
        None => Err(Error::character(Some(c), None)),
    }
}

/// The state of the reader after a prefix of the text.
pub struct ParseState {
    /// The units read so far.
    pub units: Seq<Unit>,
    /// The active character set.
    pub char_set: CharacterSet,
    /// A digit of set C waiting for its partner.
    pub carry: Option<char>,
    /// The set of the next character after a SHIFT.
    pub shift: Option<CharacterSet>,
}

/// The state before the first character.
pub open spec fn initial_state() -> ParseState {
    ParseState { units: Seq::empty(), char_set: CharacterSet::Unset, carry: None, shift: None }
}

/// The set that a set-switch character selects.
pub open spec fn switch_target(c: char) -> Option<CharacterSet> {
    if c == SET_A {
        Some(CharacterSet::A)
    } else if c == SET_B {
        Some(CharacterSet::B)
    } else if c == SET_C {
        Some(CharacterSet::C)
    } else {
        None
    }
}

/// The start unit of a barcode that begins in `set`.
pub open spec fn start_unit(set: CharacterSet) -> Unit {
    match set {
        CharacterSet::A => Unit { kind: UnitKind::A, index: 103 },
        CharacterSet::B => Unit { kind: UnitKind::B, index: 104 },
        _ => Unit { kind: UnitKind::C, index: 105 },
    }
}

/// The state `st` with the unit `u` appended.
pub open spec fn with_unit(st: ParseState, u: Unit) -> ParseState {
    ParseState { units: st.units.push(u), ..st }
}

/// Reads a set-switch character `ch` that selects `target`: the first one starts the
/// barcode, a later one switches sets unless a SHIFT or a digit of set C is pending.
pub open spec fn step_switch(st: ParseState, index: int, ch: char, target: CharacterSet) -> core::result::Result<
    ParseState,
    Error,
> {
    if st.units.len() == 0 {
        Ok(ParseState { char_set: target, ..with_unit(st, start_unit(target)) })
    } else if st.shift is Some || (st.char_set == CharacterSet::C && st.carry is Some) {
        Err(Error::Character { character: Some(ch), index: Some(index as usize) })
    } else {
        match lookup_unit(st.char_set, ch) {
            Ok(u) => Ok(ParseState { char_set: target, ..with_unit(st, u) }),
            Err(e) => Err(e),
        }
    }
}

/// Reads a SHIFT at position `index`: valid in sets A and B when no SHIFT is pending, it
/// makes the next character be read in the other of the two sets.
pub open spec fn step_shift(st: ParseState, index: int) -> core::result::Result<ParseState, Error> {
    let other = if st.char_set == CharacterSet::A {
        CharacterSet::B
    } else {
        CharacterSet::A
    };
    if !(st.char_set == CharacterSet::A || st.char_set == CharacterSet::B) || st.shift is Some {
        Err(Error::Character { character: Some(SHIFT), index: Some(index as usize) })
    } else {
        match lookup_unit(st.char_set, SHIFT) {
            Ok(u) => Ok(ParseState { shift: Some(other), ..with_unit(st, u) }),
            Err(e) => Err(e),
        }
    }
}

/// Reads a digit `ch` in set C: the first of a pair waits, the second completes the unit
/// of the two-digit number.
pub open spec fn step_digit(st: ParseState, ch: char) -> ParseState {
    match st.carry {
        None => ParseState { carry: Some(ch), ..st },
        Some(first) => {
            let pair = 10 * helpers::digit_value(first) + helpers::digit_value(ch);
            ParseState {
                carry: None,
                ..with_unit(st, Unit { kind: UnitKind::C, index: pair as usize })
            }
        },
    }
}

/// Reads any other character `ch`, in the set a pending SHIFT selects or else in the active
/// set.
pub open spec fn step_other(st: ParseState, ch: char) -> core::result::Result<ParseState, Error> {
    let set = match st.shift {
        Some(s) => s,
        None => st.char_set,
    };
    match lookup_unit(set, ch) {
        Ok(u) => Ok(ParseState { shift: None, ..with_unit(st, u) }),
        Err(e) => Err(e),
    }
}

/// Reads the character `ch` at position `index` in the state `st`.
pub open spec fn parse_step(st: ParseState, index: int, ch: char) -> core::result::Result<
    ParseState,
    Error,
> {
    match switch_target(ch) {
        Some(target) => step_switch(st, index, ch, target),
        None => if ch == SHIFT {
            step_shift(st, index)
        } else if helpers::is_decimal(ch) && st.char_set == CharacterSet::C {
            Ok(step_digit(st, ch))
        } else {
            step_other(st, ch)
        },
    }
}

/// The state after reading the first `n` characters of `chars`, or the first error.
pub open spec fn parse_prefix(chars: Seq<char>, n: nat) -> core::result::Result<ParseState, Error>
    decreases n,
{
    if n == 0 {
        Ok(initial_state())
    } else {
        match parse_prefix(chars, (n - 1) as nat) {
            Ok(st) => parse_step(st, n - 1, chars[n - 1]),
            Err(e) => Err(e),
        }
    }
}

/// The units of a completely read text: a SHIFT or a digit of set C may not be left
/// pending.
pub open spec fn parse_finish(st: ParseState) -> core::result::Result<Seq<Unit>, Error> {
    if st.shift is Some {
        Err(Error::Character { character: Some(SHIFT), index: None })
    } else {
        match st.carry {
            Some(c) => Err(Error::Character { character: Some(c), index: None }),
            None => Ok(st.units),
        }
    }
}

/// The units of the text `chars`, or the first error met while reading it.
pub open spec fn spec_parse(chars: Seq<char>) -> core::result::Result<Seq<Unit>, Error> {
    match parse_prefix(chars, chars.len()) {
        Ok(st) => parse_finish(st),
        Err(e) => Err(e),
    }
}

/// What [`Code128::new`] gives for the text `s`: its length is checked first, then it is
/// read.
pub open spec fn spec_code128_new(s: Seq<char>) -> core::result::Result<Seq<Unit>, Error> {
    if s.len() < 2 || s.len() > 256 {
        Err(Error::Length { min: 2, max: Some(256), found: s.len() as usize })
    } else {
        spec_parse(s)
    }
}

/// A state that reading can reach: units are table positions, a pending digit is a digit,
/// a SHIFT is pending only in set A or B and targets one of them, and a set is active once
/// a unit was read.
pub open spec fn reachable(st: ParseState) -> bool {
    &&& forall|i: int| 0 <= i < st.units.len() ==> #[trigger] st.units[i].index < 106
    &&& st.carry matches Some(c) ==> helpers::is_decimal(c)
    &&& st.shift matches Some(s) ==> (s == CharacterSet::A || s == CharacterSet::B)
    &&& st.shift is Some ==> (st.char_set == CharacterSet::A || st.char_set == CharacterSet::B)
    &&& st.units.len() > 0 <==> st.char_set != CharacterSet::Unset
}

/// A looked-up unit is a table position below the start symbols.
proof fn lemma_lookup_index(set: CharacterSet, c: char)
    ensures
        lookup_unit(set, c) matches Ok(u) ==> u.index < 103,
{
    reveal(position_a);
    reveal(position_b);
    reveal(position_c);
    if c <= '\u{1F}' {
        assert(c as int + 64 < 103);
    }
}

/// The state `st` grown by `u` keeps the table positions in range.
proof fn lemma_with_unit(st: ParseState, u: Unit)
    requires
        forall|i: int| 0 <= i < st.units.len() ==> #[trigger] st.units[i].index < 106,
        u.index < 106,
    ensures
        forall|i: int|
            0 <= i < with_unit(st, u).units.len() ==> #[trigger] with_unit(st, u).units[i].index
                < 106,
{
    let next = with_unit(st, u);
    assert forall|i: int| 0 <= i < next.units.len() implies #[trigger] next.units[i].index
        < 106 by {
        if i < st.units.len() {
            assert(next.units[i] == st.units[i]);
        }
    }
}

/// The facts that reading one character keeps.
pub open spec fn step_keeps(st: ParseState, next: ParseState) -> bool {
    &&& reachable(next)
    &&& st.units.len() <= next.units.len() <= st.units.len() + 1
    &&& next.units.len() > 0
}

proof fn lemma_switch_reachable(st: ParseState, index: int, ch: char, target: CharacterSet)
    requires
        reachable(st),
        target != CharacterSet::Unset,
    ensures
        step_switch(st, index, ch, target) matches Ok(next) ==> step_keeps(st, next),
{
    if st.units.len() == 0 {
        lemma_with_unit(st, start_unit(target));
    } else {
        lemma_lookup_index(st.char_set, ch);
        if let Ok(u) = lookup_unit(st.char_set, ch) {
            lemma_with_unit(st, u);
        }
    }
}

proof fn lemma_shift_reachable(st: ParseState, index: int)
    requires
        reachable(st),
    ensures
        step_shift(st, index) matches Ok(next) ==> step_keeps(st, next),
{
    lemma_lookup_index(st.char_set, SHIFT);
    if let Ok(u) = lookup_unit(st.char_set, SHIFT) {
        lemma_with_unit(st, u);
    }
}

proof fn lemma_digit_reachable(st: ParseState, ch: char)
    requires
        reachable(st),
        helpers::is_decimal(ch),
        st.char_set == CharacterSet::C,
    ensures
        step_keeps(st, step_digit(st, ch)),
{
    if let Some(first) = st.carry {
        let pair = 10 * helpers::digit_value(first) + helpers::digit_value(ch);
        assert(pair < 100);
        lemma_with_unit(st, Unit { kind: UnitKind::C, index: pair as usize });
    }
}

proof fn lemma_other_reachable(st: ParseState, ch: char)
    requires
        reachable(st),
    ensures
        step_other(st, ch) matches Ok(next) ==> step_keeps(st, next),
{
    let set = match st.shift {
        Some(s) => s,
        None => st.char_set,
    };
    lemma_lookup_index(set, ch);
    if let Ok(u) = lookup_unit(set, ch) {
        lemma_with_unit(st, u);
    }
}

proof fn lemma_step_reachable(st: ParseState, index: int, ch: char)
    requires
        reachable(st),
    ensures
        parse_step(st, index, ch) matches Ok(next) ==> step_keeps(st, next),
{
    match switch_target(ch) {
        Some(target) => lemma_switch_reachable(st, index, ch, target),
        None => {
            if ch == SHIFT {
                lemma_shift_reachable(st, index);
            } else if helpers::is_decimal(ch) && st.char_set == CharacterSet::C {
                lemma_digit_reachable(st, ch);
            } else {
                lemma_other_reachable(st, ch);
            }
        },
    }
}

/// Every state that reading a prefix reaches is reachable, with at most one unit per
/// character and at least one once a character was read.
proof fn lemma_prefix_reachable(chars: Seq<char>, n: nat)
    requires
        n <= chars.len(),
    ensures
        parse_prefix(chars, n) matches Ok(st) ==> {
            &&& reachable(st)
            &&& st.units.len() <= n
            &&& n > 0 ==> st.units.len() > 0
        },
    decreases n,
{
    if n > 0 {
        lemma_prefix_reachable(chars, (n - 1) as nat);
        if let Ok(st) = parse_prefix(chars, (n - 1) as nat) {
            lemma_step_reachable(st, n - 1, chars[n - 1]);
        }
    }
}

fn target_of(c: char) -> (target: Option<CharacterSet>)
    ensures
        target == switch_target(c),
{
    if c == SET_A {
        Some(CharacterSet::A)
    } else if c == SET_B {
        Some(CharacterSet::B)
    } else if c == SET_C {
        Some(CharacterSet::C)
    } else {
        None
    }
}

fn start_of(set: CharacterSet) -> (unit: Unit)
    ensures
        unit == start_unit(set),
{
    match set {
        CharacterSet::A => Unit { kind: UnitKind::A, index: 103 },
        CharacterSet::B => Unit { kind: UnitKind::B, index: 104 },
        _ => Unit { kind: UnitKind::C, index: 105 },
    }
}

/// An error met while reading a prefix stays the outcome of every longer prefix.
proof fn lemma_prefix_error(chars: Seq<char>, n: nat, m: nat)
    requires
        n <= m,
        parse_prefix(chars, n) is Err,
    ensures
        parse_prefix(chars, m) == parse_prefix(chars, n),
    decreases m - n,
{
    if n < m {
        lemma_prefix_error(chars, n, (m - 1) as nat);
    }
}

/// The reader's state while the text is read.
struct Reader {
    units: Vec<Unit>,
    char_set: CharacterSet,
    carry: Option<char>,
    shift: Option<CharacterSet>,
}

impl Reader {
    spec fn state(&self) -> ParseState {
        ParseState {
            units: self.units@,
            char_set: self.char_set,
            carry: self.carry,
            shift: self.shift,
        }
    }

    fn read_switch(&mut self, index: usize, ch: char, target: CharacterSet) -> (r: Result<()>)
        ensures
            match step_switch(old(self).state(), index as int, ch, target) {
                Ok(st) => r is Ok && final(self).state() == st,
                Err(e) => r == Err::<(), Error>(e),
            },
    {
        if self.units.len() == 0 {
            self.units.push(start_of(target));
            self.char_set = target;
            return Ok(());
        }
        if self.shift.is_some() || (matches!(self.char_set, CharacterSet::C)
            && self.carry.is_some()) {
            return Err(Error::character(Some(ch), Some(index)));
        }
        let u = lookup(self.char_set, ch)?;
        self.units.push(u);
        self.char_set = target;
        Ok(())
    }

    fn read_shift(&mut self, index: usize) -> (r: Result<()>)
        ensures
            match step_shift(old(self).state(), index as int) {
                Ok(st) => r is Ok && final(self).state() == st,
                Err(e) => r == Err::<(), Error>(e),
            },
    {
        let target = match self.char_set {
            CharacterSet::A => CharacterSet::B,
            CharacterSet::B => CharacterSet::A,
            _ => {
                return Err(Error::character(Some(SHIFT), Some(index)));
            },
        };
        if self.shift.is_some() {
            return Err(Error::character(Some(SHIFT), Some(index)));
        }
        let u = lookup(self.char_set, SHIFT)?;
        self.units.push(u);
        self.shift = Some(target);
        Ok(())
    }

    fn read_digit(&mut self, ch: char)
        requires
            helpers::is_decimal(ch),
            reachable(old(self).state()),
        ensures
            final(self).state() == step_digit(old(self).state(), ch),
    {
        match self.carry {
            None => {
                self.carry = Some(ch);
            },
            Some(first) => {
                let tens = (first as u32 - '0' as u32) as u8;
                let ones = (ch as u32 - '0' as u32) as u8;
                let pair = 10 * tens as usize + ones as usize;
                self.units.push(Unit { kind: UnitKind::C, index: pair });
                self.carry = None;
            },
        }
    }

    fn read_other(&mut self, ch: char) -> (r: Result<()>)
        ensures
            match step_other(old(self).state(), ch) {
                Ok(st) => r is Ok && final(self).state() == st,
                Err(e) => r == Err::<(), Error>(e),
            },
    {
        let set = match self.shift {
            Some(s) => s,
            None => self.char_set,
        };
        self.shift = None;
        let u = lookup(set, ch)?;
        self.units.push(u);
        Ok(())
    }

    /// Reads the character `ch` at position `index`.
    fn read(&mut self, index: usize, ch: char) -> (r: Result<()>)
        requires
            reachable(old(self).state()),
        ensures
            match parse_step(old(self).state(), index as int, ch) {
                Ok(st) => r is Ok && final(self).state() == st,
                Err(e) => r == Err::<(), Error>(e),
            },
    {
        match target_of(ch) {
            Some(target) => self.read_switch(index, ch, target),
            None => {
                if ch == SHIFT {
                    self.read_shift(index)
                } else if '0' <= ch && ch <= '9' && matches!(self.char_set, CharacterSet::C) {
                    self.read_digit(ch);
                    Ok(())
                } else {
                    self.read_other(ch)
                }
            },
        }
    }
}

/// Reads the `len` characters of `data` into units, collecting them in the character
/// sets that the text selects.
fn parse(data: &str, len: usize) -> (units: Result<Vec<Unit>>)
    requires
        len == data@.len(),
    ensures
        crate::error::result_view(units) == spec_parse(data@),
{
    let mut reader = Reader {
        units: Vec::new(),
        char_set: CharacterSet::Unset,
        carry: None,
        shift: None,
    };
    let mut i: usize = 0;
    while i < len
        invariant
            len == data@.len(),
            i <= len,
            parse_prefix(data@, i as nat) == core::result::Result::<ParseState, Error>::Ok(
                reader.state(),
            ),
        decreases len - i,
    {
        let ch = data.get_char(i);
        proof {
            lemma_prefix_reachable(data@, i as nat);
        }
        let r = reader.read(i, ch);
        if let Err(e) = r {
            proof {
                lemma_prefix_error(data@, (i + 1) as nat, len as nat);
            }
            return Err(e);
        }
        i += 1;
    }
    if reader.shift.is_some() {
        return Err(Error::character(Some(SHIFT), None));
    }
    match reader.carry {
        Some(c) => Err(Error::character(Some(c), None)),
        None => Ok(reader.units),
    }
}

/// The weight of the unit at `position` in the check symbol: the start symbol and the first
/// data symbol both weigh 1, every later one its position.
pub open spec fn weight(position: int) -> int {
    if position == 0 {
        1
    } else {
        position
    }
}

/// The sum of the table positions of `units`, each times its weight.
pub open spec fn weighted_total(units: Seq<Unit>) -> int
    decreases units.len(),
{
    if units.len() == 0 {
        0
    } else {
        weighted_total(units.drop_last()) + units.last().index * weight(units.len() - 1)
    }
}

/// The table position of the modulo-103 check symbol of `units`.
pub open spec fn checksum(units: Seq<Unit>) -> int {
    weighted_total(units) % 103
}

/// The modules of the symbol at table position `index`.
#[verifier::opaque]
pub open spec fn pattern(index: int) -> Seq<u8> {
    PATTERNS[index]@
}

/// The modules of the Code128 barcode of `units`: the symbols, the check symbol, the stop
/// symbol and the termination bar.
pub open spec fn code128_modules(units: Seq<Unit>) -> Seq<u8> {
    concat_n(units.len(), |i: int| pattern(units[i].index as int)) + pattern(checksum(units))
        + STOP@ + TERM@
}

/// `units` is a Code128 barcode body: one to 256 units, each a position of the table.
pub open spec fn valid_units(units: Seq<Unit>) -> bool {
    &&& 1 <= units.len() <= 256
    &&& forall|i: int| 0 <= i < units.len() ==> #[trigger] units[i].index < 106
}

/// The Code128 barcode type.
///
/// # Character sets
///
/// * 128A (Code Set A): ASCII characters 00 to 95 (0-9, A-Z and control codes), special
///   characters and FNC 1-4
/// * 128B (Code Set B): ASCII characters 32 to 127 (0-9, A-Z, a-z), special characters and
///   FNC 1-4
/// * 128C (Code Set C): 00-99 (two digits per symbol) and FNC1
///
/// See the module documentation for more.
#[derive(Debug, PartialEq, Eq)]
pub struct Code128(Vec<Unit>);

impl View for Code128 {
    type V = Seq<Unit>;

    closed spec fn view(&self) -> Seq<Unit> {
        self.0@
    }
}

impl Clone for Code128 {
    fn clone(&self) -> (copy: Self)
        ensures
            copy@ == self@,
    {
        proof {
            use_type_invariant(self);
        }
        let units = self.0.clone();
        assert(units@ =~= self.0@);
        Code128(units)
    }
}

/// A symbol of the table is binary and eleven modules long.
proof fn lemma_pattern_binary(index: int)
    requires
        0 <= index < 106,
    ensures
        is_binary(pattern(index)),
        pattern(index).len() == 11,
{
    reveal(pattern);
    assert(is_binary(PATTERNS[index]@));
}

/// The modules of the symbol at table position `index`.
fn symbol(index: usize) -> (modules: [u8; 11])
    requires
        index < 106,
    ensures
        modules@ == pattern(index as int),
{
    proof {
        reveal(pattern);
    }
    PATTERNS[index]
}

/// One step of the running check sum: reducing both factors and the running sum modulo 103
/// leaves the sum modulo 103 unchanged.
proof fn lemma_checksum_step(t: int, index: int, w: int)
    requires
        t >= 0,
        index >= 0,
        w >= 0,
    ensures
        (t % 103 + (index % 103) * (w % 103)) % 103 == (t + index * w) % 103,
        (index % 103) * (w % 103) < 103 * 103,
{
    let x = (index % 103) * (w % 103);
    let y = index * w;
    vstd::arithmetic::div_mod::lemma_mul_mod_noop(index, w, 103);
    helpers::lemma_mod_add_reduce(t, x, 103);
    vstd::arithmetic::div_mod::lemma_add_mod_noop(t, x, 103);
    vstd::arithmetic::div_mod::lemma_add_mod_noop(t, y, 103);
    assert(x < 103 * 103) by (nonlinear_arith)
        requires
            x == (index % 103) * (w % 103),
            0 <= index % 103 < 103,
            0 <= w % 103 < 103,
    ;
}

proof fn lemma_weighted_total_nonneg(units: Seq<Unit>)
    ensures
        weighted_total(units) >= 0,
    decreases units.len(),
{
    if units.len() > 0 {
        lemma_weighted_total_nonneg(units.drop_last());
        let a = units.last().index as int;
        let w = weight(units.len() - 1);
        assert(a * w >= 0) by (nonlinear_arith)
            requires
                a >= 0,
                w >= 0,
        ;
    }
}

impl Code128 {
    #[verifier::type_invariant]
    spec fn well_formed(self) -> bool {
        valid_units(self.0@)
    }

    /// Creates a new barcode. The text must be 2 to 256 characters long and start with a
    /// set-switch character.
    pub fn new(data: &str) -> (barcode: Result<Code128>)
        ensures
            crate::error::result_view(barcode) == spec_code128_new(data@),
    {
        let len = data.unicode_len();
        if len < 2 || len > 256 {
            return Err(Error::length(2, Some(256), len));
        }
        let units = parse(data, len)?;
        proof {
            lemma_prefix_reachable(data@, len as nat);
        }
        Ok(Code128(units))
    }

    /// The table position of the modulo-103 check symbol.
    fn checksum_value(&self) -> (value: usize)
        ensures
            value == checksum(self@),
            value < 103,
    {
        proof {
            use_type_invariant(self);
        }
        let mut sum: usize = 0;
        let mut position: usize = 0;
        while position < self.0.len()
            invariant
                valid_units(self@),
                self.0@ == self@,
                position <= self@.len(),
                sum < 103,
                sum as int == weighted_total(self@.take(position as int)) % 103,
            decreases self@.len() - position,
        {
            let ghost prefix = self@.take(position as int);
            let ghost next = self@.take(position + 1);
            assert(next.drop_last() =~= prefix);
            let w = if position == 0 {
                1
            } else {
                position
            };
            let index = self.0[position].index;
            proof {
                lemma_weighted_total_nonneg(prefix);
                lemma_checksum_step(weighted_total(prefix), index as int, w as int);
                assert(weighted_total(next) == weighted_total(prefix) + index * w);
            }
            let contribution = (index % 103) * (w % 103);
            sum = (sum + contribution) % 103;
            position += 1;
        }
        assert(self@.take(self@.len() as int) =~= self@);
        sum
    }

    /// Encodes the barcode into its binary modules.
    pub fn encode(&self) -> (modules: Vec<u8>)
        ensures
            modules@ == code128_modules(self@),
            is_binary(modules@),
            modules@.len() == 11 * self@.len() + 24,
            modules@.len() <= 2840,
    {
        proof {
            use_type_invariant(self);
        }
        let ghost f = |i: int| pattern(self@[i].index as int);
        let mut enc: Vec<u8> = Vec::new();
        let mut i: usize = 0;
        while i < self.0.len()
            invariant
                i <= self@.len(),
                valid_units(self@),
                self.0@ == self@,
                f == (|i: int| pattern(self@[i].index as int)),
                enc@ == concat_n(i as nat, f),
            decreases self@.len() - i,
        {
            let modules = symbol(self.0[i].index);
            enc.extend_from_slice(&modules);
            i += 1;
        }
        let check = symbol(self.checksum_value());
        enc.extend_from_slice(&check);
        enc.extend_from_slice(&STOP);
        enc.extend_from_slice(&TERM);
        proof {
            lemma_code128_modules_shape(self@);
        }
        enc
    }
}

/// The Code128 modules of valid units are binary, eleven modules per unit plus 24.
pub proof fn lemma_code128_modules_shape(units: Seq<Unit>)
    requires
        valid_units(units),
    ensures
        is_binary(code128_modules(units)),
        code128_modules(units).len() == 11 * units.len() + 24,
{
    let f = |i: int| pattern(units[i].index as int);
    assert forall|i: int| 0 <= i < units.len() implies is_binary(#[trigger] f(i)) && f(i).len()
        == 11 by {
        lemma_pattern_binary(units[i].index as int);
    }
    helpers::lemma_concat_n_binary(units.len(), f);
    helpers::lemma_concat_n_len(units.len(), f, 11);
    let body = concat_n(units.len(), f);
    let c = checksum(units);
    lemma_pattern_binary(c);
    assert(is_binary(STOP@) && is_binary(TERM@));
    helpers::lemma_add_binary(body, pattern(c));
    helpers::lemma_add_binary(body + pattern(c), STOP@);
    helpers::lemma_add_binary(body + pattern(c) + STOP@, TERM@);
}

/// A SHIFT affects only the character right after it: that character is read in the set
/// the SHIFT selected, after which no SHIFT is pending and the active set is unchanged. A
/// set switch or a second SHIFT right after a SHIFT is refused at its position.
pub proof fn lemma_shift_applies_once(st: ParseState, index: int, ch: char)
    requires
        reachable(st),
        st.shift is Some,
    ensures
        (switch_target(ch) is Some || ch == SHIFT) ==> parse_step(st, index, ch) == Err::<
            ParseState,
            Error,
        >(Error::Character { character: Some(ch), index: Some(index as usize) }),
        (switch_target(ch) is None && ch != SHIFT) ==> parse_step(st, index, ch) == match lookup_unit(
            st.shift.unwrap(),
            ch,
        ) {
            Ok(u) => Ok(
                ParseState {
                    units: st.units.push(u),
                    char_set: st.char_set,
                    carry: st.carry,
                    shift: None,
                },
            ),
            Err(e) => Err(e),
        },
{
}

/// Every Code128 text must name its starting set: a text that is read successfully starts
/// with a set-switch character, and its first unit is the start symbol of that set.
pub proof fn lemma_text_starts_with_set(chars: Seq<char>)
    requires
        spec_parse(chars) is Ok,
        chars.len() > 0,
    ensures
        switch_target(chars[0]) is Some,
        spec_parse(chars) matches Ok(units) ==> units[0] == start_unit(
            switch_target(chars[0]).unwrap(),
        ),
{
    let n = chars.len();
    let st = parse_prefix(chars, n);
    assert(st is Ok);
    if parse_prefix(chars, 1) is Err {
        lemma_prefix_error(chars, 1, n);
    }
    assert(parse_prefix(chars, 1) == parse_step(initial_state(), 0, chars[0])) by {
        reveal_with_fuel(parse_prefix, 2);
    }
    lemma_first_step(chars[0]);
    lemma_first_unit_kept(chars, n);
}

/// The first character of a text starts it in a set, or is refused.
proof fn lemma_first_step(ch: char)
    ensures
        parse_step(initial_state(), 0, ch) is Ok ==> switch_target(ch) is Some && parse_step(
            initial_state(),
            0,
            ch,
        ).unwrap().units == seq![start_unit(switch_target(ch).unwrap())],
{
    if switch_target(ch) is None {
        if ch != SHIFT {
            assert(lookup_unit(CharacterSet::Unset, ch) is Err);
        }
    } else {
        assert(Seq::<Unit>::empty().push(start_unit(switch_target(ch).unwrap())) =~= seq![
            start_unit(switch_target(ch).unwrap()),
        ]);
    }
}

/// The first unit read stays the first unit while the rest of the text is read.
proof fn lemma_first_unit_kept(chars: Seq<char>, n: nat)
    requires
        1 <= n <= chars.len(),
        parse_prefix(chars, n) is Ok,
    ensures
        parse_prefix(chars, 1) matches Ok(first) && first.units.len() == 1 && (parse_prefix(
            chars,
            n,
        ) matches Ok(st) ==> st.units.len() >= 1 && st.units[0] == first.units[0]),
    decreases n,
{
    if n > 1 {
        if parse_prefix(chars, (n - 1) as nat) is Err {
            lemma_prefix_error(chars, (n - 1) as nat, n);
        }
        lemma_first_unit_kept(chars, (n - 1) as nat);
        let prev = parse_prefix(chars, (n - 1) as nat).unwrap();
        lemma_step_keeps_first(prev, n - 1, chars[n - 1]);
    } else {
        lemma_step_reachable(initial_state(), 0, chars[0]);
    }
}

/// Reading one more character only appends to the units.
proof fn lemma_step_keeps_first(st: ParseState, index: int, ch: char)
    requires
        st.units.len() >= 1,
    ensures
        parse_step(st, index, ch) matches Ok(next) ==> next.units.len() >= 1 && next.units[0]
            == st.units[0],
{
}

/// The check symbol of the start symbol alone is the start symbol's table position.
pub proof fn lemma_checksum_start(start: Unit)
    requires
        start.index < 103,
    ensures
        checksum(seq![start]) == start.index as int,
{
    let one = seq![start];
    assert(one.drop_last() =~= Seq::<Unit>::empty());
    assert(weight(0) == 1);
    assert(weighted_total(one) == weighted_total(Seq::<Unit>::empty()) + start.index * 1);
    vstd::arithmetic::div_mod::lemma_small_mod(start.index as nat, 103);
}

proof fn lemma_mod_add_left(t: int, x: int)
    ensures
        (t + x) % 103 == (t % 103 + x) % 103,
{
    vstd::arithmetic::div_mod::lemma_add_mod_noop(t, x, 103);
    vstd::arithmetic::div_mod::lemma_add_mod_noop(t % 103, x, 103);
    vstd::arithmetic::div_mod::lemma_mod_twice(t, 103);
}

/// Appending a unit after at least one other adds its table position times its own position
/// in the barcode (counted from 0 at the start symbol) to the check sum modulo 103: the
/// weights grow with the position and never start over.
pub proof fn lemma_checksum_append(units: Seq<Unit>, unit: Unit)
    requires
        units.len() >= 1,
    ensures
        checksum(units.push(unit)) == (checksum(units) + unit.index * units.len()) % 103,
{
    let longer = units.push(unit);
    assert(longer.drop_last() =~= units);
    assert(longer.last() == unit);
    assert(weight(units.len() as int) == units.len());
    let t = weighted_total(units);
    let x = unit.index * units.len();
    assert(weighted_total(longer) == t + x);
    lemma_mod_add_left(t, x);
}

} // verus!
