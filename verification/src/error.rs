//! Error type shared by the encoders and the generators.

use crate::text::{decimal, push_char, push_decimal, push_str};
use vstd::prelude::*;

verus! {

/// Errors that can occur while encoding a barcode or generating its output.
#[derive(Copy, Clone, Debug, PartialEq, Eq)]
#[non_exhaustive]
#[allow(inconsistent_fields)]
pub enum Error {
    /// The input holds a character that the symbology does not support.
    Character {
        /// The unsupported character, when known.
        character: Option<char>,
        /// Zero-based position of the character, when known.
        index: Option<usize>,
    },
    /// The input length is not valid for the symbology.
    Length {
        /// Shortest accepted length.
        min: usize,
        /// Longest accepted length, when there is one.
        max: Option<usize>,
        /// Length that was found.
        found: usize,
    },
    /// The input length is none of the accepted discrete lengths.
    LengthSet {
        /// The accepted lengths.
        expected: &'static [usize],
        /// Length that was found.
        found: usize,
    },
    /// Converting the barcode to the target format failed.
    Generate {
        /// The target that was being produced.
        target: &'static str,
        /// Why the output could not be produced.
        reason: &'static str,
    },
    /// The check digit in the input does not match the computed one.
    Checksum {
        /// The computed check digit.
        expected: u8,
        /// The check digit found in the input.
        found: u8,
    },
    /// A module representation holds a value other than `0` or `1`.
    InvalidEncoding {
        /// Zero-based position of the invalid module.
        index: usize,
        /// The invalid value.
        value: u8,
    },
    /// The requested output dimensions are invalid or out of numeric range.
    Dimension {
        /// Why the dimension was rejected.
        reason: &'static str,
    },
    /// The requested output exceeds a safe resource limit.
    ResourceLimit {
        /// The limited resource.
        resource: &'static str,
        /// The requested amount.
        requested: u64,
        /// The largest allowed amount.
        maximum: u64,
    },
}

/// Short name for `Result<T, barcoders::error::Error>`.
pub type Result<T> = core::result::Result<T, Error>;

/// The abstract value of a result: the view of a success, the error itself otherwise.
pub open spec fn result_view<T: View>(r: Result<T>) -> core::result::Result<T::V, Error> {
    match r {
        Ok(t) => Ok(t@),
        Err(e) => Err(e),
    }
}

impl Error {
    /// An unsupported character error.
    pub fn character(character: Option<char>, index: Option<usize>) -> (e: Self)
        ensures
            e == (Error::Character { character, index }),
    {
        Error::Character { character, index }
    }

    /// An invalid length error.
    pub fn length(min: usize, max: Option<usize>, found: usize) -> (e: Self)
        ensures
            e == (Error::Length { min, max, found }),
    {
        Error::Length { min, max, found }
    }

    /// An error for a length outside a set of accepted lengths.
    pub fn length_set(expected: &'static [usize], found: usize) -> (e: Self)
        ensures
            e == (Error::LengthSet { expected, found }),
    {
        Error::LengthSet { expected, found }
    }

    /// An output generation error.
    pub fn generate(target: &'static str, reason: &'static str) -> (e: Self)
        ensures
            e == (Error::Generate { target, reason }),
    {
        Error::Generate { target, reason }
    }

    /// An invalid dimension error.
    pub fn dimension(reason: &'static str) -> (e: Self)
        ensures
            e == (Error::Dimension { reason }),
    {
        Error::Dimension { reason }
    }
}

/// The separator written before the `k`-th of `n` listed lengths: none before the first,
/// `" veya "` before the last, `", "` otherwise.
pub open spec fn list_separator(k: int, n: int) -> Seq<char> {
    if k == 0 {
        Seq::empty()
    } else if k + 1 == n {
        " veya "@
    } else {
        ", "@
    }
}

/// The first `n` of the lengths `lengths`, in decimal, with their separators.
pub open spec fn length_list(lengths: Seq<usize>, n: nat) -> Seq<char>
    decreases n,
{
    if n == 0 {
        Seq::empty()
    } else {
        length_list(lengths, (n - 1) as nat) + list_separator(n - 1, lengths.len() as int)
            + decimal(lengths[n - 1] as nat)
    }
}

/// The text that describes the error `e`.
pub open spec fn message_text(e: Error) -> Seq<char> {
    match e {
        Error::Character { character: Some(c), index: Some(i) } => "Barkod verisindeki '"@
            + seq![c] + "' karakteri "@ + decimal(i as nat) + ". konumda desteklenmiyor"@,
        Error::Character { character: Some(c), index: None } => "Barkod verisindeki '"@ + seq![c]
            + "' karakteri desteklenmiyor"@,
        Error::Character { .. } => "Barkod verisi desteklenmeyen bir karakter içeriyor"@,
        Error::Length { min, max: Some(max), found } => if min == max {
            "Barkod verisi "@ + decimal(min as nat) + " karakter olmalı; "@ + decimal(found as nat)
                + " karakter bulundu"@
        } else {
            "Barkod verisi "@ + decimal(min as nat) + " ile "@ + decimal(max as nat)
                + " karakter arasında olmalı; "@ + decimal(found as nat) + " karakter bulundu"@
        },
        Error::Length { min, max: None, found } => "Barkod verisi en az "@ + decimal(min as nat)
            + " karakter olmalı; "@ + decimal(found as nat) + " karakter bulundu"@,
        Error::LengthSet { expected, found } => "Barkod verisi "@ + length_list(
            expected@,
            expected@.len(),
        ) + " karakter olmalı; "@ + decimal(found as nat) + " karakter bulundu"@,
        Error::Generate { target, reason } => "Barkod çıktısı "@ + target@
            + " hedefinde oluşturulamadı: "@ + reason@,
        Error::Checksum { expected, found } => "Barkod sağlama basamağı geçersiz: "@ + decimal(
            expected as nat,
        ) + " beklenirken "@ + decimal(found as nat) + " bulundu"@,
        Error::InvalidEncoding { index, value } => "Barkod gösteriminin "@ + decimal(index as nat)
            + ". konumunda 0 veya 1 yerine "@ + decimal(value as nat) + " bulundu"@,
        Error::Dimension { reason } => "Barkod boyutları geçersiz: "@ + reason@,
        Error::ResourceLimit { resource, requested, maximum } => "Barkod üretimi "@ + resource@
            + " sınırını aşıyor: "@ + decimal(requested as nat) + " istendi, en fazla "@ + decimal(
            maximum as nat,
        ) + " kullanılabilir"@,
    }
}

impl Error {
    /// A human-readable description of the error.
    pub fn message(&self) -> (text: String)
        ensures
            text@ == message_text(*self),
    {
        let mut out = String::new();
        match *self {
            Error::Character { character: Some(c), index: Some(i) } => {
                push_str(&mut out, "Barkod verisindeki '");
                push_char(&mut out, c);
                push_str(&mut out, "' karakteri ");
                push_decimal(&mut out, i as u64);
                push_str(&mut out, ". konumda desteklenmiyor");
            },
            Error::Character { character: Some(c), index: None } => {
                push_str(&mut out, "Barkod verisindeki '");
                push_char(&mut out, c);
                push_str(&mut out, "' karakteri desteklenmiyor");
            },
            Error::Character { .. } => {
                push_str(&mut out, "Barkod verisi desteklenmeyen bir karakter içeriyor");
            },
            Error::Length { min, max: Some(max), found } => {
                push_str(&mut out, "Barkod verisi ");
                push_decimal(&mut out, min as u64);
                if min == max {
                    push_str(&mut out, " karakter olmalı; ");
                } else {
                    push_str(&mut out, " ile ");
                    push_decimal(&mut out, max as u64);
                    push_str(&mut out, " karakter arasında olmalı; ");
                }
                push_decimal(&mut out, found as u64);
                push_str(&mut out, " karakter bulundu");
            },
            Error::Length { min, max: None, found } => {
                push_str(&mut out, "Barkod verisi en az ");
                push_decimal(&mut out, min as u64);
                push_str(&mut out, " karakter olmalı; ");
                push_decimal(&mut out, found as u64);
                push_str(&mut out, " karakter bulundu");
            },
            Error::LengthSet { expected, found } => {
                push_str(&mut out, "Barkod verisi ");
                let n = expected.len();
                let mut k: usize = 0;
                while k < n
                    invariant
                        n == expected@.len(),
                        k <= n,
                        out@ == "Barkod verisi "@ + length_list(expected@, k as nat),
                    decreases n - k,
                {
                    if k > 0 {
                        if k + 1 == n {
                            push_str(&mut out, " veya ");
                        } else {
                            push_str(&mut out, ", ");
                        }
                    }
                    push_decimal(&mut out, expected[k] as u64);
                    k += 1;
                }
                push_str(&mut out, " karakter olmalı; ");
                push_decimal(&mut out, found as u64);
                push_str(&mut out, " karakter bulundu");
            },
            Error::Generate { target, reason } => {
                push_str(&mut out, "Barkod çıktısı ");
                push_str(&mut out, target);
                push_str(&mut out, " hedefinde oluşturulamadı: ");
                push_str(&mut out, reason);
            },
            Error::Checksum { expected, found } => {
                push_str(&mut out, "Barkod sağlama basamağı geçersiz: ");
                push_decimal(&mut out, expected as u64);
                push_str(&mut out, " beklenirken ");
                push_decimal(&mut out, found as u64);
                push_str(&mut out, " bulundu");
            },
            Error::InvalidEncoding { index, value } => {
                push_str(&mut out, "Barkod gösteriminin ");
                push_decimal(&mut out, index as u64);
                push_str(&mut out, ". konumunda 0 veya 1 yerine ");
                push_decimal(&mut out, value as u64);
                push_str(&mut out, " bulundu");
            },
            Error::Dimension { reason } => {
                push_str(&mut out, "Barkod boyutları geçersiz: ");
                push_str(&mut out, reason);
            },
            Error::ResourceLimit { resource, requested, maximum } => {
                push_str(&mut out, "Barkod üretimi ");
                push_str(&mut out, resource);
                push_str(&mut out, " sınırını aşıyor: ");
                push_decimal(&mut out, requested);
                push_str(&mut out, " istendi, en fazla ");
                push_decimal(&mut out, maximum);
                push_str(&mut out, " kullanılabilir");
            },
        }
        out
    }
}

} // verus!
