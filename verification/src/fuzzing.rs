//! Settings for exercising the whole public API with arbitrary input bytes: the first bytes
//! of the input choose the height, X dimension, rotation and colours of the generators.

use crate::generators::image::Rotation;
use vstd::prelude::*;

verus! {

/// Generator settings decoded from input bytes.
#[derive(Clone, Copy, Debug)]
pub struct RenderOptions {
    /// The height, from 0 to 32; zero exercises the error paths.
    pub height: u32,
    /// The X dimension, from 0 to 8; zero exercises the error paths.
    pub xdim: u32,
    /// The image rotation.
    pub rotation: Rotation,
    /// The foreground RGBA colour.
    pub foreground: [u8; 4],
    /// The background RGBA colour.
    pub background: [u8; 4],
}

/// The byte of `data` at `index`, or zero past its end.
pub open spec fn byte_at(data: Seq<u8>, index: int) -> u8 {
    if 0 <= index < data.len() {
        data[index]
    } else {
        0
    }
}

/// The rotation that the byte `b` selects: its remainder modulo 4 counts quarter turns.
pub open spec fn rotation_of(b: u8) -> Rotation {
    if b % 4 == 0 {
        Rotation::Zero
    } else if b % 4 == 1 {
        Rotation::Ninety
    } else if b % 4 == 2 {
        Rotation::OneEighty
    } else {
        Rotation::TwoSeventy
    }
}

/// The four bytes of `data` from `offset` on.
pub open spec fn color_at(data: Seq<u8>, offset: int) -> Seq<u8> {
    seq![
        byte_at(data, offset),
        byte_at(data, offset + 1),
        byte_at(data, offset + 2),
        byte_at(data, offset + 3),
    ]
}

fn byte(data: &[u8], index: usize) -> (b: u8)
    ensures
        b == byte_at(data@, index as int),
{
    if index < data.len() {
        data[index]
    } else {
        0
    }
}

fn color(data: &[u8], offset: usize) -> (rgba: [u8; 4])
    requires
        offset <= 7,
    ensures
        rgba@ == color_at(data@, offset as int),
{
    let rgba = [byte(data, offset), byte(data, offset + 1), byte(data, offset + 2), byte(data, offset + 3)];
    assert(rgba@ =~= color_at(data@, offset as int));
    rgba
}

impl RenderOptions {
    /// Decodes the settings: byte 0 gives the height modulo 33, byte 1 the X dimension
    /// modulo 9, byte 2 the rotation, bytes 3 to 6 the foreground and bytes 7 to 10 the
    /// background; missing bytes count as zero.
    pub fn from_bytes(data: &[u8]) -> (options: Self)
        ensures
            options.height == byte_at(data@, 0) % 33,
            options.xdim == byte_at(data@, 1) % 9,
            options.rotation == rotation_of(byte_at(data@, 2)),
            options.foreground@ == color_at(data@, 3),
            options.background@ == color_at(data@, 7),
    {
        let rotation = match byte(data, 2) % 4 {
            0 => Rotation::Zero,
            1 => Rotation::Ninety,
            2 => Rotation::OneEighty,
            _ => Rotation::TwoSeventy,
        };
        RenderOptions {
            height: (byte(data, 0) % 33) as u32,
            xdim: (byte(data, 1) % 9) as u32,
            rotation,
            foreground: color(data, 3),
            background: color(data, 7),
        }
    }
}

} // verus!
