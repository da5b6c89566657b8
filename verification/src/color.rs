//! Colors and their packing into the 24-bit word that goes over the wire.

use vstd::prelude::*;

verus! {

/// One color: three independent 8-bit channel values.
#[derive(Clone, Copy, Debug, PartialEq, Eq, Structural)]
pub struct Color {
    pub r: u8,
    pub g: u8,
    pub b: u8,
}

impl Color {
    /// The 24-bit word of this color: green in the most significant byte,
    /// red in the middle byte, blue in the least significant byte.
    pub open spec fn word(self) -> nat {
        (self.g * 0x1_0000 + self.r * 0x100 + self.b) as nat
    }

    /// The color whose packed word is `word % 2^24`.
    pub open spec fn of_word(word: nat) -> Color {
        Color {
            r: ((word / 0x100) % 0x100) as u8,
            g: ((word / 0x1_0000) % 0x100) as u8,
            b: (word % 0x100) as u8,
        }
    }

    /// Builds a color from its three channel values.
    pub fn new(r: u8, g: u8, b: u8) -> (color: Color)
        ensures
            color == (Color { r, g, b }),
    {
        Color { r, g, b }
    }

    /// Packs the color into a 24-bit word in green, red, blue order.
    pub fn pack(self) -> (word: u32)
        ensures
            word == self.word(),
            word < 0x100_0000,
    {
        let g: u32 = self.g as u32;
        let r: u32 = self.r as u32;
        let b: u32 = self.b as u32;
        assert((g << 16 | r << 8 | b) == g * 0x1_0000 + r * 0x100 + b) by (bit_vector)
            requires
                g < 0x100,
                r < 0x100,
                b < 0x100,
        ;
        g << 16 | r << 8 | b
    }

    /// Splits a packed word back into its color; bits above the 24th are
    /// left out.
    pub fn unpack(word: u32) -> (color: Color)
        ensures
            color == Color::of_word(word as nat),
            word < 0x100_0000 ==> color.word() == word,
    {
        Color {
            r: ((word / 0x100) % 0x100) as u8,
            g: ((word / 0x1_0000) % 0x100) as u8,
            b: (word % 0x100) as u8,
        }
    }
}

/// Packing and unpacking are inverse to each other on every color.
pub proof fn lemma_word_round_trip(color: Color)
    ensures
        color.word() < 0x100_0000,
        Color::of_word(color.word()) == color,
{
}

} // verus!
