//! The pulse-train encoder: an ordered sequence of colors becomes the ordered
//! train of pulses that renders it on the wire, and back.

use crate::color::Color;
use crate::pulse::{EncodingError, PulseSymbol};
use crate::timing::BitTiming;
use vstd::arithmetic::power2::pow2;
use vstd::prelude::*;

verus! {

/// Bits that one color puts on the wire.
pub const BITS_PER_COLOR: usize = 24;

/// Pulses that one color puts on the wire: a high and a low one for each bit.
pub const PULSES_PER_COLOR: usize = 48;

/// Bit `position` of `word`, bit 0 being the least significant.
pub open spec fn bit_at(word: nat, position: nat) -> bool {
    (word / pow2(position)) % 2 == 1
}

/// The bit that pulse pair `pair` of the train carries: colors follow each
/// other without a gap, and each sends its word from bit 23 down to bit 0.
pub open spec fn wire_bit(colors: Seq<Color>, pair: int) -> bool {
    bit_at(colors[pair / 24].word(), (23 - pair % 24) as nat)
}

/// The pulse at place `index` of the train that renders `colors`: pair
/// `index / 2`, its high pulse first.
pub open spec fn pulse_at(colors: Seq<Color>, timing: BitTiming, index: int) -> PulseSymbol {
    timing.pulse(wire_bit(colors, index / 2), index % 2 == 0)
}

/// The train that renders `colors` with the pulses of `timing`.
pub open spec fn pulse_sequence(colors: Seq<Color>, timing: BitTiming) -> Seq<PulseSymbol> {
    Seq::new(48 * colors.len(), |index: int| pulse_at(colors, timing, index))
}

/// The number whose binary digits are `bits`, most significant first.
pub open spec fn word_of_bits(bits: Seq<bool>) -> nat
    decreases bits.len(),
{
    if bits.len() == 0 {
        0
    } else {
        2 * word_of_bits(bits.drop_last()) + if bits.last() {
            1nat
        } else {
            0nat
        }
    }
}

/// The bit that pulse pair `pair` of `symbols` stands for, told by how long
/// its high pulse lasts.
pub open spec fn pair_bit(symbols: Seq<PulseSymbol>, timing: BitTiming, pair: int) -> bool {
    symbols[2 * pair].ticks == timing.one_high.ticks
}

/// Whether pulse pair `pair` of `symbols` is the pair of the timing table for
/// the bit that it stands for.
pub open spec fn pair_matches(symbols: Seq<PulseSymbol>, timing: BitTiming, pair: int) -> bool {
    &&& symbols[2 * pair] == timing.pulse(pair_bit(symbols, timing, pair), true)
    &&& symbols[2 * pair + 1] == timing.pulse(pair_bit(symbols, timing, pair), false)
}

/// Whether `symbols` can be read back: the timing tells the two bits apart,
/// the train holds whole colors, and every pair is one of the timing table.
pub open spec fn decodable(symbols: Seq<PulseSymbol>, timing: BitTiming) -> bool {
    &&& timing.distinguishes()
    &&& symbols.len() % 48 == 0
    &&& forall|pair: int| 0 <= pair < symbols.len() / 2 ==> pair_matches(symbols, timing, pair)
}

/// The first `count` bits of the color at place `color` of `symbols`, in the
/// order in which they were sent.
pub open spec fn color_bits(
    symbols: Seq<PulseSymbol>,
    timing: BitTiming,
    color: int,
    count: nat,
) -> Seq<bool> {
    Seq::new(count, |bit: int| pair_bit(symbols, timing, 24 * color + bit))
}

/// The colors that `symbols` renders: each run of 24 pairs read as a packed
/// word, most significant bit first.
pub open spec fn decoded_colors(symbols: Seq<PulseSymbol>, timing: BitTiming) -> Seq<Color> {
    Seq::new(
        symbols.len() / 48,
        |color: int| Color::of_word(word_of_bits(color_bits(symbols, timing, color, 24))),
    )
}

/// An ordered, finite train of pulses, made in one piece and not changed
/// afterwards.
#[derive(Debug, PartialEq, Eq)]
pub struct PulseTrain {
    symbols: Vec<PulseSymbol>,
}

impl View for PulseTrain {
    type V = Seq<PulseSymbol>;

    closed spec fn view(&self) -> Seq<PulseSymbol> {
        self.symbols@
    }
}

impl PulseTrain {
    /// Number of pulses in the train.
    pub fn len(&self) -> (len: usize)
        ensures
            len == self@.len(),
    {
        self.symbols.len()
    }

    /// The pulses in the order in which they go out.
    pub fn as_slice(&self) -> (symbols: &[PulseSymbol])
        ensures
            symbols@ == self@,
    {
        self.symbols.as_slice()
    }
}

/// Reads bit `position` of a packed word.
fn word_bit(word: u32, position: u32) -> (bit: bool)
    requires
        position < 24,
    ensures
        bit == bit_at(word as nat, position as nat),
{
    proof {
        vstd::bits::lemma_u32_shr_is_div(word, position);
        let shifted: u32 = word >> position;
        assert(shifted & 1 == shifted % 2) by (bit_vector);
    }
    (word >> position) & 1 == 1
}

/// Renders `colors` as the pulse train for a pulse clock of `tick_frequency`
/// hertz: for each color 24 bits, most significant first, each bit as its
/// high pulse followed by its low pulse.
pub fn encode(colors: &[Color], tick_frequency: u32) -> (result: Result<PulseTrain, EncodingError>)
    requires
        48 * colors@.len() <= usize::MAX,
    ensures
        match result {
            Ok(train) => {
                &&& BitTiming::resolvable(tick_frequency as nat)
                &&& train@ == pulse_sequence(colors@, BitTiming::at(tick_frequency as nat))
                &&& train@.len() == 48 * colors@.len()
                &&& forall|index: int| 0 <= index < train@.len() ==> (#[trigger] train@[index]).wf()
            },
            Err(_) => !BitTiming::resolvable(tick_frequency as nat),
        },
{
    let timing = match BitTiming::resolve(tick_frequency) {
        Ok(timing) => timing,
        Err(error) => {
            return Err(error);
        },
    };
    let mut symbols: Vec<PulseSymbol> = Vec::with_capacity(PULSES_PER_COLOR * colors.len());
    let mut done: usize = 0;
    while done < colors.len()
        invariant
            done <= colors@.len(),
            48 * colors@.len() <= usize::MAX,
            symbols@.len() == 48 * done,
            forall|index: int|
                0 <= index < symbols@.len() ==> symbols@[index] == pulse_at(
                    colors@,
                    timing,
                    index,
                ),
        decreases colors@.len() - done,
    {
        let word: u32 = colors[done].pack();
        let mut sent: u32 = 0;
        while sent < 24
            invariant
                done < colors@.len(),
                sent <= 24,
                word == colors@[done as int].word(),
                symbols@.len() == 48 * done + 2 * sent,
                forall|index: int|
                    0 <= index < symbols@.len() ==> symbols@[index] == pulse_at(
                        colors@,
                        timing,
                        index,
                    ),
            decreases 24 - sent,
        {
            let bit = word_bit(word, 23 - sent);
            let (high, low) = timing.pair(bit);
            proof {
                let pair: int = 24 * done + sent;
                assert(pair / 24 == done && pair % 24 == sent);
                assert(wire_bit(colors@, pair) == bit);
                assert((2 * pair) / 2 == pair && (2 * pair) % 2 == 0);
                assert((2 * pair + 1) / 2 == pair && (2 * pair + 1) % 2 == 1);
            }
            symbols.push(high);
            symbols.push(low);
            sent += 1;
        }
        done += 1;
    }
    Ok(PulseTrain { symbols })
}

/// A word read from at most 24 bits fits in 24 bits, and one bit more
/// doubles it and adds the bit.
proof fn lemma_word_of_bits_step(bits: Seq<bool>)
    requires
        0 < bits.len() <= 24,
    ensures
        word_of_bits(bits.drop_last()) < 0x80_0000,
        word_of_bits(bits) == 2 * word_of_bits(bits.drop_last()) + if bits.last() {
            1nat
        } else {
            0nat
        },
{
    lemma_word_of_bits_bound(bits.drop_last());
    vstd::arithmetic::power2::lemma2_to64();
    if bits.len() < 24 {
        vstd::arithmetic::power2::lemma_pow2_strictly_increases((bits.len() - 1) as nat, 23);
    }
}

/// A word read from `n` bits is below 2^n.
proof fn lemma_word_of_bits_bound(bits: Seq<bool>)
    ensures
        word_of_bits(bits) < pow2(bits.len()),
    decreases bits.len(),
{
    if bits.len() == 0 {
        vstd::arithmetic::power2::lemma2_to64();
    } else {
        lemma_word_of_bits_bound(bits.drop_last());
        vstd::arithmetic::power2::lemma_pow2_unfold(bits.len());
    }
}

/// Reads a pulse train back into the colors that it renders, at a pulse
/// clock of `tick_frequency` hertz. Each pair of pulses gives one bit, told
/// by the duration of its high pulse.
pub fn decode(symbols: &[PulseSymbol], tick_frequency: u32) -> (result: Option<Vec<Color>>)
    ensures
        match result {
            Some(colors) => {
                &&& BitTiming::resolvable(tick_frequency as nat)
                &&& decodable(symbols@, BitTiming::at(tick_frequency as nat))
                &&& colors@ == decoded_colors(symbols@, BitTiming::at(tick_frequency as nat))
            },
            None => !BitTiming::resolvable(tick_frequency as nat) || !decodable(
                symbols@,
                BitTiming::at(tick_frequency as nat),
            ),
        },
{
    let timing = match BitTiming::resolve(tick_frequency) {
        Ok(timing) => timing,
        Err(_) => {
            return None;
        },
    };
    if timing.zero_high.ticks == timing.one_high.ticks || symbols.len() % PULSES_PER_COLOR != 0 {
        return None;
    }
    let count: usize = symbols.len() / PULSES_PER_COLOR;
    let mut colors: Vec<Color> = Vec::with_capacity(count);
    let mut done: usize = 0;
    while done < count
        invariant
            done <= count,
            count == symbols@.len() / 48,
            symbols@.len() % 48 == 0,
            symbols@.len() <= usize::MAX,
            timing == BitTiming::at(tick_frequency as nat),
            colors@.len() == done,
            forall|pair: int| 0 <= pair < 24 * done ==> pair_matches(symbols@, timing, pair),
            forall|color: int|
                0 <= color < done ==> colors@[color] == Color::of_word(
                    word_of_bits(color_bits(symbols@, timing, color, 24)),
                ),
        decreases count - done,
    {
        let mut word: u32 = 0;
        let mut read: usize = 0;
        while read < BITS_PER_COLOR
            invariant
                done < count,
                count == symbols@.len() / 48,
                symbols@.len() % 48 == 0,
            symbols@.len() <= usize::MAX,
            timing == BitTiming::at(tick_frequency as nat),
                read <= 24,
                word == word_of_bits(color_bits(symbols@, timing, done as int, read as nat)),
                forall|pair: int|
                    0 <= pair < 24 * done + read ==> pair_matches(symbols@, timing, pair),
            decreases 24 - read,
        {
            assert(48 * (done + 1) <= symbols@.len());
            let pair: usize = BITS_PER_COLOR * done + read;
            let high = symbols[2 * pair];
            let low = symbols[2 * pair + 1];
            let bit = high.ticks == timing.one_high.ticks;
            let (expected_high, expected_low) = timing.pair(bit);
            if high != expected_high || low != expected_low {
                assert(pair < symbols@.len() / 2);
                assert(!pair_matches(symbols@, timing, pair as int));
                return None;
            }
            proof {
                let longer = color_bits(symbols@, timing, done as int, (read + 1) as nat);
                assert(longer.drop_last() =~= color_bits(
                    symbols@,
                    timing,
                    done as int,
                    read as nat,
                ));
                assert(longer.last() == bit);
                lemma_word_of_bits_step(longer);
            }
            word = 2 * word + if bit {
                1
            } else {
                0
            };
            read += 1;
        }
        colors.push(Color::unpack(word));
        done += 1;
    }
    proof {
        assert(colors@ =~= decoded_colors(symbols@, timing));
    }
    Some(colors)
}

} // verus!
