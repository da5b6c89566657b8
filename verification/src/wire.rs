//! Laws of the wire format: what holds of every train that the encoder
//! makes, and of reading one back.

use crate::color::Color;
use crate::encoder::{
    bit_at, color_bits, decodable, decoded_colors, pair_bit, pair_matches, pulse_at,
    pulse_sequence, wire_bit, word_of_bits,
};
use crate::pulse::PulseSymbol;
use crate::timing::{lemma_high_pulses_ordered, lemma_resolvable_frequencies, BitTiming,
    MIN_DISTINCT_FREQUENCY};
use vstd::arithmetic::div_mod::lemma_div_denominator;
use vstd::arithmetic::power2::{lemma2_to64, lemma_pow2_pos, lemma_pow2_unfold, pow2};
use vstd::prelude::*;

verus! {

/// The first `count` bits of `word` in the order in which they are sent: bit 23
/// first.
pub open spec fn sent_bits(word: nat, count: nat) -> Seq<bool> {
    Seq::new(count, |place: int| bit_at(word, (23 - place) as nat))
}

/// The bit that a color sends at `place` of its 24, taken from its channels:
/// green from its top bit down, then red, then blue.
pub open spec fn channel_bit(color: Color, place: int) -> bool {
    if place < 8 {
        bit_at(color.g as nat, (7 - place) as nat)
    } else if place < 16 {
        bit_at(color.r as nat, (15 - place) as nat)
    } else {
        bit_at(color.b as nat, (23 - place) as nat)
    }
}

/// Bit `position` of a 32-bit value is what shifting and masking reads.
proof fn lemma_bit_at_is_shift(value: u32, position: u32)
    requires
        position < 32,
    ensures
        bit_at(value as nat, position as nat) == ((value >> position) & 1 == 1),
{
    vstd::bits::lemma_u32_shr_is_div(value, position);
    let shifted: u32 = value >> position;
    assert(shifted & 1 == shifted % 2) by (bit_vector);
}

/// Reading the first `count` sent bits of `word` gives the word without its
/// lowest `24 - count` bits.
proof fn lemma_sent_bits_prefix(word: nat, count: nat)
    requires
        count <= 24,
        word < 0x100_0000,
    ensures
        word_of_bits(sent_bits(word, count)) == word / pow2((24 - count) as nat),
    decreases count,
{
    lemma2_to64();
    if count == 0 {
        assert(word / 0x100_0000 == 0);
    } else {
        let shorter = (count - 1) as nat;
        lemma_sent_bits_prefix(word, shorter);
        assert(sent_bits(word, count).drop_last() =~= sent_bits(word, shorter));
        let low = pow2((24 - count) as nat);
        lemma_pow2_pos((24 - count) as nat);
        lemma_pow2_unfold((24 - shorter) as nat);
        lemma_div_denominator(word as int, low as int, 2);
        assert(pow2((24 - shorter) as nat) == low * 2);
    }
}

/// Reading all 24 sent bits of a 24-bit word gives the word back.
pub proof fn lemma_word_from_sent_bits(word: nat)
    requires
        word < 0x100_0000,
    ensures
        word_of_bits(sent_bits(word, 24)) == word,
{
    lemma2_to64();
    lemma_sent_bits_prefix(word, 24);
    let unit = pow2((24 - 24) as nat);
    assert(unit == 1);
    assert(word / unit == word) by (nonlinear_arith)
        requires
            unit == 1,
    ;
}

/// The word read from `bits`, cut down to its highest `count` bits, is the
/// word read from the first `count` of them.
proof fn lemma_word_of_bits_prefix(bits: Seq<bool>, count: nat)
    requires
        count <= bits.len(),
    ensures
        word_of_bits(bits) / pow2((bits.len() - count) as nat) == word_of_bits(
            bits.take(count as int),
        ),
    decreases bits.len() - count,
{
    lemma2_to64();
    if count == bits.len() {
        assert(bits.take(count as int) =~= bits);
    } else {
        let longer = count + 1;
        lemma_word_of_bits_prefix(bits, longer);
        let taken = bits.take(longer as int);
        assert(taken.drop_last() =~= bits.take(count as int));
        let low = pow2((bits.len() - longer) as nat);
        lemma_pow2_pos((bits.len() - longer) as nat);
        lemma_pow2_unfold((bits.len() - count) as nat);
        lemma_div_denominator(word_of_bits(bits) as int, low as int, 2);
        assert(pow2((bits.len() - count) as nat) == low * 2);
    }
}

/// A word read from 24 bits holds each of them at its place: the bit read
/// first is bit 23.
pub proof fn lemma_sent_bits_of_word(bits: Seq<bool>, place: int)
    requires
        bits.len() == 24,
        0 <= place < 24,
    ensures
        word_of_bits(bits) < 0x100_0000,
        bit_at(word_of_bits(bits), (23 - place) as nat) == bits[place],
{
    lemma2_to64();
    lemma_word_of_bits_prefix(bits, 0);
    assert(word_of_bits(bits.take(0)) == 0);
    assert(word_of_bits(bits) / 0x100_0000 == 0);
    lemma_word_of_bits_prefix(bits, (place + 1) as nat);
    let taken = bits.take(place + 1);
    assert(taken.last() == bits[place]);
}

/// Channel order on the wire: a color sends the eight bits of green, then
/// those of red, then those of blue, each channel from its top bit down.
pub proof fn lemma_green_red_blue_order(color: Color, place: int)
    requires
        0 <= place < 24,
    ensures
        bit_at(color.word(), (23 - place) as nat) == channel_bit(color, place),
{
    let g: u32 = color.g as u32;
    let r: u32 = color.r as u32;
    let b: u32 = color.b as u32;
    let word: u32 = (g * 0x1_0000 + r * 0x100 + b) as u32;
    let position: u32 = (23 - place) as u32;
    lemma_bit_at_is_shift(word, position);
    if place < 8 {
        let within: u32 = (7 - place) as u32;
        lemma_bit_at_is_shift(g, within);
        assert(((word >> position) & 1) == ((g >> within) & 1)) by (bit_vector)
            requires
                g < 0x100,
                r < 0x100,
                b < 0x100,
                within < 8,
                position == within + 16,
                word == g * 0x1_0000 + r * 0x100 + b,
        ;
    } else if place < 16 {
        let within: u32 = (15 - place) as u32;
        lemma_bit_at_is_shift(r, within);
        assert(((word >> position) & 1) == ((r >> within) & 1)) by (bit_vector)
            requires
                g < 0x100,
                r < 0x100,
                b < 0x100,
                within < 8,
                position == within + 8,
                word == g * 0x1_0000 + r * 0x100 + b,
        ;
    } else {
        lemma_bit_at_is_shift(b, position);
        assert(((word >> position) & 1) == ((b >> position) & 1)) by (bit_vector)
            requires
                g < 0x100,
                r < 0x100,
                b < 0x100,
                position < 8,
                word == g * 0x1_0000 + r * 0x100 + b,
        ;
    }
}

/// A train holds 48 pulses for each color: 48 for one color, none for none.
pub proof fn lemma_train_length(colors: Seq<Color>, color: Color, timing: BitTiming)
    ensures
        pulse_sequence(colors, timing).len() == 48 * colors.len(),
        pulse_sequence(seq![color], timing).len() == 48,
        pulse_sequence(Seq::empty(), timing).len() == 0,
{
    assert(seq![color].len() == 1);
}

/// What holds of each place of a train: it is the high or the low pulse of
/// the timing table for the bit sent there, pairs start with the high pulse,
/// and with a well-formed table every pulse lasts at least one tick.
pub proof fn lemma_train_pulses(colors: Seq<Color>, timing: BitTiming, index: int)
    requires
        0 <= index < 48 * colors.len(),
    ensures
        pulse_sequence(colors, timing)[index] == timing.pulse(
            wire_bit(colors, index / 2),
            index % 2 == 0,
        ),
        timing.wf() ==> pulse_sequence(colors, timing)[index].wf(),
        timing.wf() ==> (pulse_sequence(colors, timing)[index].level == crate::pulse::Level::High
            <==> index % 2 == 0),
{
}

/// Colors follow each other on the wire without a gap: the train of two
/// sequences of colors, one after the other, is the train of the first
/// followed by the train of the second.
pub proof fn lemma_trains_concatenate(first: Seq<Color>, second: Seq<Color>, timing: BitTiming)
    ensures
        pulse_sequence(first + second, timing) == pulse_sequence(first, timing) + pulse_sequence(
            second,
            timing,
        ),
{
    let whole = pulse_sequence(first + second, timing);
    let joined = pulse_sequence(first, timing) + pulse_sequence(second, timing);
    assert(whole.len() == joined.len());
    assert forall|index: int| 0 <= index < whole.len() implies whole[index] == joined[index] by {
        let pair = index / 2;
        if index < 48 * first.len() {
            assert(pair / 24 < first.len());
        } else {
            let shifted = index - 48 * first.len();
            assert(shifted / 2 == pair - 24 * first.len());
            assert((shifted / 2) / 24 == pair / 24 - first.len());
            assert((shifted / 2) % 24 == pair % 24);
            assert(shifted % 2 == index % 2);
            assert(pulse_sequence(second, timing)[shifted] == pulse_at(second, timing, shifted));
        }
    }
    assert(whole =~= joined);
}

/// The same colors at the same tick frequency give the same train, pulse for
/// pulse, however often they are encoded.
pub proof fn lemma_same_colors_same_train(
    first: Seq<PulseSymbol>,
    second: Seq<PulseSymbol>,
    colors: Seq<Color>,
    tick_frequency: u32,
)
    requires
        first == pulse_sequence(colors, BitTiming::at(tick_frequency as nat)),
        second == pulse_sequence(colors, BitTiming::at(tick_frequency as nat)),
    ensures
        first.len() == second.len(),
        forall|index: int| 0 <= index < first.len() ==> first[index] == second[index],
        first == second,
{
}

/// A color whose only set bit is bit `bit` of green sends a logic 1 in pair
/// `7 - bit` and a logic 0 in its other 23 pairs: the set bit goes out among
/// the first eight pairs, before anything of red or blue.
pub proof fn lemma_single_green_bit(bit: nat, timing: BitTiming, pair: int)
    requires
        bit < 8,
        0 <= pair < 24,
    ensures
        pow2(bit) < 0x100,
        0 <= 7 - bit < 8,
        wire_bit(seq![Color { r: 0, g: pow2(bit) as u8, b: 0 }], pair) == (pair == 7 - bit),
        pulse_sequence(seq![Color { r: 0, g: pow2(bit) as u8, b: 0 }], timing)[2 * pair]
            == timing.pulse(pair == 7 - bit, true),
        pulse_sequence(seq![Color { r: 0, g: pow2(bit) as u8, b: 0 }], timing)[2 * pair + 1]
            == timing.pulse(pair == 7 - bit, false),
{
    lemma2_to64();
    let shift: u32 = bit as u32;
    let green: u32 = 1u32 << shift;
    vstd::bits::lemma_u32_shl_is_mul(1u32, shift);
    assert(green == pow2(bit));
    let color = Color { r: 0, g: pow2(bit) as u8, b: 0 };
    lemma_green_red_blue_order(color, pair);
    if pair < 8 {
        let within: u32 = (7 - pair) as u32;
        lemma_bit_at_is_shift(green, within);
        assert((((1u32 << shift) >> within) & 1 == 1) == (within == shift)) by (bit_vector)
            requires
                shift < 8,
                within < 8,
        ;
    } else {
        let within: u32 = if pair < 16 {
            (15 - pair) as u32
        } else {
            (23 - pair) as u32
        };
        lemma_bit_at_is_shift(0u32, within);
        assert((0u32 >> within) & 1 == 0) by (bit_vector);
    }
    assert((2 * pair) / 2 == pair && (2 * pair + 1) / 2 == pair);
}

/// In a train that renders `colors`, each pair is one of the timing table
/// and stands for the bit that was sent in it.
proof fn lemma_pair_reads_back(colors: Seq<Color>, timing: BitTiming, pair: int)
    requires
        timing.distinguishes(),
        0 <= pair < 24 * colors.len(),
    ensures
        pair_bit(pulse_sequence(colors, timing), timing, pair) == wire_bit(colors, pair),
        pair_matches(pulse_sequence(colors, timing), timing, pair),
{
    let train = pulse_sequence(colors, timing);
    assert((2 * pair) / 2 == pair && (2 * pair) % 2 == 0);
    assert((2 * pair + 1) / 2 == pair && (2 * pair + 1) % 2 == 1);
    assert(train[2 * pair] == pulse_at(colors, timing, 2 * pair));
    assert(train[2 * pair + 1] == pulse_at(colors, timing, 2 * pair + 1));
}

/// In a train that renders `colors`, the 24 pairs of the color at `place`
/// read back as its packed word.
proof fn lemma_color_reads_back(colors: Seq<Color>, timing: BitTiming, place: int)
    requires
        timing.distinguishes(),
        0 <= place < colors.len(),
    ensures
        word_of_bits(color_bits(pulse_sequence(colors, timing), timing, place, 24))
            == colors[place].word(),
{
    let train = pulse_sequence(colors, timing);
    let word = colors[place].word();
    let read = color_bits(train, timing, place, 24);
    assert forall|bit: int| 0 <= bit < 24 implies read[bit] == sent_bits(word, 24)[bit] by {
        let pair = 24 * place + bit;
        assert(pair / 24 == place && pair % 24 == bit);
        lemma_pair_reads_back(colors, timing, pair);
    }
    assert(read =~= sent_bits(word, 24));
    lemma_word_from_sent_bits(word);
}

/// Reading back a train that renders `colors` gives `colors`, whenever the
/// timing table tells a logic 1 from a logic 0 by its high pulse.
pub proof fn lemma_decoding_recovers_colors(colors: Seq<Color>, timing: BitTiming)
    requires
        timing.distinguishes(),
    ensures
        decodable(pulse_sequence(colors, timing), timing),
        decoded_colors(pulse_sequence(colors, timing), timing) == colors,
{
    let train = pulse_sequence(colors, timing);
    assert(train.len() == 48 * colors.len());
    assert forall|pair: int| 0 <= pair < train.len() / 2 implies pair_matches(
        train,
        timing,
        pair,
    ) by {
        lemma_pair_reads_back(colors, timing, pair);
    }
    let decoded = decoded_colors(train, timing);
    assert(decoded.len() == colors.len());
    assert forall|place: int| 0 <= place < colors.len() implies decoded[place]
        == colors[place] by {
        lemma_color_reads_back(colors, timing, place);
        crate::color::lemma_word_round_trip(colors[place]);
    }
    assert(decoded =~= colors);
}

/// Round trip at a tick frequency: from `MIN_DISTINCT_FREQUENCY` on, the
/// timing table resolves, and what is read back from the train of `colors`
/// is `colors`.
pub proof fn lemma_round_trip(colors: Seq<Color>, tick_frequency: u32)
    requires
        tick_frequency >= MIN_DISTINCT_FREQUENCY,
    ensures
        BitTiming::resolvable(tick_frequency as nat),
        decodable(
            pulse_sequence(colors, BitTiming::at(tick_frequency as nat)),
            BitTiming::at(tick_frequency as nat),
        ),
        decoded_colors(
            pulse_sequence(colors, BitTiming::at(tick_frequency as nat)),
            BitTiming::at(tick_frequency as nat),
        ) == colors,
{
    lemma_resolvable_frequencies(tick_frequency);
    lemma_high_pulses_ordered(tick_frequency);
    lemma_decoding_recovers_colors(colors, BitTiming::at(tick_frequency as nat));
}

/// Encoding what was read back from a decodable train gives that train: no
/// two sequences of colors share a train, and no decodable train is left
/// without one.
pub proof fn lemma_encoding_restores_train(symbols: Seq<PulseSymbol>, timing: BitTiming)
    requires
        decodable(symbols, timing),
    ensures
        pulse_sequence(decoded_colors(symbols, timing), timing) == symbols,
{
    let colors = decoded_colors(symbols, timing);
    let train = pulse_sequence(colors, timing);
    assert(train.len() == symbols.len());
    assert forall|index: int| 0 <= index < symbols.len() implies train[index]
        == symbols[index] by {
        let pair = index / 2;
        let place = pair / 24;
        let bit = pair % 24;
        let bits = color_bits(symbols, timing, place, 24);
        lemma_sent_bits_of_word(bits, bit);
        let word = word_of_bits(bits);
        assert(colors[place] == Color::of_word(word));
        assert(colors[place].word() == word);
        assert(24 * place + bit == pair);
        assert(wire_bit(colors, pair) == pair_bit(symbols, timing, pair));
        assert(pair_matches(symbols, timing, pair));
    }
    assert(train =~= symbols);
}

} // verus!
