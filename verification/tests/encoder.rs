use led_pulse::color::Color;
use led_pulse::encoder::{decode, encode, BITS_PER_COLOR, PULSES_PER_COLOR};
use led_pulse::pulse::{EncodingError, Level, PulseSymbol};
use led_pulse::timing::{BitTiming, MIN_DISTINCT_FREQUENCY, MIN_TICK_FREQUENCY};

const CLOCK: u32 = 80_000_000;

/// Reads the bits of a train off its high pulses, most significant first.
fn words_of(symbols: &[PulseSymbol], timing: &BitTiming) -> Vec<u32> {
    let mut words = Vec::new();
    for color in symbols.chunks(48) {
        let mut word: u32 = 0;
        for pair in color.chunks(2) {
            let bit = if pair[0].ticks == timing.one_high.ticks {
                1
            } else {
                assert_eq!(pair[0].ticks, timing.zero_high.ticks);
                0
            };
            word = (word << 1) | bit;
        }
        words.push(word);
    }
    words
}

#[test]
fn one_color_gives_48_pulses() {
    assert_eq!(PULSES_PER_COLOR, 48);
    assert_eq!(BITS_PER_COLOR, 24);
    for color in [
        Color::new(0, 0, 0),
        Color::new(255, 255, 255),
        Color::new(1, 2, 4),
        Color::new(200, 100, 50),
    ] {
        let train = encode(&[color], CLOCK).unwrap();
        assert_eq!(train.len(), 48);
        assert_eq!(train.as_slice().len(), 48);
    }
}

#[test]
fn train_length_follows_the_colors() {
    assert_eq!(encode(&[], CLOCK).unwrap().len(), 0);
    let colors = vec![Color::new(9, 8, 7); 5];
    assert_eq!(encode(&colors, CLOCK).unwrap().len(), 240);
}

#[test]
fn black_is_all_zero_pairs() {
    let timing = BitTiming::resolve(CLOCK).unwrap();
    let train = encode(&[Color::new(0, 0, 0)], CLOCK).unwrap();
    for pair in train.as_slice().chunks(2) {
        assert_eq!(pair[0], PulseSymbol { level: Level::High, ticks: 28 });
        assert_eq!(pair[1], PulseSymbol { level: Level::Low, ticks: 64 });
        assert_eq!((pair[0], pair[1]), timing.pair(false));
    }
}

#[test]
fn white_is_all_one_pairs() {
    let train = encode(&[Color::new(255, 255, 255)], CLOCK).unwrap();
    for pair in train.as_slice().chunks(2) {
        assert_eq!(pair[0], PulseSymbol { level: Level::High, ticks: 56 });
        assert_eq!(pair[1], PulseSymbol { level: Level::Low, ticks: 48 });
    }
}

#[test]
fn pulses_alternate_high_and_low() {
    let train = encode(&[Color::new(0xa5, 0x5a, 0x3c), Color::new(1, 2, 3)], CLOCK).unwrap();
    for (index, symbol) in train.as_slice().iter().enumerate() {
        let level = if index % 2 == 0 { Level::High } else { Level::Low };
        assert_eq!(symbol.level, level);
        assert!(symbol.ticks > 0);
    }
}

#[test]
fn single_green_bit_goes_out_in_the_first_eight_pairs() {
    let timing = BitTiming::resolve(CLOCK).unwrap();
    for bit in 0..8 {
        let train = encode(&[Color::new(0, 1 << bit, 0)], CLOCK).unwrap();
        let symbols = train.as_slice();
        for pair in 0..24 {
            let expected = timing.pair(pair == 7 - bit);
            assert_eq!((symbols[2 * pair], symbols[2 * pair + 1]), expected);
        }
    }
}

#[test]
fn red_follows_green_and_blue_follows_red() {
    let timing = BitTiming::resolve(CLOCK).unwrap();
    let red = encode(&[Color::new(0x80, 0, 0)], CLOCK).unwrap();
    let blue = encode(&[Color::new(0, 0, 0x01)], CLOCK).unwrap();
    for pair in 0..24 {
        let symbols = red.as_slice();
        assert_eq!((symbols[2 * pair], symbols[2 * pair + 1]), timing.pair(pair == 8));
        let symbols = blue.as_slice();
        assert_eq!((symbols[2 * pair], symbols[2 * pair + 1]), timing.pair(pair == 23));
    }
}

#[test]
fn packed_word_is_read_back_from_the_train() {
    let timing = BitTiming::resolve(CLOCK).unwrap();
    let train = encode(&[Color::new(1, 2, 4)], CLOCK).unwrap();
    assert_eq!(
        words_of(train.as_slice(), &timing),
        vec![0b0000_0010_0000_0001_0000_0100]
    );
    assert_eq!(decode(train.as_slice(), CLOCK), Some(vec![Color::new(1, 2, 4)]));
}

#[test]
fn decode_recovers_the_colors() {
    let colors = vec![
        Color::new(1, 2, 4),
        Color::new(0, 0, 0),
        Color::new(255, 255, 255),
        Color::new(0x12, 0x34, 0x56),
        Color::new(0x80, 0x01, 0xfe),
    ];
    for clock in [MIN_DISTINCT_FREQUENCY, 10_000_000, CLOCK, u32::MAX] {
        let train = encode(&colors, clock).unwrap();
        assert_eq!(decode(train.as_slice(), clock), Some(colors.clone()));
    }
    let train = encode(&[], CLOCK).unwrap();
    assert_eq!(decode(train.as_slice(), CLOCK), Some(vec![]));
}

#[test]
fn decode_recovers_every_green_value() {
    for green in 0..=255u8 {
        let colors = [Color::new(green.wrapping_mul(7), green, green.wrapping_add(3))];
        let train = encode(&colors, CLOCK).unwrap();
        assert_eq!(decode(train.as_slice(), CLOCK), Some(colors.to_vec()));
    }
}

#[test]
fn encode_restores_a_decoded_train() {
    let timing = BitTiming::resolve(CLOCK).unwrap();
    let mut symbols = Vec::new();
    for pair in 0..48 {
        let (high, low) = timing.pair(pair % 3 == 0);
        symbols.push(high);
        symbols.push(low);
    }
    let colors = decode(&symbols, CLOCK).unwrap();
    assert_eq!(colors.len(), 2);
    assert_eq!(colors[0], Color::new(0x49, 0x92, 0x24));
    assert_eq!(encode(&colors, CLOCK).unwrap().as_slice(), &symbols[..]);
}

#[test]
fn same_color_twice_gives_identical_trains() {
    let color = Color::new(17, 34, 68);
    let first = encode(&[color], CLOCK).unwrap();
    let second = encode(&[color], CLOCK).unwrap();
    assert_eq!(first, second);
    assert_eq!(first.as_slice(), second.as_slice());
}

#[test]
fn colors_follow_each_other_without_a_gap() {
    let a = Color::new(1, 2, 3);
    let b = Color::new(250, 128, 7);
    let both = encode(&[a, b], CLOCK).unwrap();
    let first = encode(&[a], CLOCK).unwrap();
    let second = encode(&[b], CLOCK).unwrap();
    let mut joined = first.as_slice().to_vec();
    joined.extend_from_slice(second.as_slice());
    assert_eq!(both.as_slice(), &joined[..]);
}

#[test]
fn encode_fails_where_the_clock_is_too_slow() {
    assert_eq!(encode(&[Color::new(1, 2, 3)], 1_000_000), Err(EncodingError {}));
    assert_eq!(encode(&[Color::new(1, 2, 3)], 0), Err(EncodingError {}));
    assert_eq!(encode(&[], MIN_TICK_FREQUENCY - 1), Err(EncodingError {}));
    assert!(encode(&[Color::new(1, 2, 3)], MIN_TICK_FREQUENCY).is_ok());
}

#[test]
fn decode_refuses_a_clock_that_cannot_tell_the_bits_apart() {
    let colors = [Color::new(1, 2, 4)];
    let train = encode(&colors, 1_500_000).unwrap();
    assert_eq!(train.len(), 48);
    assert_eq!(decode(train.as_slice(), 1_500_000), None);
    assert_eq!(decode(&[], 1_500_000), None);
    assert_eq!(decode(&[], 1_000_000), None);
}

#[test]
fn decode_refuses_a_train_of_broken_length() {
    let train = encode(&[Color::new(1, 2, 4)], CLOCK).unwrap();
    let symbols = train.as_slice();
    assert_eq!(decode(&symbols[..47], CLOCK), None);
    assert_eq!(decode(&symbols[..46], CLOCK), None);
    assert_eq!(decode(&symbols[..1], CLOCK), None);
}

#[test]
fn decode_refuses_a_pair_that_is_not_of_the_table() {
    let train = encode(&[Color::new(1, 2, 4)], CLOCK).unwrap();
    let good = train.as_slice().to_vec();
    assert!(decode(&good, CLOCK).is_some());

    let mut wrong_high = good.clone();
    wrong_high[10].ticks = 30;
    assert_eq!(decode(&wrong_high, CLOCK), None);

    let mut wrong_low = good.clone();
    wrong_low[47].ticks = 65;
    assert_eq!(decode(&wrong_low, CLOCK), None);

    let mut wrong_level = good.clone();
    wrong_level[0].level = Level::Low;
    assert_eq!(decode(&wrong_level, CLOCK), None);

    let mut mixed = good.clone();
    mixed[1] = mixed[1 + 2 * 6];
    assert_ne!(mixed[1], good[1]);
    assert_eq!(decode(&mixed, CLOCK), None);

    assert_eq!(decode(&good, 40_000_000), None);
}
