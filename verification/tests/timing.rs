use led_pulse::pulse::{EncodingError, Level, PulseSymbol};
use led_pulse::timing::{
    BitTiming, MIN_DISTINCT_FREQUENCY, MIN_TICK_FREQUENCY, T0H_NANOS, T0L_NANOS, T1H_NANOS,
    T1L_NANOS,
};

#[test]
fn timing_table_in_nanoseconds() {
    assert_eq!(T0H_NANOS, 350);
    assert_eq!(T0L_NANOS, 800);
    assert_eq!(T1H_NANOS, 700);
    assert_eq!(T1L_NANOS, 600);
}

#[test]
fn resolve_at_eighty_megahertz() {
    let timing = BitTiming::resolve(80_000_000).unwrap();
    assert_eq!(timing.zero_high, PulseSymbol { level: Level::High, ticks: 28 });
    assert_eq!(timing.zero_low, PulseSymbol { level: Level::Low, ticks: 64 });
    assert_eq!(timing.one_high, PulseSymbol { level: Level::High, ticks: 56 });
    assert_eq!(timing.one_low, PulseSymbol { level: Level::Low, ticks: 48 });
}

#[test]
fn resolve_at_the_lowest_frequency() {
    assert_eq!(BitTiming::resolve(MIN_TICK_FREQUENCY - 1), Err(EncodingError {}));
    assert_eq!(BitTiming::resolve(1_000_000), Err(EncodingError {}));
    assert_eq!(BitTiming::resolve(0), Err(EncodingError {}));
    let timing = BitTiming::resolve(MIN_TICK_FREQUENCY).unwrap();
    assert_eq!(timing.zero_high.ticks, 1);
    assert_eq!(timing.zero_low.ticks, 1);
    assert_eq!(timing.one_high.ticks, 1);
    assert_eq!(timing.one_low.ticks, 1);
}

#[test]
fn resolve_at_the_highest_frequency() {
    let timing = BitTiming::resolve(u32::MAX).unwrap();
    assert_eq!(timing.zero_high.ticks, 1503);
    assert_eq!(timing.zero_low.ticks, 3436);
    assert_eq!(timing.one_high.ticks, 3006);
    assert_eq!(timing.one_low.ticks, 2577);
}

#[test]
fn high_pulses_differ_from_the_distinct_frequency_on() {
    let below = BitTiming::resolve(MIN_DISTINCT_FREQUENCY - 1).unwrap();
    assert_eq!(below.zero_high.ticks, below.one_high.ticks);
    let at = BitTiming::resolve(MIN_DISTINCT_FREQUENCY).unwrap();
    assert_eq!(at.zero_high.ticks, 1);
    assert_eq!(at.one_high.ticks, 2);
}

#[test]
fn pair_gives_high_then_low() {
    let timing = BitTiming::resolve(80_000_000).unwrap();
    assert_eq!(timing.pair(false), (timing.zero_high, timing.zero_low));
    assert_eq!(timing.pair(true), (timing.one_high, timing.one_low));
}
