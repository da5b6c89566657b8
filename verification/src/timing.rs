//! The protocol's bit timing, resolved into ticks of the pulse clock.

use crate::pulse::{nearest_ticks, ns, representable, EncodingError, Level, PulseSymbol};
use vstd::prelude::*;

verus! {

/// Logic 0: nanoseconds the line is held high.
pub const T0H_NANOS: u64 = 350;

/// Logic 0: nanoseconds the line is held low.
pub const T0L_NANOS: u64 = 800;

/// Logic 1: nanoseconds the line is held high.
pub const T1H_NANOS: u64 = 700;

/// Logic 1: nanoseconds the line is held low.
pub const T1L_NANOS: u64 = 600;

/// Lowest tick frequency, in hertz, at which every duration of the timing
/// table lasts at least one tick.
pub const MIN_TICK_FREQUENCY: u32 = 1_428_572;

/// Lowest tick frequency, in hertz, from which on a logic 1 is held high for
/// more ticks than a logic 0.
pub const MIN_DISTINCT_FREQUENCY: u32 = 2_142_858;

/// The four pulses of the timing table at one tick frequency: a bit goes out
/// as its high pulse followed by its low pulse.
#[derive(Clone, Copy, Debug, PartialEq, Eq, Structural)]
pub struct BitTiming {
    pub zero_high: PulseSymbol,
    pub zero_low: PulseSymbol,
    pub one_high: PulseSymbol,
    pub one_low: PulseSymbol,
}

/// The pulse that holds `level` for `nanos` nanoseconds at `tick_frequency`.
pub open spec fn pulse_for(tick_frequency: nat, level: Level, nanos: nat) -> PulseSymbol {
    PulseSymbol { level, ticks: nearest_ticks(tick_frequency, nanos) as u16 }
}

impl BitTiming {
    /// Whether all four durations of the table can be carried at
    /// `tick_frequency`.
    pub open spec fn resolvable(tick_frequency: nat) -> bool {
        &&& representable(tick_frequency, T0H_NANOS as nat)
        &&& representable(tick_frequency, T0L_NANOS as nat)
        &&& representable(tick_frequency, T1H_NANOS as nat)
        &&& representable(tick_frequency, T1L_NANOS as nat)
    }

    /// The timing table in ticks of a clock of `tick_frequency` hertz.
    pub open spec fn at(tick_frequency: nat) -> BitTiming {
        BitTiming {
            zero_high: pulse_for(tick_frequency, Level::High, T0H_NANOS as nat),
            zero_low: pulse_for(tick_frequency, Level::Low, T0L_NANOS as nat),
            one_high: pulse_for(tick_frequency, Level::High, T1H_NANOS as nat),
            one_low: pulse_for(tick_frequency, Level::Low, T1L_NANOS as nat),
        }
    }

    /// Every pulse of the table is a valid symbol at the level that its place
    /// in the table asks for.
    pub open spec fn wf(self) -> bool {
        &&& self.zero_high.wf() && self.zero_high.level == Level::High
        &&& self.zero_low.wf() && self.zero_low.level == Level::Low
        &&& self.one_high.wf() && self.one_high.level == Level::High
        &&& self.one_low.wf() && self.one_low.level == Level::Low
    }

    /// Whether the high pulse alone tells a logic 1 from a logic 0.
    pub open spec fn distinguishes(self) -> bool {
        self.zero_high.ticks != self.one_high.ticks
    }

    /// The pulse that renders one half of `bit`: its high pulse, or its low
    /// pulse.
    pub open spec fn pulse(self, bit: bool, high: bool) -> PulseSymbol {
        if bit {
            if high {
                self.one_high
            } else {
                self.one_low
            }
        } else {
            if high {
                self.zero_high
            } else {
                self.zero_low
            }
        }
    }

    /// Resolves the timing table at `tick_frequency` hertz.
    pub fn resolve(tick_frequency: u32) -> (result: Result<BitTiming, EncodingError>)
        ensures
            match result {
                Ok(timing) => BitTiming::resolvable(tick_frequency as nat) && timing
                    == BitTiming::at(tick_frequency as nat) && timing.wf(),
                Err(_) => !BitTiming::resolvable(tick_frequency as nat),
            },
    {
        let zero_high = match PulseSymbol::new_with_duration(
            tick_frequency,
            Level::High,
            &ns(T0H_NANOS),
        ) {
            Ok(symbol) => symbol,
            Err(error) => {
                return Err(error);
            },
        };
        let zero_low = match PulseSymbol::new_with_duration(
            tick_frequency,
            Level::Low,
            &ns(T0L_NANOS),
        ) {
            Ok(symbol) => symbol,
            Err(error) => {
                return Err(error);
            },
        };
        let one_high = match PulseSymbol::new_with_duration(
            tick_frequency,
            Level::High,
            &ns(T1H_NANOS),
        ) {
            Ok(symbol) => symbol,
            Err(error) => {
                return Err(error);
            },
        };
        let one_low = match PulseSymbol::new_with_duration(
            tick_frequency,
            Level::Low,
            &ns(T1L_NANOS),
        ) {
            Ok(symbol) => symbol,
            Err(error) => {
                return Err(error);
            },
        };
        Ok(BitTiming { zero_high, zero_low, one_high, one_low })
    }

    /// The high pulse and the low pulse that render `bit`.
    pub fn pair(&self, bit: bool) -> (pair: (PulseSymbol, PulseSymbol))
        ensures
            pair.0 == self.pulse(bit, true),
            pair.1 == self.pulse(bit, false),
    {
        if bit {
            (self.one_high, self.one_low)
        } else {
            (self.zero_high, self.zero_low)
        }
    }
}

/// The timing table resolves at exactly the tick frequencies from
/// `MIN_TICK_FREQUENCY` on, and what it resolves to is well formed.
pub proof fn lemma_resolvable_frequencies(tick_frequency: u32)
    ensures
        BitTiming::resolvable(tick_frequency as nat) <==> tick_frequency >= MIN_TICK_FREQUENCY,
        BitTiming::resolvable(tick_frequency as nat) ==> BitTiming::at(tick_frequency as nat).wf(),
{
}

/// A logic 1 is never held high for fewer ticks than a logic 0. Where the
/// table resolves, it is held for more from `MIN_DISTINCT_FREQUENCY` on, and
/// for as many below that.
pub proof fn lemma_high_pulses_ordered(tick_frequency: u32)
    ensures
        BitTiming::at(tick_frequency as nat).zero_high.ticks <= BitTiming::at(
            tick_frequency as nat,
        ).one_high.ticks,
        BitTiming::resolvable(tick_frequency as nat) ==> (BitTiming::at(
            tick_frequency as nat,
        ).distinguishes() <==> tick_frequency >= MIN_DISTINCT_FREQUENCY),
{
}

} // verus!
