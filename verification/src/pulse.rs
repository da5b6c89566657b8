//! Pulse symbols and the conversion of physical durations into hardware ticks.

use core::time::Duration;
use vstd::prelude::*;

verus! {

/// Largest tick count one pulse can carry: the hardware holds it in 15 bits.
pub const MAX_TICKS: u16 = 32767;

/// Nanoseconds in one second.
pub const NANOS_PER_SECOND: u128 = 1_000_000_000;

/// The logic level of the signal line during one pulse.
#[derive(Clone, Copy, Debug, PartialEq, Eq, Structural)]
pub enum Level {
    Low,
    High,
}

/// One pulse: the line is held at `level` for `ticks` ticks of the pulse clock.
#[derive(Clone, Copy, Debug, PartialEq, Eq, Structural)]
pub struct PulseSymbol {
    pub level: Level,
    pub ticks: u16,
}

/// A pulse duration that the pulse clock cannot represent at its frequency.
#[derive(Clone, Copy, Debug, PartialEq, Eq, Structural)]
pub struct EncodingError {}

/// The whole nanoseconds that a `Duration` spans.
pub uninterp spec fn duration_nanos(duration: Duration) -> nat;

/// `Duration::from_nanos` of std: the duration made spans exactly `nanos`
/// nanoseconds.
pub assume_specification[ Duration::from_nanos ](nanos: u64) -> (duration: Duration)
    ensures
        duration_nanos(duration) == nanos,
;

/// `Duration::as_nanos` of std: the total number of nanoseconds that the
/// duration spans.
pub assume_specification[ Duration::as_nanos ](duration: &Duration) -> (nanos: u128)
    ensures
        nanos == duration_nanos(*duration),
;

/// The tick count nearest to `nanos` nanoseconds on a clock of
/// `tick_frequency` ticks per second; a half rounds up.
pub open spec fn nearest_ticks(tick_frequency: nat, nanos: nat) -> nat {
    (nanos * tick_frequency + 500_000_000) / 1_000_000_000
}

/// Whether a pulse of `nanos` nanoseconds can be carried at `tick_frequency`:
/// it lasts at least one tick and no more than `MAX_TICKS`.
pub open spec fn representable(tick_frequency: nat, nanos: nat) -> bool {
    0 < nearest_ticks(tick_frequency, nanos) <= MAX_TICKS
}

/// The duration of `nanos` nanoseconds.
pub fn ns(nanos: u64) -> (duration: Duration)
    ensures
        duration_nanos(duration) == nanos,
{
    Duration::from_nanos(nanos)
}

/// Converts a duration into ticks of a clock that runs at `tick_frequency`
/// hertz, rounding to the nearest tick.
pub fn duration_to_ticks(tick_frequency: u32, duration: &Duration) -> (result: Result<
    u16,
    EncodingError,
>)
    ensures
        match result {
            Ok(ticks) => representable(tick_frequency as nat, duration_nanos(*duration))
                && ticks == nearest_ticks(tick_frequency as nat, duration_nanos(*duration)),
            Err(_) => !representable(tick_frequency as nat, duration_nanos(*duration)),
        },
{
    let nanos: u128 = duration.as_nanos();
    let scaled: u128 = match nanos.checked_mul(tick_frequency as u128) {
        Some(product) => product,
        None => {
            return Err(EncodingError {});
        },
    };
    let biased: u128 = match scaled.checked_add(NANOS_PER_SECOND / 2) {
        Some(sum) => sum,
        None => {
            return Err(EncodingError {});
        },
    };
    let ticks: u128 = biased / NANOS_PER_SECOND;
    if ticks == 0 || ticks > MAX_TICKS as u128 {
        Err(EncodingError {})
    } else {
        Ok(ticks as u16)
    }
}

impl PulseSymbol {
    /// A symbol lasts at least one tick and fits the hardware's tick field.
    pub open spec fn wf(self) -> bool {
        0 < self.ticks <= MAX_TICKS
    }

    /// Makes the pulse that holds the line at `level` for `duration`, on a
    /// clock of `tick_frequency` hertz.
    pub fn new_with_duration(tick_frequency: u32, level: Level, duration: &Duration) -> (result:
        Result<PulseSymbol, EncodingError>)
        ensures
            match result {
                Ok(symbol) => representable(tick_frequency as nat, duration_nanos(*duration))
                    && symbol.level == level && symbol.ticks == nearest_ticks(
                    tick_frequency as nat,
                    duration_nanos(*duration),
                ) && symbol.wf(),
                Err(_) => !representable(tick_frequency as nat, duration_nanos(*duration)),
            },
    {
        match duration_to_ticks(tick_frequency, duration) {
            Ok(ticks) => Ok(PulseSymbol { level, ticks }),
            Err(error) => Err(error),
        }
    }
}

} // verus!
