//! Driving a single-wire addressable RGB LED: colors are packed into 24-bit
//! words, rendered as a train of timed high/low pulses, and handed to the
//! one transmit channel under a per-request state machine.

pub mod color;
pub mod discipline;
pub mod encoder;
pub mod pulse;
pub mod race;
pub mod service;
pub mod timing;
pub mod wire;
