//! The color update service: what is decided for one request, from the
//! arrival of its body to its acknowledgment. The service performs no outside
//! work itself: each step names the one action that its caller is to carry
//! out, and the caller hands back what came of it as the next event.

use crate::color::Color;
use crate::encoder::{encode, pulse_sequence, PulseTrain};
use crate::pulse::PulseSymbol;
use crate::timing::BitTiming;
use vstd::prelude::*;

verus! {

/// Length in bytes of the body of an update request: red, green, blue.
pub const BODY_LEN: usize = 3;

/// Why the transmit channel did not do what was asked of it.
#[derive(Clone, Copy, Debug, PartialEq, Eq, Structural)]
pub enum TransmitError {
    /// The signal-generation hardware is unavailable or faulted.
    HardwareFault,
}

/// Why an update request was not carried out.
#[derive(Clone, Copy, Debug, PartialEq, Eq, Structural)]
pub enum RequestError {
    /// The body is not exactly three bytes long.
    MalformedBody,
    /// The pulse clock cannot represent the protocol's pulse durations.
    EncodingFailed,
    /// The transmit channel failed.
    TransmitFailed,
}

/// How the transmit channel was set up: fixed when the channel is made.
#[derive(Clone, Copy, Debug, PartialEq, Eq, Structural)]
pub struct TransmitConfiguration {
    /// Divisor applied to the hardware's source clock.
    pub clock_divider: u8,
    /// Ticks per second of the resulting pulse clock.
    pub tick_frequency: u32,
}

/// Where one request stands.
#[derive(Clone, Copy, Debug, PartialEq, Eq, Structural)]
pub enum RequestState {
    /// The request has arrived; its body has not been looked at.
    Received,
    /// The body gave this color; the request waits for the transmit channel.
    Validated(Color),
    /// The request owns the transmit channel and waits to learn its clock.
    Encoding(Color),
    /// The train of this color has been handed out for emission.
    Transmitting(Color),
    /// The color was transmitted in full.
    Acknowledged(Color),
    /// The request came to nothing, for this reason.
    Rejected(RequestError),
}

/// What the caller reports to the service.
#[derive(Debug, PartialEq, Eq)]
pub enum Event {
    /// The raw body of the request.
    Body(Vec<u8>),
    /// Exclusive access to the transmit channel was granted.
    Acquired,
    /// What asking the channel for its configuration gave.
    Configuration(Result<TransmitConfiguration, TransmitError>),
    /// What emitting the train gave, once the whole train was driven out.
    Emitted(Result<(), TransmitError>),
}

/// What the service asks its caller to do next.
#[derive(Debug, PartialEq, Eq)]
pub enum Action {
    /// Wait for exclusive access to the transmit channel and take it.
    Acquire,
    /// Ask the owned channel for its configuration.
    ReadConfiguration,
    /// Drive this train out on the owned channel, returning when it is out.
    Emit(PulseTrain),
    /// Give up the channel if `release` says so, then answer the request.
    Respond { release: bool, outcome: Result<Color, RequestError> },
    /// Nothing: the event does not belong to the state, which stays as it is.
    Ignore,
}

/// An event as a plain value.
pub enum EventView {
    Body(Seq<u8>),
    Acquired,
    Configuration(Result<TransmitConfiguration, TransmitError>),
    Emitted(Result<(), TransmitError>),
}

/// An action as a plain value.
pub enum ActionView {
    Acquire,
    ReadConfiguration,
    Emit(Seq<PulseSymbol>),
    Respond { release: bool, outcome: Result<Color, RequestError> },
    Ignore,
}

impl View for Event {
    type V = EventView;

    open spec fn view(&self) -> EventView {
        match self {
            Event::Body(body) => EventView::Body(body@),
            Event::Acquired => EventView::Acquired,
            Event::Configuration(outcome) => EventView::Configuration(*outcome),
            Event::Emitted(outcome) => EventView::Emitted(*outcome),
        }
    }
}

impl View for Action {
    type V = ActionView;

    open spec fn view(&self) -> ActionView {
        match self {
            Action::Acquire => ActionView::Acquire,
            Action::ReadConfiguration => ActionView::ReadConfiguration,
            Action::Emit(train) => ActionView::Emit(train@),
            Action::Respond { release, outcome } => ActionView::Respond {
                release: *release,
                outcome: *outcome,
            },
            Action::Ignore => ActionView::Ignore,
        }
    }
}

/// The color that a body asks for: its three bytes are red, green and blue,
/// in this order. A body of any other length asks for none.
pub open spec fn requested_color(body: Seq<u8>) -> Option<Color> {
    if body.len() == 3 {
        Some(Color { r: body[0], g: body[1], b: body[2] })
    } else {
        None
    }
}

/// What the service does with a body: it goes on to wait for the channel, or
/// it rejects the request without touching the channel.
pub open spec fn on_body(body: Seq<u8>) -> (RequestState, ActionView) {
    match requested_color(body) {
        Some(color) => (RequestState::Validated(color), ActionView::Acquire),
        None => (
            RequestState::Rejected(RequestError::MalformedBody),
            ActionView::Respond {
                release: false,
                outcome: Err(RequestError::MalformedBody),
            },
        ),
    }
}

/// What the service does once it knows the channel's configuration: it hands
/// out the train of the one color, or it fails and gives up the channel.
pub open spec fn on_configuration(
    color: Color,
    configuration: Result<TransmitConfiguration, TransmitError>,
) -> (RequestState, ActionView) {
    match configuration {
        Ok(configuration) => if BitTiming::resolvable(configuration.tick_frequency as nat) {
            (
                RequestState::Transmitting(color),
                ActionView::Emit(
                    pulse_sequence(
                        seq![color],
                        BitTiming::at(configuration.tick_frequency as nat),
                    ),
                ),
            )
        } else {
            (
                RequestState::Rejected(RequestError::EncodingFailed),
                ActionView::Respond {
                    release: true,
                    outcome: Err(RequestError::EncodingFailed),
                },
            )
        },
        Err(_) => (
            RequestState::Rejected(RequestError::TransmitFailed),
            ActionView::Respond { release: true, outcome: Err(RequestError::TransmitFailed) },
        ),
    }
}

/// What the service does once the emission is over: it acknowledges the
/// color, or it fails; either way it gives up the channel.
pub open spec fn on_emitted(color: Color, outcome: Result<(), TransmitError>) -> (
    RequestState,
    ActionView,
) {
    match outcome {
        Ok(_) => (
            RequestState::Acknowledged(color),
            ActionView::Respond { release: true, outcome: Ok(color) },
        ),
        Err(_) => (
            RequestState::Rejected(RequestError::TransmitFailed),
            ActionView::Respond { release: true, outcome: Err(RequestError::TransmitFailed) },
        ),
    }
}

/// The state that follows `state` on `event`, and the action asked for.
pub open spec fn transition(state: RequestState, event: EventView) -> (
    RequestState,
    ActionView,
) {
    match (state, event) {
        (RequestState::Received, EventView::Body(body)) => on_body(body),
        (RequestState::Validated(color), EventView::Acquired) => (
            RequestState::Encoding(color),
            ActionView::ReadConfiguration,
        ),
        (RequestState::Encoding(color), EventView::Configuration(configuration)) => {
            on_configuration(color, configuration)
        },
        (RequestState::Transmitting(color), EventView::Emitted(outcome)) => on_emitted(
            color,
            outcome,
        ),
        _ => (state, ActionView::Ignore),
    }
}

/// Checks the body of an update request and reads its color.
pub fn validate(body: &[u8]) -> (result: Result<Color, RequestError>)
    ensures
        match result {
            Ok(color) => requested_color(body@) == Some(color),
            Err(error) => requested_color(body@).is_none() && error
                == RequestError::MalformedBody,
        },
{
    if body.len() == BODY_LEN {
        Ok(Color { r: body[0], g: body[1], b: body[2] })
    } else {
        Err(RequestError::MalformedBody)
    }
}

impl RequestState {
    /// The state of a request that has just arrived.
    pub fn new() -> (state: RequestState)
        ensures
            state == RequestState::Received,
    {
        RequestState::Received
    }

    /// Whether the request owns the transmit channel in this state.
    pub open spec fn holds_channel(self) -> bool {
        self is Encoding || self is Transmitting
    }

    /// Whether the request is over in this state.
    pub open spec fn is_final(self) -> bool {
        self is Acknowledged || self is Rejected
    }

    /// Takes one event and decides how the request goes on.
    pub fn step(self, event: Event) -> (next: (RequestState, Action))
        ensures
            (next.0, next.1@) == transition(self, event@),
    {
        match self {
            RequestState::Received => match event {
                Event::Body(body) => match validate(body.as_slice()) {
                    Ok(color) => (RequestState::Validated(color), Action::Acquire),
                    Err(error) => (
                        RequestState::Rejected(error),
                        Action::Respond { release: false, outcome: Err(error) },
                    ),
                },
                _ => (self, Action::Ignore),
            },
            RequestState::Validated(color) => match event {
                Event::Acquired => (RequestState::Encoding(color), Action::ReadConfiguration),
                _ => (self, Action::Ignore),
            },
            RequestState::Encoding(color) => match event {
                Event::Configuration(Ok(configuration)) => {
                    let colors: Vec<Color> = vec![color];
                    assert(colors@ =~= seq![color]);
                    match encode(colors.as_slice(), configuration.tick_frequency) {
                        Ok(train) => (RequestState::Transmitting(color), Action::Emit(train)),
                        Err(_) => (
                            RequestState::Rejected(RequestError::EncodingFailed),
                            Action::Respond {
                                release: true,
                                outcome: Err(RequestError::EncodingFailed),
                            },
                        ),
                    }
                },
                Event::Configuration(Err(_)) => (
                    RequestState::Rejected(RequestError::TransmitFailed),
                    Action::Respond {
                        release: true,
                        outcome: Err(RequestError::TransmitFailed),
                    },
                ),
                _ => (self, Action::Ignore),
            },
            RequestState::Transmitting(color) => match event {
                Event::Emitted(Ok(_)) => (
                    RequestState::Acknowledged(color),
                    Action::Respond { release: true, outcome: Ok(color) },
                ),
                Event::Emitted(Err(_)) => (
                    RequestState::Rejected(RequestError::TransmitFailed),
                    Action::Respond {
                        release: true,
                        outcome: Err(RequestError::TransmitFailed),
                    },
                ),
                _ => (self, Action::Ignore),
            },
            _ => (self, Action::Ignore),
        }
    }
}

} // verus!
