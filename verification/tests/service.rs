use led_pulse::color::Color;
use led_pulse::encoder::{decode, encode};
use led_pulse::pulse::PulseSymbol;
use led_pulse::service::{
    validate, Action, Event, RequestError, RequestState, TransmitConfiguration, TransmitError,
    BODY_LEN,
};

const CLOCK: u32 = 80_000_000;

fn configuration(tick_frequency: u32) -> TransmitConfiguration {
    TransmitConfiguration { clock_divider: 1, tick_frequency }
}

/// A stand-in for the one transmit channel: it records what is driven out
/// and who owns it.
struct Channel {
    owned: bool,
    wire: Vec<PulseSymbol>,
    emissions: usize,
    tick_frequency: u32,
    faulty: bool,
}

impl Channel {
    fn new(tick_frequency: u32) -> Channel {
        Channel { owned: false, wire: Vec::new(), emissions: 0, tick_frequency, faulty: false }
    }
}

/// Carries one request through the service against the stand-in channel.
fn handle(body: &[u8], channel: &mut Channel) -> Result<Color, RequestError> {
    let mut state = RequestState::new();
    let mut event = Event::Body(body.to_vec());
    loop {
        let (next, action) = state.step(event);
        state = next;
        event = match action {
            Action::Acquire => {
                assert!(!channel.owned);
                channel.owned = true;
                Event::Acquired
            }
            Action::ReadConfiguration => {
                assert!(channel.owned);
                Event::Configuration(Ok(configuration(channel.tick_frequency)))
            }
            Action::Emit(train) => {
                assert!(channel.owned);
                channel.emissions += 1;
                if channel.faulty {
                    Event::Emitted(Err(TransmitError::HardwareFault))
                } else {
                    channel.wire.extend_from_slice(train.as_slice());
                    Event::Emitted(Ok(()))
                }
            }
            Action::Respond { release, outcome } => {
                assert_eq!(release, channel.owned);
                channel.owned = false;
                return outcome;
            }
            Action::Ignore => panic!("the service ignored an event that it had asked for"),
        };
    }
}

#[test]
fn validate_takes_exactly_three_bytes() {
    assert_eq!(BODY_LEN, 3);
    assert_eq!(validate(&[1, 2, 3]), Ok(Color { r: 1, g: 2, b: 3 }));
    assert_eq!(validate(&[255, 0, 7]), Ok(Color::new(255, 0, 7)));
    assert_eq!(validate(&[]), Err(RequestError::MalformedBody));
    assert_eq!(validate(&[1]), Err(RequestError::MalformedBody));
    assert_eq!(validate(&[1, 2]), Err(RequestError::MalformedBody));
    assert_eq!(validate(&[1, 2, 3, 4]), Err(RequestError::MalformedBody));
    assert_eq!(validate(&[0; 100]), Err(RequestError::MalformedBody));
}

#[test]
fn accepted_request_step_by_step() {
    let color = Color::new(1, 2, 4);
    let state = RequestState::new();
    assert_eq!(state, RequestState::Received);

    let (state, action) = state.step(Event::Body(vec![1, 2, 4]));
    assert_eq!(state, RequestState::Validated(color));
    assert_eq!(action, Action::Acquire);

    let (state, action) = state.step(Event::Acquired);
    assert_eq!(state, RequestState::Encoding(color));
    assert_eq!(action, Action::ReadConfiguration);

    let (state, action) = state.step(Event::Configuration(Ok(configuration(CLOCK))));
    assert_eq!(state, RequestState::Transmitting(color));
    match action {
        Action::Emit(train) => {
            assert_eq!(train.len(), 48);
            assert_eq!(train, encode(&[color], CLOCK).unwrap());
            assert_eq!(decode(train.as_slice(), CLOCK), Some(vec![color]));
        }
        other => panic!("expected an emission, got {:?}", other),
    }

    let (state, action) = state.step(Event::Emitted(Ok(())));
    assert_eq!(state, RequestState::Acknowledged(color));
    assert_eq!(action, Action::Respond { release: true, outcome: Ok(color) });
}

#[test]
fn malformed_body_never_touches_the_channel() {
    for body in [vec![], vec![1], vec![1, 2], vec![1, 2, 3, 4], vec![9; 64]] {
        let (state, action) = RequestState::new().step(Event::Body(body.clone()));
        assert_eq!(state, RequestState::Rejected(RequestError::MalformedBody));
        assert_eq!(
            action,
            Action::Respond { release: false, outcome: Err(RequestError::MalformedBody) }
        );
        for event in [
            Event::Acquired,
            Event::Configuration(Ok(configuration(CLOCK))),
            Event::Emitted(Ok(())),
            Event::Body(vec![1, 2, 3]),
        ] {
            let (after, action) = state.step(event);
            assert_eq!(after, state);
            assert_eq!(action, Action::Ignore);
        }

        let mut channel = Channel::new(CLOCK);
        assert_eq!(handle(&body, &mut channel), Err(RequestError::MalformedBody));
        assert_eq!(channel.emissions, 0);
        assert!(channel.wire.is_empty());
        assert!(!channel.owned);
    }
}

#[test]
fn slow_clock_fails_the_encoding_and_gives_up_the_channel() {
    let state = RequestState::Encoding(Color::new(1, 2, 3));
    let (state, action) = state.step(Event::Configuration(Ok(configuration(1_000_000))));
    assert_eq!(state, RequestState::Rejected(RequestError::EncodingFailed));
    assert_eq!(
        action,
        Action::Respond { release: true, outcome: Err(RequestError::EncodingFailed) }
    );

    let mut channel = Channel::new(1_000_000);
    assert_eq!(handle(&[1, 2, 3], &mut channel), Err(RequestError::EncodingFailed));
    assert_eq!(channel.emissions, 0);
    assert!(!channel.owned);
}

#[test]
fn faulted_channel_fails_the_request_and_is_given_up() {
    let color = Color::new(1, 2, 3);
    let (state, action) = RequestState::Encoding(color)
        .step(Event::Configuration(Err(TransmitError::HardwareFault)));
    assert_eq!(state, RequestState::Rejected(RequestError::TransmitFailed));
    assert_eq!(
        action,
        Action::Respond { release: true, outcome: Err(RequestError::TransmitFailed) }
    );

    let (state, action) =
        RequestState::Transmitting(color).step(Event::Emitted(Err(TransmitError::HardwareFault)));
    assert_eq!(state, RequestState::Rejected(RequestError::TransmitFailed));
    assert_eq!(
        action,
        Action::Respond { release: true, outcome: Err(RequestError::TransmitFailed) }
    );

    let mut channel = Channel::new(CLOCK);
    channel.faulty = true;
    assert_eq!(handle(&[1, 2, 3], &mut channel), Err(RequestError::TransmitFailed));
    assert_eq!(channel.emissions, 1);
    assert!(!channel.owned);
}

#[test]
fn events_out_of_turn_are_ignored() {
    let color = Color::new(5, 6, 7);
    let states = [
        RequestState::Received,
        RequestState::Validated(color),
        RequestState::Encoding(color),
        RequestState::Transmitting(color),
        RequestState::Acknowledged(color),
        RequestState::Rejected(RequestError::TransmitFailed),
    ];
    for (place, state) in states.iter().enumerate() {
        let events = [
            Event::Body(vec![1, 2, 3]),
            Event::Acquired,
            Event::Configuration(Ok(configuration(CLOCK))),
            Event::Emitted(Ok(())),
        ];
        for (turn, event) in events.into_iter().enumerate() {
            if turn == place {
                continue;
            }
            let (after, action) = state.step(event);
            assert_eq!(after, *state);
            assert_eq!(action, Action::Ignore);
        }
    }
}

#[test]
fn each_accepted_request_is_transmitted_once_and_whole() {
    let mut channel = Channel::new(CLOCK);
    let bodies: [[u8; 3]; 4] = [[1, 2, 4], [0, 0, 0], [255, 255, 255], [10, 20, 30]];
    let mut colors = Vec::new();
    for body in bodies {
        let color = handle(&body, &mut channel).unwrap();
        assert_eq!(color, Color::new(body[0], body[1], body[2]));
        colors.push(color);
    }
    assert_eq!(channel.emissions, 4);
    assert_eq!(channel.wire.len(), 4 * 48);
    assert_eq!(decode(&channel.wire, CLOCK), Some(colors.clone()));
    assert_eq!(channel.wire, encode(&colors, CLOCK).unwrap().as_slice());
    let last = &channel.wire[3 * 48..];
    assert_eq!(decode(last, CLOCK), Some(vec![Color::new(10, 20, 30)]));
}

#[test]
fn rejected_requests_leave_the_wire_alone() {
    let mut channel = Channel::new(CLOCK);
    assert_eq!(handle(&[1, 2, 3], &mut channel), Ok(Color::new(1, 2, 3)));
    assert_eq!(handle(&[1, 2], &mut channel), Err(RequestError::MalformedBody));
    assert_eq!(handle(&[1, 2, 3, 4], &mut channel), Err(RequestError::MalformedBody));
    assert_eq!(handle(&[4, 5, 6], &mut channel), Ok(Color::new(4, 5, 6)));
    assert_eq!(channel.emissions, 2);
    assert_eq!(
        decode(&channel.wire, CLOCK),
        Some(vec![Color::new(1, 2, 3), Color::new(4, 5, 6)])
    );
}
