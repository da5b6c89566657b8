//! Laws of the request state machine: what holds of every course that one
//! request can take, whatever events arrive and in whatever order.

use crate::color::Color;
use crate::encoder::pulse_sequence;
use crate::service::{
    requested_color, transition, ActionView, EventView, RequestError, RequestState,
};
use crate::timing::BitTiming;
use vstd::prelude::*;

verus! {

/// The state that a request reaches from `state` over `events`, and the
/// actions asked for on the way, one for each event.
pub open spec fn run(state: RequestState, events: Seq<EventView>) -> (
    RequestState,
    Seq<ActionView>,
)
    decreases events.len(),
{
    if events.len() == 0 {
        (state, Seq::empty())
    } else {
        let before = run(state, events.drop_last());
        let last = transition(before.0, events.last());
        (last.0, before.1.push(last.1))
    }
}

/// Whether carrying out `action` touches the transmit channel.
pub open spec fn touches_channel(action: ActionView) -> bool {
    action is Acquire || action is ReadConfiguration || action is Emit
}

/// How many of `actions` ask for a train to be emitted.
pub open spec fn emissions(actions: Seq<ActionView>) -> nat
    decreases actions.len(),
{
    if actions.len() == 0 {
        0
    } else {
        emissions(actions.drop_last()) + if actions.last() is Emit {
            1nat
        } else {
            0nat
        }
    }
}

/// The color that a request carries in `state`, where it carries one.
pub open spec fn carried_color(state: RequestState) -> Option<Color> {
    match state {
        RequestState::Validated(color) => Some(color),
        RequestState::Encoding(color) => Some(color),
        RequestState::Transmitting(color) => Some(color),
        RequestState::Acknowledged(color) => Some(color),
        _ => None,
    }
}

/// The color that `action` acknowledges, where it answers with one.
pub open spec fn answered_color(action: ActionView) -> Option<Color> {
    match action {
        ActionView::Respond { outcome: Ok(color), .. } => Some(color),
        _ => None,
    }
}

/// Over a single event a request takes the one step that the event asks for.
pub proof fn lemma_run_of_one(state: RequestState, event: EventView)
    ensures
        run(state, seq![event]) == (
            transition(state, event).0,
            seq![transition(state, event).1],
        ),
{
    let events = seq![event];
    assert(events.drop_last() =~= Seq::<EventView>::empty());
    assert(run(state, events.drop_last()) == (state, Seq::<ActionView>::empty()));
    assert(run(state, events).1 =~= seq![transition(state, event).1]);
}

/// A request that is over stays as it is: no event moves it, and none makes
/// it ask for anything.
pub proof fn lemma_final_states_stay(state: RequestState, event: EventView)
    requires
        state.is_final(),
    ensures
        transition(state, event) == (state, ActionView::Ignore),
{
}

/// The channel discipline, step by step. A request comes to own the channel
/// only when access is granted to it while it waits; it asks for an emission
/// only while it owns the channel; it answers exactly when it comes to its
/// end, and gives up the channel then if and only if it owned it: on every
/// way out, the failures too.
pub proof fn lemma_channel_discipline(state: RequestState, event: EventView)
    ensures
        ({
            let next = transition(state, event);
            &&& next.0.holds_channel() && !state.holds_channel() ==> state is Validated
                && event is Acquired
            &&& next.1 is Acquire ==> state is Received && next.0 is Validated
            &&& next.1 is ReadConfiguration ==> state is Validated && next.0 is Encoding
            &&& next.1 is Emit ==> state is Encoding && next.0 is Transmitting
            &&& next.1 is Respond <==> next.0.is_final() && !state.is_final()
            &&& next.1 matches ActionView::Respond { release, .. } ==> release
                == state.holds_channel()
            &&& next.1 is Ignore <==> next.0 == state
            &&& next.0.is_final() ==> !next.0.holds_channel()
        }),
{
}

/// An emission is asked for with the whole train of the one color of the
/// request, 48 pulses, at the tick frequency that the channel reported.
pub proof fn lemma_emission_is_whole(state: RequestState, event: EventView)
    requires
        transition(state, event).1 is Emit,
    ensures
        state is Encoding,
        event matches EventView::Configuration(Ok(configuration)) && BitTiming::resolvable(
            configuration.tick_frequency as nat,
        ) && transition(state, event).1 == ActionView::Emit(
            pulse_sequence(
                seq![carried_color(state).unwrap()],
                BitTiming::at(configuration.tick_frequency as nat),
            ),
        ),
        transition(state, event).1->Emit_0.len() == 48,
        transition(state, event).0 == RequestState::Transmitting(carried_color(state).unwrap()),
{
}

/// The answer to a request is the color that it carried, unchanged, or the
/// reason of its failure; and a step changes no color on the way.
pub proof fn lemma_color_is_kept(state: RequestState, event: EventView)
    ensures
        ({
            let next = transition(state, event);
            &&& carried_color(state).is_some() && carried_color(next.0).is_some()
                ==> carried_color(next.0) == carried_color(state)
            &&& next.1 matches ActionView::Respond { outcome: Ok(color), .. } ==> carried_color(
                state,
            ) == Some(color) && next.0 == RequestState::Acknowledged(color)
            &&& next.1 matches ActionView::Respond { outcome: Err(error), .. } ==> next.0
                == RequestState::Rejected(error)
            &&& state is Received && carried_color(next.0).is_some() ==> (event
                matches EventView::Body(body) && carried_color(next.0) == requested_color(body))
        }),
{
}

/// Over any events, a request asks for one action per event, and the
/// emissions among them are counted by where it stands: none before it
/// transmits, one from then on, and never more than one.
pub proof fn lemma_at_most_one_emission(events: Seq<EventView>)
    ensures
        run(RequestState::Received, events).1.len() == events.len(),
        emissions(run(RequestState::Received, events).1) <= 1,
        ({
            let end = run(RequestState::Received, events).0;
            let count = emissions(run(RequestState::Received, events).1);
            &&& end is Received || end is Validated || end is Encoding ==> count == 0
            &&& end is Transmitting || end is Acknowledged ==> count == 1
            &&& end == RequestState::Rejected(RequestError::MalformedBody) || end
                == RequestState::Rejected(RequestError::EncodingFailed) ==> count == 0
        }),
    decreases events.len(),
{
    if events.len() > 0 {
        lemma_at_most_one_emission(events.drop_last());
        let before = run(RequestState::Received, events.drop_last());
        let last = transition(before.0, events.last());
        assert(run(RequestState::Received, events).1.drop_last() =~= before.1);
    }
}

/// A body that is not exactly three bytes long is rejected as malformed at
/// once, without giving up a channel that was never taken, and whatever
/// follows, the request asks for nothing more: no action touches the
/// channel, and nothing is emitted.
pub proof fn lemma_malformed_body_is_rejected(body: Seq<u8>, later: Seq<EventView>)
    requires
        body.len() != 3,
    ensures
        ({
            let course = run(RequestState::Received, seq![EventView::Body(body)] + later);
            &&& course.0 == RequestState::Rejected(RequestError::MalformedBody)
            &&& course.1.len() == 1 + later.len()
            &&& course.1[0] == ActionView::Respond {
                release: false,
                outcome: Err(RequestError::MalformedBody),
            }
            &&& forall|index: int| 1 <= index < course.1.len() ==> course.1[index] is Ignore
            &&& forall|index: int| 0 <= index < course.1.len() ==> !touches_channel(course.1[index])
            &&& emissions(course.1) == 0
        }),
    decreases later.len(),
{
    let first = seq![EventView::Body(body)];
    let events = first + later;
    let course = run(RequestState::Received, events);
    if later.len() == 0 {
        lemma_run_of_one(RequestState::Received, EventView::Body(body));
        assert(events =~= first);
        assert(course.1.drop_last() =~= Seq::<ActionView>::empty());
        assert(emissions(course.1.drop_last()) == 0);
    } else {
        lemma_malformed_body_is_rejected(body, later.drop_last());
        assert(events.drop_last() =~= first + later.drop_last());
        let before = run(RequestState::Received, events.drop_last());
        assert(course.1 == before.1.push(ActionView::Ignore));
        assert(course.1.drop_last() =~= before.1);
        assert forall|index: int| 1 <= index < course.1.len() implies course.1[index]
            is Ignore by {
            if index < before.1.len() {
                assert(course.1[index] == before.1[index]);
            }
        }
    }
}

/// A body of exactly three bytes is accepted: the request goes on to wait
/// for the channel with the color that the body names, red first, and
/// whatever follows, any color that it carries or answers with is that one.
pub proof fn lemma_accepted_color_is_echoed(body: Seq<u8>, later: Seq<EventView>)
    requires
        body.len() == 3,
    ensures
        transition(RequestState::Received, EventView::Body(body)) == (
            RequestState::Validated(Color { r: body[0], g: body[1], b: body[2] }),
            ActionView::Acquire,
        ),
        ({
            let course = run(RequestState::Received, seq![EventView::Body(body)] + later);
            let color = Color { r: body[0], g: body[1], b: body[2] };
            &&& course.0 is Received == false
            &&& carried_color(course.0).is_some() ==> carried_color(course.0) == Some(color)
            &&& forall|index: int|
                0 <= index < course.1.len() && answered_color(course.1[index]).is_some()
                    ==> answered_color(#[trigger] course.1[index]) == Some(color)
        }),
    decreases later.len(),
{
    let first = seq![EventView::Body(body)];
    let events = first + later;
    if later.len() == 0 {
        lemma_run_of_one(RequestState::Received, EventView::Body(body));
        assert(events =~= first);
    } else {
        lemma_accepted_color_is_echoed(body, later.drop_last());
        assert(events.drop_last() =~= first + later.drop_last());
        let before = run(RequestState::Received, events.drop_last());
        lemma_color_is_kept(before.0, events.last());
    }
}

} // verus!
