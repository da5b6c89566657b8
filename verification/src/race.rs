//! Many requests and the one channel. Any number of requests may be under
//! way at once, each moved on by its own caller; what they share is the
//! transmit channel. This module describes such a race and proves what the
//! service's actions guarantee of it. Of the lock it assumes one thing:
//! access is granted only while nobody owns the channel.

use crate::color::Color;
use crate::encoder::pulse_sequence;
use crate::pulse::PulseSymbol;
use crate::service::{transition, ActionView, EventView, RequestError, RequestState};
use crate::timing::BitTiming;
use vstd::prelude::*;

verus! {

/// One request in the race.
pub struct Racer {
    /// Where the request stands.
    pub state: RequestState,
    /// The tick frequency that the channel reported to it.
    pub tick_frequency: nat,
    /// The train that it was asked to emit; empty until then.
    pub train: Seq<PulseSymbol>,
    /// The pulses of its train that are out on the wire.
    pub driven: Seq<PulseSymbol>,
}

/// The race: its requests, who owns the channel, the order in which access
/// was granted, and every pulse that was driven out on the wire.
pub struct Race {
    pub racers: Seq<Racer>,
    pub owner: Option<int>,
    pub grants: Seq<int>,
    pub wire: Seq<PulseSymbol>,
}

/// What can happen next in a race.
pub enum Move {
    /// The caller of request `who` reports `event` to it.
    Report { who: int, event: EventView },
    /// The hardware drives out the next pulse of the train of request `who`.
    Drive { who: int },
}

/// A race of `count` requests that have just arrived.
pub open spec fn start(count: nat) -> Race {
    Race {
        racers: Seq::new(
            count,
            |who: int|
                Racer {
                    state: RequestState::Received,
                    tick_frequency: 0,
                    train: Seq::empty(),
                    driven: Seq::empty(),
                },
        ),
        owner: None,
        grants: Seq::empty(),
        wire: Seq::empty(),
    }
}

/// Whether `event` is what a request in `state` waits for.
pub open spec fn awaited(state: RequestState, event: EventView) -> bool {
    match state {
        RequestState::Received => event is Body,
        RequestState::Validated(_) => event is Acquired,
        RequestState::Encoding(_) => event is Configuration,
        RequestState::Transmitting(_) => event is Emitted,
        _ => false,
    }
}

/// Whether `step` can happen in `race`. A caller reports only what its
/// request waits for; access is granted only while nobody owns the channel;
/// an emission is reported as done only when the whole train is out; and the
/// hardware drives the pulses of any request that is transmitting.
pub open spec fn enabled(race: Race, step: Move) -> bool {
    match step {
        Move::Report { who, event } => {
            &&& 0 <= who < race.racers.len()
            &&& awaited(race.racers[who].state, event)
            &&& event is Acquired ==> race.owner is None
            &&& event matches EventView::Emitted(Ok(_)) ==> race.racers[who].driven
                == race.racers[who].train
        },
        Move::Drive { who } => {
            &&& 0 <= who < race.racers.len()
            &&& race.racers[who].state is Transmitting
            &&& race.racers[who].driven.len() < race.racers[who].train.len()
        },
    }
}

/// The request `racer` after `event` was reported to it: the service decides
/// its next state, and a train asked for is taken down.
pub open spec fn reported(racer: Racer, event: EventView) -> Racer {
    let next = transition(racer.state, event);
    Racer {
        state: next.0,
        tick_frequency: match event {
            EventView::Configuration(Ok(configuration)) => configuration.tick_frequency as nat,
            _ => racer.tick_frequency,
        },
        train: match next.1 {
            ActionView::Emit(train) => train,
            _ => racer.train,
        },
        driven: racer.driven,
    }
}

/// The race after `step`, which is enabled in it. The channel changes hands
/// by the service's actions alone: it is taken when access is granted, and
/// given up when the answer says so.
pub open spec fn after(race: Race, step: Move) -> Race {
    match step {
        Move::Report { who, event } => {
            let action = transition(race.racers[who].state, event).1;
            Race {
                racers: race.racers.update(who, reported(race.racers[who], event)),
                owner: if event is Acquired {
                    Some(who)
                } else if action matches ActionView::Respond { release: true, .. } {
                    None
                } else {
                    race.owner
                },
                grants: if event is Acquired {
                    race.grants.push(who)
                } else {
                    race.grants
                },
                wire: race.wire,
            }
        },
        Move::Drive { who } => {
            let racer = race.racers[who];
            let pulse = racer.train[racer.driven.len() as int];
            Race {
                racers: race.racers.update(who, Racer { driven: racer.driven.push(pulse), ..racer }),
                owner: race.owner,
                grants: race.grants,
                wire: race.wire.push(pulse),
            }
        },
    }
}

/// The race of `count` requests after `steps`, taken in turn. A step that is
/// not enabled when its turn comes does not happen: whoever asked for the
/// channel while it was owned goes on waiting.
pub open spec fn play(count: nat, steps: Seq<Move>) -> Race
    decreases steps.len(),
{
    if steps.len() == 0 {
        start(count)
    } else {
        let before = play(count, steps.drop_last());
        if enabled(before, steps.last()) {
            after(before, steps.last())
        } else {
            before
        }
    }
}

/// What the requests named in `order` have driven out, one after the other
/// in this order, each in one piece.
pub open spec fn laid_out(racers: Seq<Racer>, order: Seq<int>) -> Seq<PulseSymbol>
    decreases order.len(),
{
    if order.len() == 0 {
        Seq::empty()
    } else {
        laid_out(racers, order.drop_last()) + racers[order.last()].driven
    }
}

/// Whether `train` is the whole train of the one color `color` at the tick
/// frequency `tick_frequency`, at which the timing table resolves.
pub open spec fn whole_train(train: Seq<PulseSymbol>, color: Color, tick_frequency: nat) -> bool {
    &&& BitTiming::resolvable(tick_frequency)
    &&& train == pulse_sequence(seq![color], BitTiming::at(tick_frequency))
    &&& train.len() == 48
}

/// What holds of each request in a race. What it has driven out is a
/// beginning of its train. Before it transmits, and where it failed before
/// it could, it has no train and has driven nothing. While it transmits its
/// train is the whole train of its color; once acknowledged, all of that
/// train is out.
pub open spec fn racer_orderly(racer: Racer) -> bool {
    &&& racer.driven.len() <= racer.train.len()
    &&& racer.driven == racer.train.take(racer.driven.len() as int)
    &&& racer.state is Received || racer.state is Validated || racer.state is Encoding
        ==> racer.train.len() == 0
    &&& racer.state == RequestState::Rejected(RequestError::MalformedBody) || racer.state
        == RequestState::Rejected(RequestError::EncodingFailed) ==> racer.train.len() == 0
    &&& racer.state matches RequestState::Transmitting(color) ==> whole_train(
        racer.train,
        color,
        racer.tick_frequency,
    )
    &&& racer.state matches RequestState::Acknowledged(color) ==> whole_train(
        racer.train,
        color,
        racer.tick_frequency,
    ) && racer.driven == racer.train
}

/// Whether access to the channel was granted to a request in `state` at some
/// time.
pub open spec fn was_granted(state: RequestState) -> bool {
    state is Encoding || state is Transmitting || state is Acknowledged
}

/// What holds of a race at every moment. A request is in a state that owns
/// the channel exactly if it is the owner, so no two own it at once; the
/// owner is the request that access was granted to last; access was granted
/// to no request twice, and to none that still waits; and the wire holds
/// what the requests have driven out, request after request in the order of
/// the grants, the pulses of no two of them mixed.
pub open spec fn orderly(race: Race) -> bool {
    &&& forall|who: int|
        0 <= who < race.racers.len() ==> ((#[trigger] race.racers[who]).state.holds_channel()
            <==> race.owner == Some(who))
    &&& race.owner matches Some(who) ==> 0 <= who < race.racers.len() && race.grants.len() > 0
        && race.grants.last() == who
    &&& race.grants.no_duplicates()
    &&& forall|turn: int|
        0 <= turn < race.grants.len() ==> 0 <= (#[trigger] race.grants[turn])
            < race.racers.len() && !(race.racers[race.grants[turn]].state is Received) && !(
        race.racers[race.grants[turn]].state is Validated)
    &&& forall|who: int|
        0 <= who < race.racers.len() ==> racer_orderly(#[trigger] race.racers[who])
    &&& forall|who: int|
        0 <= who < race.racers.len() && was_granted((#[trigger] race.racers[who]).state)
            ==> race.grants.contains(who)
    &&& race.wire == laid_out(race.racers, race.grants)
}

/// What is laid out depends only on what the requests named in the order
/// have driven out.
proof fn lemma_laid_out_elsewhere(before: Seq<Racer>, after: Seq<Racer>, order: Seq<int>)
    requires
        forall|turn: int|
            0 <= turn < order.len() ==> before[#[trigger] order[turn]].driven
                == after[order[turn]].driven,
    ensures
        laid_out(before, order) == laid_out(after, order),
    decreases order.len(),
{
    if order.len() > 0 {
        let earlier = order.drop_last();
        assert forall|turn: int| 0 <= turn < earlier.len() implies before[#[trigger] earlier[turn]].driven
            == after[earlier[turn]].driven by {
            assert(earlier[turn] == order[turn]);
        }
        lemma_laid_out_elsewhere(before, after, earlier);
        assert(order.last() == order[order.len() - 1]);
    }
}

/// A report keeps each request orderly.
proof fn lemma_report_keeps_racer(racer: Racer, event: EventView)
    requires
        racer_orderly(racer),
        awaited(racer.state, event),
        event matches EventView::Emitted(Ok(_)) ==> racer.driven == racer.train,
    ensures
        racer_orderly(reported(racer, event)),
        reported(racer, event).driven == racer.driven,
        racer.state is Received ==> !reported(racer, event).state.holds_channel()
            && !was_granted(reported(racer, event).state),
        racer.state is Validated ==> reported(racer, event).state is Encoding,
        racer.state.holds_channel() ==> was_granted(racer.state) && !(reported(
            racer,
            event,
        ).state is Received) && !(reported(racer, event).state is Validated),
        racer.state.holds_channel() && !reported(racer, event).state.holds_channel()
            <==> transition(racer.state, event).1 matches ActionView::Respond {
            release: true,
            ..
        },
{
    let next = reported(racer, event);
    assert(racer.driven =~= next.train.take(racer.driven.len() as int));
    if let RequestState::Transmitting(color) = next.state {
        if racer.state is Encoding {
            assert(seq![color].len() == 1);
            assert(next.train.len() == 48);
        }
    }
}

/// Each step that can happen in an orderly race leaves it orderly.
pub proof fn lemma_step_keeps_order(race: Race, step: Move)
    requires
        orderly(race),
        enabled(race, step),
    ensures
        orderly(after(race, step)),
        after(race, step).racers.len() == race.racers.len(),
{
    let next = after(race, step);
    match step {
        Move::Report { who, event } => {
            let racer = race.racers[who];
            lemma_report_keeps_racer(racer, event);
            assert(next.racers[who] == reported(racer, event));
            assert forall|other: int| 0 <= other < race.racers.len() && other != who implies (
            #[trigger] next.racers[other]) == race.racers[other] by {}
            if event is Acquired {
                assert(!race.grants.contains(who)) by {
                    if race.grants.contains(who) {
                        let turn = choose|turn: int|
                            0 <= turn < race.grants.len() && race.grants[turn] == who;
                        assert(race.grants[turn] == who);
                    }
                }
                assert(next.grants.drop_last() =~= race.grants);
                assert(next.grants.last() == who);
                lemma_laid_out_elsewhere(race.racers, next.racers, race.grants);
                assert(next.wire =~= laid_out(next.racers, next.grants));
                assert forall|turn: int| 0 <= turn < next.grants.len() implies 0 <= (
                #[trigger] next.grants[turn]) < next.racers.len() && !(
                next.racers[next.grants[turn]].state is Received) && !(
                next.racers[next.grants[turn]].state is Validated) by {
                    if turn < race.grants.len() {
                        assert(next.grants[turn] == race.grants[turn]);
                    }
                }
                assert forall|other: int|
                    0 <= other < next.racers.len() && was_granted(
                        (#[trigger] next.racers[other]).state,
                    ) implies next.grants.contains(other) by {
                    if other == who {
                        assert(next.grants[next.grants.len() - 1] == who);
                    } else {
                        assert(race.grants.contains(other));
                        let turn = choose|turn: int|
                            0 <= turn < race.grants.len() && race.grants[turn] == other;
                        assert(next.grants[turn] == other);
                    }
                }
            } else {
                lemma_laid_out_elsewhere(race.racers, next.racers, race.grants);
                assert forall|turn: int| 0 <= turn < next.grants.len() implies 0 <= (
                #[trigger] next.grants[turn]) < next.racers.len() && !(
                next.racers[next.grants[turn]].state is Received) && !(
                next.racers[next.grants[turn]].state is Validated) by {
                    assert(next.grants[turn] == race.grants[turn]);
                }
                assert forall|other: int|
                    0 <= other < next.racers.len() && was_granted(
                        (#[trigger] next.racers[other]).state,
                    ) implies next.grants.contains(other) by {
                    if other == who {
                        assert(was_granted(racer.state));
                    }
                }
            }
        },
        Move::Drive { who } => {
            let racer = race.racers[who];
            let pulse = racer.train[racer.driven.len() as int];
            let longer = racer.driven.push(pulse);
            assert(longer =~= racer.train.take(longer.len() as int));
            assert(race.owner == Some(who));
            let earlier = race.grants.drop_last();
            assert forall|turn: int| 0 <= turn < earlier.len() implies race.racers[
            #[trigger] earlier[turn]].driven == next.racers[earlier[turn]].driven by {
                assert(earlier[turn] == race.grants[turn]);
                assert(race.grants[turn] != race.grants[race.grants.len() - 1]);
            }
            lemma_laid_out_elsewhere(race.racers, next.racers, earlier);
            assert(next.wire =~= laid_out(next.racers, next.grants));
            assert forall|other: int| 0 <= other < next.racers.len() implies racer_orderly(
                #[trigger] next.racers[other],
            ) by {
                if other != who {
                    assert(next.racers[other] == race.racers[other]);
                }
            }
        },
    }
}

/// However the requests of a race are moved on, and in whatever order, the
/// race stays orderly: the channel has one owner at most, and the wire holds
/// the pulses of the requests in the order of the grants, each request's in
/// one piece.
pub proof fn lemma_races_are_orderly(count: nat, steps: Seq<Move>)
    ensures
        orderly(play(count, steps)),
        play(count, steps).racers.len() == count,
    decreases steps.len(),
{
    if steps.len() == 0 {
        let race = start(count);
        assert forall|who: int| 0 <= who < race.racers.len() implies racer_orderly(
            #[trigger] race.racers[who],
        ) by {
            assert(race.racers[who].driven =~= race.racers[who].train.take(0));
        }
    } else {
        lemma_races_are_orderly(count, steps.drop_last());
        let before = play(count, steps.drop_last());
        if enabled(before, steps.last()) {
            lemma_step_keeps_order(before, steps.last());
        }
    }
}

/// Mutual exclusion: however a race went, no two of its requests own the
/// channel at once.
pub proof fn lemma_one_owner(count: nat, steps: Seq<Move>, first: int, second: int)
    requires
        0 <= first < count,
        0 <= second < count,
        play(count, steps).racers[first].state.holds_channel(),
        play(count, steps).racers[second].state.holds_channel(),
    ensures
        first == second,
{
    lemma_races_are_orderly(count, steps);
    let race = play(count, steps);
    assert(race.racers[first].state.holds_channel() <==> race.owner == Some(first));
    assert(race.racers[second].state.holds_channel() <==> race.owner == Some(second));
}

/// Where on the wire the pulses of the request granted at `turn` begin:
/// behind all that the requests granted before it have driven out.
pub open spec fn offset(racers: Seq<Racer>, order: Seq<int>, turn: int) -> int {
    laid_out(racers, order.take(turn)).len() as int
}

/// What is laid out holds the pulses of each request of the order in one
/// piece, at its offset.
proof fn lemma_laid_out_piece(racers: Seq<Racer>, order: Seq<int>, turn: int)
    requires
        0 <= turn < order.len(),
    ensures
        0 <= offset(racers, order, turn),
        offset(racers, order, turn) + racers[order[turn]].driven.len() <= laid_out(
            racers,
            order,
        ).len(),
        laid_out(racers, order).subrange(
            offset(racers, order, turn),
            offset(racers, order, turn) + racers[order[turn]].driven.len(),
        ) == racers[order[turn]].driven,
    decreases order.len(),
{
    let earlier = order.drop_last();
    let whole = laid_out(racers, order);
    let piece = racers[order[turn]].driven;
    let from = offset(racers, order, turn);
    if turn == order.len() - 1 {
        assert(order.take(turn) =~= earlier);
        assert(whole.subrange(from, from + piece.len()) =~= piece);
    } else {
        lemma_laid_out_piece(racers, earlier, turn);
        assert(earlier.take(turn) =~= order.take(turn));
        assert(earlier[turn] == order[turn]);
        assert(whole.subrange(from, from + piece.len()) =~= laid_out(racers, earlier).subrange(
            from,
            from + piece.len(),
        ));
    }
}

/// Where every request of the order is acknowledged, each has driven out 48
/// pulses, so the request granted at `turn` begins at pulse `48 * turn`.
proof fn lemma_acknowledged_offsets(racers: Seq<Racer>, order: Seq<int>)
    requires
        forall|turn: int|
            0 <= turn < order.len() ==> racers[#[trigger] order[turn]].state is Acknowledged
                && racer_orderly(racers[order[turn]]),
    ensures
        laid_out(racers, order).len() == 48 * order.len(),
    decreases order.len(),
{
    if order.len() > 0 {
        let earlier = order.drop_last();
        assert forall|turn: int| 0 <= turn < earlier.len() implies racers[
        #[trigger] earlier[turn]].state is Acknowledged && racer_orderly(
            racers[earlier[turn]],
        ) by {
            assert(earlier[turn] == order[turn]);
        }
        lemma_acknowledged_offsets(racers, earlier);
        assert(order.last() == order[order.len() - 1]);
    }
}

/// Each request's pulses are on the wire in one piece: however a race went,
/// what the request granted at `turn` has driven out stands on the wire
/// unbroken, behind the pulses of the requests granted before it.
pub proof fn lemma_pieces_in_grant_order(count: nat, steps: Seq<Move>, turn: int)
    requires
        0 <= turn < play(count, steps).grants.len(),
    ensures
        ({
            let race = play(count, steps);
            let piece = race.racers[race.grants[turn]].driven;
            let from = offset(race.racers, race.grants, turn);
            &&& 0 <= from
            &&& from + piece.len() <= race.wire.len()
            &&& race.wire.subrange(from, from + piece.len()) == piece
        }),
{
    lemma_races_are_orderly(count, steps);
    let race = play(count, steps);
    lemma_laid_out_piece(race.racers, race.grants, turn);
}

/// Where all requests of a race were acknowledged, access was granted to
/// each of them exactly once; the wire holds exactly one transmission for
/// each, 48 pulses long, the whole train of its color, and these stand one
/// behind the other in the order of the grants. So the last pulses on the
/// wire, which decide the color that shows, are the train of the request
/// that access was granted to last.
pub proof fn lemma_all_acknowledged(count: nat, steps: Seq<Move>)
    requires
        forall|who: int|
            0 <= who < count ==> (#[trigger] play(count, steps).racers[who]).state
                is Acknowledged,
    ensures
        ({
            let race = play(count, steps);
            &&& race.grants.len() == count
            &&& race.grants.no_duplicates()
            &&& forall|who: int| 0 <= who < count ==> race.grants.contains(who)
            &&& race.wire.len() == 48 * count
            &&& forall|turn: int|
                0 <= turn < count ==> 0 <= #[trigger] race.grants[turn] < count
                    && race.wire.subrange(48 * turn, 48 * turn + 48)
                    == race.racers[race.grants[turn]].train && whole_train(
                    race.racers[race.grants[turn]].train,
                    race.racers[race.grants[turn]].state->Acknowledged_0,
                    race.racers[race.grants[turn]].tick_frequency,
                )
        }),
{
    lemma_races_are_orderly(count, steps);
    let race = play(count, steps);
    assert forall|who: int| 0 <= who < count implies race.grants.contains(who) by {
        assert(was_granted(race.racers[who].state));
    }
    assert(race.grants.to_set() =~= vstd::set_lib::set_int_range(0, count as int)) by {
        assert forall|who: int| race.grants.to_set().contains(who) implies 0 <= who < count by {
            let turn = choose|turn: int| 0 <= turn < race.grants.len() && race.grants[turn] == who;
            assert(0 <= race.grants[turn] < race.racers.len());
        }
    }
    race.grants.unique_seq_to_set();
    vstd::set_lib::lemma_int_range(0, count as int);
    assert forall|turn: int| 0 <= turn < race.grants.len() implies race.racers[
    #[trigger] race.grants[turn]].state is Acknowledged && racer_orderly(
        race.racers[race.grants[turn]],
    ) by {
        assert(0 <= race.grants[turn] < race.racers.len());
    }
    lemma_acknowledged_offsets(race.racers, race.grants);
    assert forall|turn: int| 0 <= turn < count implies 0 <= #[trigger] race.grants[turn] < count
        && race.wire.subrange(48 * turn, 48 * turn + 48) == race.racers[race.grants[turn]].train
        && whole_train(
        race.racers[race.grants[turn]].train,
        race.racers[race.grants[turn]].state->Acknowledged_0,
        race.racers[race.grants[turn]].tick_frequency,
    ) by {
        let before = race.grants.take(turn);
        assert forall|place: int| 0 <= place < before.len() implies race.racers[
        #[trigger] before[place]].state is Acknowledged && racer_orderly(
            race.racers[before[place]],
        ) by {
            assert(before[place] == race.grants[place]);
        }
        lemma_acknowledged_offsets(race.racers, before);
        lemma_laid_out_piece(race.racers, race.grants, turn);
        let racer = race.racers[race.grants[turn]];
        assert(racer_orderly(racer));
        assert(racer.driven == racer.train);
        assert(racer.train.len() == 48);
    }
}

} // verus!
