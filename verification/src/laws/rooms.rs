//! Rooms among each other, and what reaches whom.

use super::lobby::{is_hosted, law_leaving_undoes_joining, lists};
use crate::measure::MeasurementsView;
use crate::messages::{BroadcastView, ClientMessage};
use crate::seqs::{lemma_filter_all, lemma_filter_has};
use crate::server::{
    end_news, is_other, player_news, reacted, registered, room_joined, room_left, state_news,
    turned, unregistered, AppStateView,
};
use crate::session::{admitted, dismissed, served, EffectView, Event, StageView};
use crate::update::launches::Velocity;
use vstd::prelude::*;

verus! {

/// Nothing about that room differs, neither its state nor its clients.
pub open spec fn same_room(a: AppStateView, b: AppStateView, room_id: Seq<char>) -> bool {
    &&& a.has_room(room_id) == b.has_room(room_id)
    &&& a.has_room(room_id) ==> a.rooms[room_id] == b.rooms[room_id]
    &&& a.has_clients(room_id) == b.has_clients(room_id)
    &&& a.has_clients(room_id) ==> a.clients[room_id] == b.clients[room_id]
}

/// What happens in one room leaves every other room as it is.
pub proof fn law_rooms_are_apart(
    a: AppStateView,
    room_id: Seq<char>,
    player_id: Seq<char>,
    client: u64,
    now: int,
    other: Seq<char>,
)
    requires
        other != room_id,
    ensures
        same_room(a, registered(a, room_id, client), other),
        same_room(a, unregistered(a, room_id, client), other),
        same_room(a, room_joined(a, room_id, player_id, now), other),
        same_room(a, room_left(a, room_id, player_id), other),
        same_room(a, admitted(a, room_id, player_id, client, now), other),
        same_room(a, dismissed(a, room_id, player_id, client), other),
{
}

/// A turn of the game in one room leaves every other room as it is, and all clients; and when the
/// game is over the room itself stays as it is.
pub proof fn law_turns_stay_in_their_room(
    a: AppStateView,
    b: AppStateView,
    room_id: Seq<char>,
    now: int,
    m: MeasurementsView,
    vs: Seq<Velocity>,
    other: Seq<char>,
)
    requires
        turned(a, b, room_id, now, m, vs),
    ensures
        other != room_id ==> same_room(a, b, other),
        a.clients == b.clients,
        a.has_room(room_id) && a.rooms[room_id].game_over ==> a == b,
{
}

/// An event of a client in a room leaves every other room as it is, unless it is the event by
/// which the client joins; then every room but the one joined.
pub proof fn law_clients_stay_in_their_room(
    a: AppStateView,
    b: AppStateView,
    stage: StageView,
    event: Event,
    client: u64,
    now: int,
    next: StageView,
    effects: Seq<EffectView>,
    other: Seq<char>,
)
    requires
        served(a, b, stage, event, client, now, next, effects),
        match stage {
            StageView::Joined { room_id, player_id } => room_id != other,
            _ => true,
        },
        match next {
            StageView::Joined { room_id, player_id } => room_id != other,
            _ => true,
        },
    ensures
        same_room(a, b, other),
{
    if stage is Joined && event is Message {
        let room_id = stage->room_id;
        let player_id = stage->player_id;
        let message = event->Message_0;
        let (starts, sent) = choose|starts: bool, sent: Option<BroadcastView>|
            {
                &&& #[trigger] reacted(a, b, message, room_id, player_id, now, starts, sent)
                &&& effects == if starts {
                    seq![EffectView::RunGame(room_id)] + crate::session::announced(sent)
                } else {
                    crate::session::announced(sent)
                }
            };
        assert(reacted(a, b, message, room_id, player_id, now, starts, sent));
    }
}

/// Nobody plays without having asked for a room: whatever else comes first changes nothing, and
/// the connection is done.
pub proof fn law_first_a_room(
    a: AppStateView,
    b: AppStateView,
    event: Event,
    client: u64,
    now: int,
    next: StageView,
    effects: Seq<EffectView>,
)
    requires
        served(a, b, StageView::Waiting, event, client, now, next, effects),
        !(event matches Event::Message(ClientMessage::JoinRoom { .. })),
    ensures
        b == a,
        next is Done,
        forall|i: int| 0 <= i < effects.len() ==> #[trigger] effects[i] is Close,
{
}

/// A client of a room gets what is sent to that room, and none after it has been taken out; what
/// is sent to a room goes to its clients and to nobody else.
pub proof fn law_news_reach_the_clients(
    a: AppStateView,
    room_id: Seq<char>,
    client: u64,
    color: Seq<char>,
)
    ensures
        registered(a, room_id, client).audience(room_id).contains(client),
        !unregistered(a, room_id, client).audience(room_id).contains(client),
        state_news(a, room_id) is Some ==> state_news(a, room_id)->0.to == a.audience(room_id),
        player_news(a, room_id) is Some ==> player_news(a, room_id)->0.to == a.audience(room_id),
        end_news(a, room_id, color) is Some ==> end_news(a, room_id, color)->0.to == a.audience(
            room_id,
        ),
        a.has_room(room_id) && a.audience(room_id).len() > 0 ==> state_news(a, room_id) is Some
            && player_news(a, room_id) is Some && end_news(a, room_id, color) is Some,
{
    let t = registered(a, room_id, client).audience(room_id);
    assert(t[t.len() - 1] == client);
    let u = unregistered(a, room_id, client).audience(room_id);
    if a.has_clients(room_id) {
        lemma_filter_has(a.clients[room_id], is_other(client), client);
    }
}

/// Taking out a client undoes adding it, where it was not there before.
pub proof fn law_taking_out_undoes_adding(a: AppStateView, room_id: Seq<char>, client: u64)
    requires
        !a.audience(room_id).contains(client),
    ensures
        unregistered(registered(a, room_id, client), room_id, client).audience(room_id)
            == a.audience(room_id),
{
    let s = a.audience(room_id);
    let t = s.push(client);
    let p = is_other(client);
    assert forall|i: int| 0 <= i < s.len() implies p(#[trigger] s[i]) by {
        assert(s.contains(s[i]));
    }
    lemma_filter_all(s, p);
    reveal(Seq::filter);
    assert(t.drop_last() =~= s);
    assert(t.filter(p) =~= s);
}

/// A client that comes and goes leaves the players, the host and the clients of the room as they
/// were.
pub proof fn law_coming_and_going(
    a: AppStateView,
    room_id: Seq<char>,
    player_id: Seq<char>,
    client: u64,
    now: int,
)
    requires
        !a.audience(room_id).contains(client),
        is_hosted(a.room_or_fresh(room_id, now)),
        !lists(a.room_or_fresh(room_id, now).players, player_id),
    ensures
        ({
            let b = dismissed(
                admitted(a, room_id, player_id, client, now),
                room_id,
                player_id,
                client,
            );
            let before = a.room_or_fresh(room_id, now);
            &&& b.has_room(room_id)
            &&& b.rooms[room_id].players == before.players
            &&& b.rooms[room_id].host_id == before.host_id
            &&& b.audience(room_id) == a.audience(room_id)
        }),
{
    law_leaving_undoes_joining(a.room_or_fresh(room_id, now), player_id, now);
    law_taking_out_undoes_adding(a, room_id, client);
}

} // verus!
