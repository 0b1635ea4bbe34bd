//! What the server does and sends, for everything that can happen.

use crate::emitters::{placed, spot};
use crate::ids::is_random_id;
use crate::lobby::{departed, joined};
use crate::measure::MeasurementsView;
use crate::messages::{BroadcastView, ClientMessage};
use crate::seqs::lemma_filter_agree;
use crate::server::{
    end_news, is_other, player_news, reacted, registered, room_joined, room_left, state_news,
    turned, unregistered, AppStateView,
};
use crate::session::{admitted, announced, dismissed, served, EffectView, Event, StageView};
use crate::state::{fresh_state, GameStateView};
use crate::update::launches::Velocity;
use crate::update::stepped;
use vstd::prelude::*;

verus! {

// Clients and rooms.

/// A room is known where it is listed, and has an audience where its clients are. What changes one
/// room or its clients changes nothing else.
pub proof fn law_what_is_known(
    a: AppStateView,
    room_id: Seq<char>,
    s: GameStateView,
    c: Seq<u64>,
    now: int,
)
    ensures
        a.has_room(room_id) <==> a.rooms.dom().contains(room_id),
        a.has_clients(room_id) <==> a.clients.dom().contains(room_id),
        a.rooms.dom().contains(room_id) ==> a.room_or_fresh(room_id, now) == a.rooms[room_id],
        !a.rooms.dom().contains(room_id) ==> a.room_or_fresh(room_id, now) == fresh_state(now),
        a.clients.dom().contains(room_id) ==> a.audience(room_id) == a.clients[room_id],
        !a.clients.dom().contains(room_id) ==> a.audience(room_id).len() == 0,
        a.with_room(room_id, s).rooms == a.rooms.insert(room_id, s),
        a.with_room(room_id, s).clients == a.clients,
        a.with_clients(room_id, c).clients == a.clients.insert(room_id, c),
        a.with_clients(room_id, c).rooms == a.rooms,
{
}

/// A client that is added to a room comes last among its clients; one that is taken out is no
/// longer among them, and the others stay in their order. Other rooms keep their clients, and all
/// rooms their state.
pub proof fn law_clients_come_and_go(a: AppStateView, room_id: Seq<char>, client: u64)
    ensures
        registered(a, room_id, client).rooms == a.rooms,
        a.clients.dom().contains(room_id) ==> registered(a, room_id, client).clients
            == a.clients.insert(room_id, a.clients[room_id].push(client)),
        !a.clients.dom().contains(room_id) ==> registered(a, room_id, client).clients
            == a.clients.insert(room_id, seq![client]),
        unregistered(a, room_id, client).rooms == a.rooms,
        a.clients.dom().contains(room_id) ==> unregistered(a, room_id, client).clients
            == a.clients.insert(room_id, a.clients[room_id].filter(|c: u64| !(c == client))),
        !a.clients.dom().contains(room_id) ==> unregistered(a, room_id, client).clients
            == a.clients,
{
    assert(Seq::<u64>::empty().push(client) =~= seq![client]);
    if a.clients.dom().contains(room_id) {
        lemma_filter_agree(a.clients[room_id], is_other(client), |c: u64| !(c == client));
    }
}

/// A player joins the room of that id, or a fresh one where there is none, and leaves the one of
/// that id; other rooms keep their state, and all rooms their clients.
pub proof fn law_players_come_and_go(
    a: AppStateView,
    room_id: Seq<char>,
    player_id: Seq<char>,
    now: int,
)
    ensures
        room_joined(a, room_id, player_id, now).clients == a.clients,
        a.rooms.dom().contains(room_id) ==> room_joined(a, room_id, player_id, now).rooms
            == a.rooms.insert(room_id, joined(a.rooms[room_id], player_id, now)),
        !a.rooms.dom().contains(room_id) ==> room_joined(a, room_id, player_id, now).rooms
            == a.rooms.insert(room_id, joined(fresh_state(now), player_id, now)),
        room_left(a, room_id, player_id).clients == a.clients,
        a.rooms.dom().contains(room_id) ==> room_left(a, room_id, player_id).rooms
            == a.rooms.insert(room_id, departed(a.rooms[room_id], player_id)),
        !a.rooms.dom().contains(room_id) ==> room_left(a, room_id, player_id).rooms == a.rooms,
{
}

// News.

/// What the clients of a room are told is the room as it is, whole; its players and its host; and
/// the color that won. It goes to all of them and to nobody else; there is nothing to tell of a
/// room that is not there, and nobody to tell where a room has no list of clients.
pub proof fn law_news_tell_the_room(a: AppStateView, room_id: Seq<char>, color: Seq<char>)
    ensures
        state_news(a, room_id) is Some <==> a.rooms.dom().contains(room_id)
            && a.clients.dom().contains(room_id),
        state_news(a, room_id) is Some ==> state_news(a, room_id)->0.to == a.clients[room_id]
            && state_news(a, room_id)->0.message is GameState && state_news(
            a,
            room_id,
        )->0.message->GameState_0 == a.rooms[room_id],
        player_news(a, room_id) is Some <==> a.rooms.dom().contains(room_id)
            && a.clients.dom().contains(room_id),
        player_news(a, room_id) is Some ==> player_news(a, room_id)->0.to == a.clients[room_id]
            && player_news(a, room_id)->0.message is PlayerList && player_news(
            a,
            room_id,
        )->0.message->players == a.rooms[room_id].players && player_news(
            a,
            room_id,
        )->0.message->host_id == a.rooms[room_id].host_id,
        end_news(a, room_id, color) is Some <==> a.clients.dom().contains(room_id),
        end_news(a, room_id, color) is Some ==> end_news(a, room_id, color)->0.to
            == a.clients[room_id] && end_news(a, room_id, color)->0.message is GameOver
            && end_news(a, room_id, color)->0.message->winner_color == color,
{
}

// Messages.

/// What a message of a player in a room leads to: a start where the host of a game that has not
/// started asks for it, an emitter where it can be placed, and otherwise nothing. Clients stay as
/// they are.
pub proof fn law_reactions(
    a: AppStateView,
    b: AppStateView,
    message: ClientMessage,
    room_id: Seq<char>,
    player_id: Seq<char>,
    now: int,
    starts: bool,
    sent: Option<BroadcastView>,
)
    requires
        reacted(a, b, message, room_id, player_id, now, starts, sent),
    ensures
        b.clients == a.clients,
        starts <==> message is StartGame && a.rooms.dom().contains(room_id)
            && a.rooms[room_id].host_id == Some(player_id) && !a.rooms[room_id].game_started,
        starts ==> b.rooms == a.rooms.insert(
            room_id,
            (GameStateView { game_started: true, ..a.rooms[room_id] }),
        ),
        sent is Some <==> starts && a.clients.dom().contains(room_id),
        sent is Some ==> sent->0.to == a.clients[room_id] && sent->0.message is GameState
            && sent->0.message->GameState_0 == b.rooms[room_id],
        message is StartGame && !starts ==> b == a,
        message is JoinRoom ==> b == a,
        message matches ClientMessage::PlaceEmitter { x, y } ==> {
            let places = a.rooms.dom().contains(room_id) && spot(
                a.rooms[room_id],
                x,
                y,
                player_id,
            ) is Some;
            let id = b.rooms[room_id].emitters.last().id;
            &&& !places ==> b == a
            &&& places ==> is_random_id(id)
            &&& places ==> b.rooms == a.rooms.insert(
                room_id,
                placed(a.rooms[room_id], x, y, player_id, id, now),
            )
        },
{
}

// Connections.

/// Who asks for a room first is let in, as a new player with a random id: its client is added to
/// the room and it joins. It is told so, and then all clients of the room, itself among them, are
/// told who plays there now.
pub proof fn law_asking_for_a_room(
    a: AppStateView,
    b: AppStateView,
    room_id: String,
    client: u64,
    now: int,
    next: StageView,
    effects: Seq<EffectView>,
)
    requires
        served(
            a,
            b,
            StageView::Waiting,
            Event::Message(ClientMessage::JoinRoom { room_id }),
            client,
            now,
            next,
            effects,
        ),
    ensures
        next is Joined && next->room_id == room_id@ && is_random_id(next->player_id),
        b.clients == registered(a, room_id@, client).clients,
        b.rooms == room_joined(a, room_id@, next->player_id, now).rooms,
        b.rooms.dom().contains(room_id@) && b.clients.dom().contains(room_id@),
        b.clients[room_id@].last() == client,
        effects.len() == 2,
        effects[0] is Tell && effects[0]->Tell_0 is JoinedRoom,
        effects[0]->Tell_0->room_id == room_id@,
        effects[0]->Tell_0->player_id == next->player_id,
        effects[1] is Announce && effects[1]->Announce_0.message is PlayerList,
        effects[1]->Announce_0.to == b.clients[room_id@],
        effects[1]->Announce_0.message->players == b.rooms[room_id@].players,
        effects[1]->Announce_0.message->host_id == b.rooms[room_id@].host_id,
{
}

/// Who begins with anything else is not let in: after a text the connection is closed, after
/// anything else it is left alone.
pub proof fn law_beginning_otherwise(
    a: AppStateView,
    b: AppStateView,
    event: Event,
    client: u64,
    now: int,
    next: StageView,
    effects: Seq<EffectView>,
)
    requires
        served(a, b, StageView::Waiting, event, client, now, next, effects),
        !(event matches Event::Message(ClientMessage::JoinRoom { .. })),
    ensures
        b == a,
        next is Done,
        event is Message || event is Garbled ==> effects.len() == 1 && effects[0] is Close,
        event is Other || event is Ended ==> effects.len() == 0,
{
}

proof fn lemma_reaction(
    a: AppStateView,
    b: AppStateView,
    room_id: Seq<char>,
    player_id: Seq<char>,
    message: ClientMessage,
    client: u64,
    now: int,
    next: StageView,
    effects: Seq<EffectView>,
) -> (r: (bool, Option<BroadcastView>))
    requires
        served(
            a,
            b,
            (StageView::Joined { room_id, player_id }),
            Event::Message(message),
            client,
            now,
            next,
            effects,
        ),
    ensures
        reacted(a, b, message, room_id, player_id, now, r.0, r.1),
        effects == if r.0 {
            seq![EffectView::RunGame(room_id)] + announced(r.1)
        } else {
            announced(r.1)
        },
        next == (StageView::Joined { room_id, player_id }),
{
    choose|starts: bool, sent: Option<BroadcastView>|
        {
            &&& #[trigger] reacted(a, b, message, room_id, player_id, now, starts, sent)
            &&& effects == if starts {
                seq![EffectView::RunGame(room_id)] + announced(sent)
            } else {
                announced(sent)
            }
        }
}

/// When the host of a room asks for it, and the game has not started, it has from then on: the
/// game begins to run, and the clients of the room are told its state. When anybody else asks, or
/// the game has started, nothing happens. The client stays in its room.
pub proof fn law_asking_for_a_start(
    a: AppStateView,
    b: AppStateView,
    room_id: Seq<char>,
    player_id: Seq<char>,
    client: u64,
    now: int,
    next: StageView,
    effects: Seq<EffectView>,
)
    requires
        served(
            a,
            b,
            (StageView::Joined { room_id, player_id }),
            Event::Message(ClientMessage::StartGame),
            client,
            now,
            next,
            effects,
        ),
    ensures
        next == (StageView::Joined { room_id, player_id }),
        b.clients == a.clients,
        ({
            let s = a.rooms[room_id];
            let starts = a.rooms.dom().contains(room_id) && s.host_id == Some(player_id)
                && !s.game_started;
            &&& starts ==> b.rooms == a.rooms.insert(
                room_id,
                (GameStateView { game_started: true, ..s }),
            )
            &&& starts && a.clients.dom().contains(room_id) ==> effects.len() == 2
            &&& starts && !a.clients.dom().contains(room_id) ==> effects.len() == 1
            &&& starts ==> effects[0] == EffectView::RunGame(room_id)
            &&& starts && a.clients.dom().contains(room_id) ==> {
                &&& effects[1] is Announce && effects[1]->Announce_0.message is GameState
                &&& effects[1]->Announce_0.message->GameState_0 == b.rooms[room_id]
                &&& effects[1]->Announce_0.to == a.clients[room_id]
            }
            &&& !starts ==> b.rooms == a.rooms && effects.len() == 0
        }),
{
    let (starts, sent) = lemma_reaction(
        a,
        b,
        room_id,
        player_id,
        ClientMessage::StartGame,
        client,
        now,
        next,
        effects,
    );
}

/// When a player asks to place an emitter, one is placed in the room where it can be, with a
/// random id, and nothing happens where it cannot. Nobody is told. The client stays in its room.
pub proof fn law_asking_for_an_emitter(
    a: AppStateView,
    b: AppStateView,
    room_id: Seq<char>,
    player_id: Seq<char>,
    x: crate::single::Single,
    y: crate::single::Single,
    client: u64,
    now: int,
    next: StageView,
    effects: Seq<EffectView>,
)
    requires
        served(
            a,
            b,
            (StageView::Joined { room_id, player_id }),
            Event::Message(ClientMessage::PlaceEmitter { x, y }),
            client,
            now,
            next,
            effects,
        ),
    ensures
        next == (StageView::Joined { room_id, player_id }),
        effects.len() == 0,
        b.clients == a.clients,
        a.rooms.dom().contains(room_id) && spot(a.rooms[room_id], x, y, player_id) is Some ==> {
            let id = b.rooms[room_id].emitters.last().id;
            &&& is_random_id(id)
            &&& b.rooms == a.rooms.insert(
                room_id,
                placed(a.rooms[room_id], x, y, player_id, id, now),
            )
        },
        !(a.rooms.dom().contains(room_id) && spot(a.rooms[room_id], x, y, player_id) is Some)
            ==> b.rooms == a.rooms,
{
    let (starts, sent) = lemma_reaction(
        a,
        b,
        room_id,
        player_id,
        ClientMessage::PlaceEmitter { x, y },
        client,
        now,
        next,
        effects,
    );
}

/// A player who asks for a room once more, sends what is no message, or no text, is passed over.
pub proof fn law_passed_over(
    a: AppStateView,
    b: AppStateView,
    room_id: Seq<char>,
    player_id: Seq<char>,
    event: Event,
    client: u64,
    now: int,
    next: StageView,
    effects: Seq<EffectView>,
)
    requires
        served(
            a,
            b,
            (StageView::Joined { room_id, player_id }),
            event,
            client,
            now,
            next,
            effects,
        ),
        event is Garbled || event is Other || (event matches Event::Message(
            ClientMessage::JoinRoom { .. },
        )),
    ensures
        b == a,
        next == (StageView::Joined { room_id, player_id }),
        effects.len() == 0,
{
    if event is Message {
        let (starts, sent) = lemma_reaction(
            a,
            b,
            room_id,
            player_id,
            event->Message_0,
            client,
            now,
            next,
            effects,
        );
    }
}

/// At the end of a connection the player leaves the room and its client is taken out; the clients
/// that are left are told who plays there now. Nothing is done for a connection after its end.
pub proof fn law_ending(
    a: AppStateView,
    b: AppStateView,
    room_id: Seq<char>,
    player_id: Seq<char>,
    event: Event,
    client: u64,
    now: int,
    next: StageView,
    effects: Seq<EffectView>,
)
    ensures
        served(
            a,
            b,
            (StageView::Joined { room_id, player_id }),
            Event::Ended,
            client,
            now,
            next,
            effects,
        ) ==> {
            let told = a.rooms.dom().contains(room_id) && a.clients.dom().contains(room_id);
            &&& next is Done
            &&& b.rooms == room_left(a, room_id, player_id).rooms
            &&& b.clients == unregistered(a, room_id, client).clients
            &&& effects.len() == (if told { 1nat } else { 0nat })
            &&& told ==> {
                &&& effects[0] is Announce && effects[0]->Announce_0.message is PlayerList
                &&& effects[0]->Announce_0.message->players == b.rooms[room_id].players
                &&& effects[0]->Announce_0.message->host_id == b.rooms[room_id].host_id
                &&& effects[0]->Announce_0.to == b.clients[room_id]
            }
        },
        served(a, b, StageView::Done, event, client, now, next, effects) ==> b == a && next is Done
            && effects.len() == 0,
{
}

/// To be let in is to be added to the clients and to join; to be dismissed is to leave and to be
/// taken out of the clients.
pub proof fn law_letting_in_and_dismissing(
    a: AppStateView,
    room_id: Seq<char>,
    player_id: Seq<char>,
    client: u64,
    now: int,
)
    ensures
        admitted(a, room_id, player_id, client, now).rooms == room_joined(
            a,
            room_id,
            player_id,
            now,
        ).rooms,
        admitted(a, room_id, player_id, client, now).clients == registered(
            a,
            room_id,
            client,
        ).clients,
        dismissed(a, room_id, player_id, client).rooms == room_left(a, room_id, player_id).rooms,
        dismissed(a, room_id, player_id, client).clients == unregistered(
            a,
            room_id,
            client,
        ).clients,
{
}

// Turns.

/// A turn makes a step in its room, as long as the game is not over; it changes nothing else, and
/// nothing at all where the game is over or the room is not there.
pub proof fn law_turns_make_steps(
    a: AppStateView,
    b: AppStateView,
    room_id: Seq<char>,
    now: int,
    m: MeasurementsView,
    vs: Seq<Velocity>,
)
    requires
        turned(a, b, room_id, now, m, vs),
    ensures
        b.clients == a.clients,
        a.rooms.dom().contains(room_id) && !a.rooms[room_id].game_over ==> stepped(
            a.rooms[room_id],
            b.rooms[room_id],
            now,
            m,
            vs,
        ) && b.rooms == a.rooms.insert(room_id, b.rooms[room_id]),
        !a.rooms.dom().contains(room_id) || a.rooms[room_id].game_over ==> b == a,
{
}

} // verus!
