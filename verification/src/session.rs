//! A client's connection, from its first message to its end.

use crate::ids::{fresh_id, is_random_id};
use crate::messages::{Broadcast, BroadcastView, ClientMessage, ServerMessage, ServerMessageView};
use crate::seqs::views;
use crate::server::{
    broadcast_player_list, handle_client_message, news, player_news, reacted, registered,
    room_joined, room_left, unregistered, AppState, AppStateView,
};
use vstd::prelude::*;

verus! {

/// How far a connection has come.
#[derive(Debug)]
pub enum Stage {
    /// Nothing has been received yet.
    Waiting,
    /// The client plays in a room.
    Joined { room_id: String, player_id: String },
    /// Nothing more is read.
    Done,
}

pub enum StageView {
    Waiting,
    Joined { room_id: Seq<char>, player_id: Seq<char> },
    Done,
}

impl View for Stage {
    type V = StageView;

    open spec fn view(&self) -> StageView {
        match self {
            Stage::Waiting => StageView::Waiting,
            Stage::Joined { room_id, player_id } => StageView::Joined {
                room_id: room_id@,
                player_id: player_id@,
            },
            Stage::Done => StageView::Done,
        }
    }
}

/// What comes in from a client.
#[derive(Debug)]
pub enum Event {
    /// A message.
    Message(ClientMessage),
    /// A text that is no message.
    Garbled,
    /// A frame that is no text.
    Other,
    /// The connection has broken or ended.
    Ended,
}

/// What is to be done for a client's event.
#[derive(Debug)]
pub enum Effect {
    /// Close the connection.
    Close,
    /// Send a message to this client.
    Tell(ServerMessage),
    /// Send a message to the clients listed.
    Announce(Broadcast),
    /// Begin to run the game of the room.
    RunGame(String),
}

pub enum EffectView {
    Close,
    Tell(ServerMessageView),
    Announce(BroadcastView),
    RunGame(Seq<char>),
}

impl View for Effect {
    type V = EffectView;

    open spec fn view(&self) -> EffectView {
        match self {
            Effect::Close => EffectView::Close,
            Effect::Tell(m) => EffectView::Tell(m@),
            Effect::Announce(b) => EffectView::Announce(b@),
            Effect::RunGame(room_id) => EffectView::RunGame(room_id@),
        }
    }
}

/// The announcement of a broadcast, if there is one.
pub open spec fn announced(b: Option<BroadcastView>) -> Seq<EffectView> {
    match b {
        Some(b) => seq![EffectView::Announce(b)],
        None => Seq::empty(),
    }
}

/// The server after a client has been let into a room as a new player.
pub open spec fn admitted(
    a: AppStateView,
    room_id: Seq<char>,
    player_id: Seq<char>,
    client: u64,
    now: int,
) -> AppStateView {
    room_joined(registered(a, room_id, client), room_id, player_id, now)
}

/// The server after a player's client has gone.
pub open spec fn dismissed(
    a: AppStateView,
    room_id: Seq<char>,
    player_id: Seq<char>,
    client: u64,
) -> AppStateView {
    unregistered(room_left(a, room_id, player_id), room_id, client)
}

/// The server goes from `a` to `b` and the connection from `stage` to `next`, with `effects`, when
/// the event comes from that client at `now`.
pub open spec fn served(
    a: AppStateView,
    b: AppStateView,
    stage: StageView,
    event: Event,
    client: u64,
    now: int,
    next: StageView,
    effects: Seq<EffectView>,
) -> bool {
    match stage {
        StageView::Waiting => match event {
            Event::Message(ClientMessage::JoinRoom { room_id }) => {
                &&& next matches StageView::Joined { room_id: r, player_id }
                &&& r == room_id@
                &&& is_random_id(player_id)
                &&& b == admitted(a, room_id@, player_id, client, now)
                &&& effects == seq![
                    EffectView::Tell(
                        ServerMessageView::JoinedRoom { room_id: room_id@, player_id },
                    ),
                ] + announced(player_news(b, room_id@))
            },
            Event::Message(_) | Event::Garbled => {
                next is Done && b == a && effects == seq![EffectView::Close]
            },
            Event::Other | Event::Ended => {
                next is Done && b == a && effects == Seq::<EffectView>::empty()
            },
        },
        StageView::Joined { room_id, player_id } => match event {
            Event::Message(message) => {
                &&& next == stage
                &&& exists|starts: bool, sent: Option<BroadcastView>|
                    {
                        &&& #[trigger] reacted(
                            a,
                            b,
                            message,
                            room_id,
                            player_id,
                            now,
                            starts,
                            sent,
                        )
                        &&& effects == if starts {
                            seq![EffectView::RunGame(room_id)] + announced(sent)
                        } else {
                            announced(sent)
                        }
                    }
            },
            Event::Garbled | Event::Other => {
                next == stage && b == a && effects == Seq::<EffectView>::empty()
            },
            Event::Ended => {
                &&& next is Done
                &&& b == dismissed(a, room_id, player_id, client)
                &&& effects == announced(player_news(b, room_id))
            },
        },
        StageView::Done => next is Done && b == a && effects == Seq::<EffectView>::empty(),
    }
}

/// Lets a client into a room under that player id, and says what is to be sent.
pub fn let_in(
    app_state: &mut AppState,
    room_id: &String,
    player_id: &String,
    client: u64,
    now: u64,
) -> (r: Vec<Effect>)
    requires
        old(app_state).wf(),
    ensures
        final(app_state).wf(),
        final(app_state)@ == admitted(old(app_state)@, room_id@, player_id@, client, now as int),
        views(r@) == seq![
            EffectView::Tell(
                ServerMessageView::JoinedRoom { room_id: room_id@, player_id: player_id@ },
            ),
        ] + announced(player_news(final(app_state)@, room_id@)),
{
    app_state.register_client(room_id, client);
    app_state.join_room(room_id, player_id, now);
    let mut effects: Vec<Effect> = Vec::new();
    effects.push(
        Effect::Tell(
            ServerMessage::JoinedRoom { room_id: room_id.clone(), player_id: player_id.clone() },
        ),
    );
    announce(&mut effects, broadcast_player_list(app_state, room_id));
    effects
}

/// Clears up after a player's client has gone, and says what is to be sent.
pub fn dismiss(
    app_state: &mut AppState,
    room_id: &String,
    player_id: &String,
    client: u64,
) -> (r: Vec<Effect>)
    requires
        old(app_state).wf(),
    ensures
        final(app_state).wf(),
        final(app_state)@ == dismissed(old(app_state)@, room_id@, player_id@, client),
        views(r@) == announced(player_news(final(app_state)@, room_id@)),
{
    app_state.leave_room(room_id, player_id);
    app_state.unregister_client(room_id, client);
    let mut effects: Vec<Effect> = Vec::new();
    announce(&mut effects, broadcast_player_list(app_state, room_id));
    effects
}

fn announce(effects: &mut Vec<Effect>, broadcast: Option<Broadcast>)
    ensures
        views(final(effects)@) == views(old(effects)@) + announced(news(broadcast)),
{
    let ghost before = views(effects@);
    match broadcast {
        Some(b) => {
            effects.push(Effect::Announce(b));
            assert(views(effects@) =~= before + seq![EffectView::Announce(b@)]);
        },
        None => {
            assert(views(effects@) =~= before + Seq::<EffectView>::empty());
        },
    }
}

/// Serves one event of a client's connection. The first message has to ask for a room, which the
/// client then joins as a new player; messages after that are handled in the room, what is no
/// message is passed over, and at the end the player leaves.
pub fn websocket_handler(
    app_state: &mut AppState,
    stage: Stage,
    event: &Event,
    client: u64,
    now: u64,
) -> (r: (Stage, Vec<Effect>))
    requires
        old(app_state).wf(),
    ensures
        final(app_state).wf(),
        served(
            old(app_state)@,
            final(app_state)@,
            stage@,
            *event,
            client,
            now as int,
            r.0@,
            views(r.1@),
        ),
{
    let mut effects: Vec<Effect> = Vec::new();
    assert(views(effects@) =~= Seq::<EffectView>::empty());
    match stage {
        Stage::Waiting => match event {
            Event::Message(ClientMessage::JoinRoom { room_id }) => {
                let player_id = fresh_id();
                let effects = let_in(app_state, room_id, &player_id, client, now);
                (Stage::Joined { room_id: room_id.clone(), player_id }, effects)
            },
            Event::Message(_) | Event::Garbled => {
                effects.push(Effect::Close);
                assert(views(effects@) =~= seq![EffectView::Close]);
                (Stage::Done, effects)
            },
            Event::Other | Event::Ended => (Stage::Done, effects),
        },
        Stage::Joined { room_id, player_id } => match event {
            Event::Message(message) => {
                let ghost a = app_state@;
                let reaction = handle_client_message(
                    app_state,
                    message,
                    &room_id,
                    &player_id,
                    now,
                );
                let ghost sent = news(reaction.news);
                if reaction.starts {
                    effects.push(Effect::RunGame(room_id.clone()));
                    assert(views(effects@) =~= seq![EffectView::RunGame(room_id@)]);
                }
                announce(&mut effects, reaction.news);
                assert(reacted(
                    a,
                    app_state@,
                    *message,
                    room_id@,
                    player_id@,
                    now as int,
                    reaction.starts,
                    sent,
                ));
                assert(!reaction.starts ==> views(effects@) =~= announced(sent));
                (Stage::Joined { room_id, player_id }, effects)
            },
            Event::Garbled | Event::Other => (Stage::Joined { room_id, player_id }, effects),
            Event::Ended => {
                let effects = dismiss(app_state, &room_id, &player_id, client);
                (Stage::Done, effects)
            },
        },
        Stage::Done => (Stage::Done, effects),
    }
}

} // verus!
