//! All rooms, the clients in them, and what is sent to whom.
//!
//! A client is known by a number that the caller gives to its connection.

use crate::directory::Directory;
use crate::emitters::{place_emitter, placed, spot};
use crate::ids::is_random_id;
use crate::lobby::{
    departed, join, joined, leave, may_start, start, started, winner_color, winning_color,
};
use crate::measure::{Measurements, MeasurementsView};
use crate::messages::{Broadcast, BroadcastView, ClientMessage, ServerMessage, ServerMessageView};
use crate::seqs::{lemma_sift_ends, lemma_sift_step, views};
use crate::state::{fresh_state, init_game_state, text, GameState, GameStateView};
use crate::update::launches::Velocity;
use crate::update::{can_step, stepped, update_game_state};
use vstd::prelude::*;

verus! {

/// The rooms by id, and the clients in each room.
#[derive(Debug)]
pub struct AppState {
    rooms: Directory<GameState>,
    clients: Directory<Vec<u64>>,
}

#[verifier::ext_equal]
pub struct AppStateView {
    pub rooms: Map<Seq<char>, GameStateView>,
    pub clients: Map<Seq<char>, Seq<u64>>,
}

impl View for AppState {
    type V = AppStateView;

    closed spec fn view(&self) -> AppStateView {
        AppStateView {
            rooms: self.rooms@.map_values(|g: GameState| g@),
            clients: self.clients@.map_values(|c: Vec<u64>| c@),
        }
    }
}

impl AppStateView {
    pub open spec fn has_room(self, room_id: Seq<char>) -> bool {
        self.rooms.dom().contains(room_id)
    }

    pub open spec fn has_clients(self, room_id: Seq<char>) -> bool {
        self.clients.dom().contains(room_id)
    }

    /// The room of that id, or the one that would be opened for it at `now`.
    pub open spec fn room_or_fresh(self, room_id: Seq<char>, now: int) -> GameStateView {
        if self.has_room(room_id) {
            self.rooms[room_id]
        } else {
            fresh_state(now)
        }
    }

    /// The clients of a room, in the order in which they came; none where the room is unknown.
    pub open spec fn audience(self, room_id: Seq<char>) -> Seq<u64> {
        if self.has_clients(room_id) {
            self.clients[room_id]
        } else {
            Seq::empty()
        }
    }

    /// The same but for that room.
    pub open spec fn with_room(self, room_id: Seq<char>, s: GameStateView) -> AppStateView {
        AppStateView { rooms: self.rooms.insert(room_id, s), ..self }
    }

    /// The same but for the clients of that room.
    pub open spec fn with_clients(self, room_id: Seq<char>, c: Seq<u64>) -> AppStateView {
        AppStateView { clients: self.clients.insert(room_id, c), ..self }
    }
}

pub open spec fn is_other(client: u64) -> spec_fn(u64) -> bool {
    |c: u64| c != client
}

/// The clients other than that one.
pub open spec fn without(clients: Seq<u64>, client: u64) -> Seq<u64> {
    clients.filter(is_other(client))
}

/// The server after a client has been added to a room.
pub open spec fn registered(a: AppStateView, room_id: Seq<char>, client: u64) -> AppStateView {
    a.with_clients(room_id, a.audience(room_id).push(client))
}

/// The server after a client has been taken out of a room.
pub open spec fn unregistered(a: AppStateView, room_id: Seq<char>, client: u64) -> AppStateView {
    if a.has_clients(room_id) {
        a.with_clients(room_id, without(a.clients[room_id], client))
    } else {
        a
    }
}

/// The server after a player has joined a room, which is opened where it is unknown.
pub open spec fn room_joined(
    a: AppStateView,
    room_id: Seq<char>,
    player_id: Seq<char>,
    now: int,
) -> AppStateView {
    a.with_room(room_id, joined(a.room_or_fresh(room_id, now), player_id, now))
}

/// The server after a player has left a room.
pub open spec fn room_left(a: AppStateView, room_id: Seq<char>, player_id: Seq<char>) -> AppStateView {
    if a.has_room(room_id) {
        a.with_room(room_id, departed(a.rooms[room_id], player_id))
    } else {
        a
    }
}

fn drop_client(clients: &mut Vec<u64>, client: u64)
    ensures
        final(clients)@ == without(old(clients)@, client),
{
    let ghost o = clients@;
    let ghost p = is_other(client);
    let ghost mut t: int = 0;
    proof {
        lemma_sift_ends(o, p);
    }
    let mut i: usize = 0;
    while i < clients.len()
        invariant
            0 <= t <= o.len(),
            p == is_other(client),
            i == o.take(t).filter(p).len(),
            clients@ == o.take(t).filter(p) + o.skip(t),
        decreases o.len() - t,
    {
        proof {
            lemma_sift_step(o, p, t, clients@);
        }
        if clients[i] == client {
            clients.remove(i);
        } else {
            i = i + 1;
        }
        proof {
            t = t + 1;
        }
    }
    proof {
        assert(clients@.len() == i + (o.len() - t));
        assert(t == o.len());
        lemma_sift_ends(o, p);
    }
}

impl AppState {
    /// No room is listed twice.
    pub closed spec fn wf(&self) -> bool {
        self.rooms.wf() && self.clients.wf()
    }

    /// A server without rooms and clients.
    pub fn new() -> (r: Self)
        ensures
            r.wf(),
            r@ == (AppStateView { rooms: Map::empty(), clients: Map::empty() }),
    {
        let r = AppState { rooms: Directory::new(), clients: Directory::new() };
        assert(r@ =~= AppStateView { rooms: Map::empty(), clients: Map::empty() });
        r
    }

    /// The state of a room.
    pub fn room(&self, room_id: &String) -> (r: Option<&GameState>)
        requires
            self.wf(),
        ensures
            match r {
                Some(s) => self@.has_room(room_id@) && s@ == self@.rooms[room_id@],
                None => !self@.has_room(room_id@),
            },
    {
        self.rooms.get(room_id)
    }

    /// A copy of the list of clients of a room.
    pub fn clients_of(&self, room_id: &String) -> (r: Option<Vec<u64>>)
        requires
            self.wf(),
        ensures
            match r {
                Some(c) => self@.has_clients(room_id@) && c@ == self@.clients[room_id@],
                None => !self@.has_clients(room_id@),
            },
    {
        match self.clients.get(room_id) {
            Some(c) => {
                let copy = c.clone();
                assert(copy@ =~= c@);
                Some(copy)
            },
            None => None,
        }
    }

    /// Adds a client to a room.
    pub fn register_client(&mut self, room_id: &String, client: u64)
        requires
            old(self).wf(),
        ensures
            final(self).wf(),
            final(self)@ == registered(old(self)@, room_id@, client),
    {
        let ghost a = self@;
        if self.clients.get(room_id).is_none() {
            self.clients.add(room_id.clone(), Vec::new());
        }
        if let Some(list) = self.clients.get_mut(room_id) {
            list.push(client);
        }
        assert(self@ =~= registered(a, room_id@, client));
    }

    /// Takes a client out of a room.
    pub fn unregister_client(&mut self, room_id: &String, client: u64)
        requires
            old(self).wf(),
        ensures
            final(self).wf(),
            final(self)@ == unregistered(old(self)@, room_id@, client),
    {
        let ghost a = self@;
        if let Some(list) = self.clients.get_mut(room_id) {
            drop_client(list, client);
        }
        assert(self@ =~= unregistered(a, room_id@, client));
    }

    /// Lets a player join a room, which is opened where it is unknown.
    pub fn join_room(&mut self, room_id: &String, player_id: &String, now: u64)
        requires
            old(self).wf(),
        ensures
            final(self).wf(),
            final(self)@ == room_joined(old(self)@, room_id@, player_id@, now as int),
    {
        let ghost a = self@;
        if self.rooms.get(room_id).is_none() {
            self.rooms.add(room_id.clone(), init_game_state(now));
        }
        if let Some(room) = self.rooms.get_mut(room_id) {
            join(room, player_id, now);
        }
        assert(self@ =~= room_joined(a, room_id@, player_id@, now as int));
    }

    /// Lets a player leave a room.
    pub fn leave_room(&mut self, room_id: &String, player_id: &String)
        requires
            old(self).wf(),
        ensures
            final(self).wf(),
            final(self)@ == room_left(old(self)@, room_id@, player_id@),
    {
        let ghost a = self@;
        if let Some(room) = self.rooms.get_mut(room_id) {
            leave(room, player_id);
        }
        assert(self@ =~= room_left(a, room_id@, player_id@));
    }
}

// Broadcasts.

/// The state of a room, for its clients; nothing where the room or its clients are unknown.
pub open spec fn state_news(a: AppStateView, room_id: Seq<char>) -> Option<BroadcastView> {
    if a.has_room(room_id) && a.has_clients(room_id) {
        Some(
            BroadcastView {
                message: ServerMessageView::GameState(a.rooms[room_id]),
                to: a.clients[room_id],
            },
        )
    } else {
        None
    }
}

/// The end of the game, for the clients of the room.
pub open spec fn end_news(
    a: AppStateView,
    room_id: Seq<char>,
    winner_color: Seq<char>,
) -> Option<BroadcastView> {
    if a.has_clients(room_id) {
        Some(
            BroadcastView {
                message: ServerMessageView::GameOver { winner_color },
                to: a.clients[room_id],
            },
        )
    } else {
        None
    }
}

/// The players and the host of a room, for its clients.
pub open spec fn player_news(a: AppStateView, room_id: Seq<char>) -> Option<BroadcastView> {
    if a.has_room(room_id) && a.has_clients(room_id) {
        Some(
            BroadcastView {
                message: ServerMessageView::PlayerList {
                    players: a.rooms[room_id].players,
                    host_id: a.rooms[room_id].host_id,
                },
                to: a.clients[room_id],
            },
        )
    } else {
        None
    }
}

/// The view of an optional broadcast.
pub open spec fn news(b: Option<Broadcast>) -> Option<BroadcastView> {
    match b {
        Some(b) => Some(b@),
        None => None,
    }
}

/// What to send, and to whom, to tell the clients of a room its state.
pub fn broadcast_game_state(app_state: &AppState, room_id: &String) -> (r: Option<Broadcast>)
    requires
        app_state.wf(),
    ensures
        news(r) == state_news(app_state@, room_id@),
        match r {
            Some(b) => {
                &&& app_state@.rooms.dom().contains(room_id@)
                &&& app_state@.clients.dom().contains(room_id@)
                &&& b.to@ == app_state@.clients[room_id@]
                &&& b.message matches ServerMessage::GameState(g)
                &&& g@ == app_state@.rooms[room_id@]
            },
            None => !app_state@.rooms.dom().contains(room_id@)
                || !app_state@.clients.dom().contains(room_id@),
        },
{
    match app_state.room(room_id) {
        Some(room) => match app_state.clients_of(room_id) {
            Some(to) => Some(Broadcast { message: ServerMessage::GameState(room.clone()), to }),
            None => None,
        },
        None => None,
    }
}

/// What to send, and to whom, to tell the clients of a room that the game is over.
pub fn broadcast_game_over(
    app_state: &AppState,
    room_id: &String,
    winner_color: String,
) -> (r: Option<Broadcast>)
    requires
        app_state.wf(),
    ensures
        news(r) == end_news(app_state@, room_id@, winner_color@),
        match r {
            Some(b) => {
                &&& app_state@.clients.dom().contains(room_id@)
                &&& b.to@ == app_state@.clients[room_id@]
                &&& b.message matches ServerMessage::GameOver { winner_color: color }
                &&& color@ == winner_color@
            },
            None => !app_state@.clients.dom().contains(room_id@),
        },
{
    match app_state.clients_of(room_id) {
        Some(to) => Some(Broadcast { message: ServerMessage::GameOver { winner_color }, to }),
        None => None,
    }
}

/// What to send, and to whom, to tell the clients of a room who is in it.
pub fn broadcast_player_list(app_state: &AppState, room_id: &String) -> (r: Option<Broadcast>)
    requires
        app_state.wf(),
    ensures
        news(r) == player_news(app_state@, room_id@),
        match r {
            Some(b) => {
                &&& app_state@.rooms.dom().contains(room_id@)
                &&& app_state@.clients.dom().contains(room_id@)
                &&& b.to@ == app_state@.clients[room_id@]
                &&& b.message matches ServerMessage::PlayerList { players, host_id }
                &&& views(players@) == app_state@.rooms[room_id@].players
                &&& text(host_id) == app_state@.rooms[room_id@].host_id
            },
            None => !app_state@.rooms.dom().contains(room_id@)
                || !app_state@.clients.dom().contains(room_id@),
        },
{
    match app_state.room(room_id) {
        Some(room) => match app_state.clients_of(room_id) {
            Some(to) => {
                let players = room.players.clone();
                assert(views(players@) =~= room@.players);
                Some(
                    Broadcast {
                        message: ServerMessage::PlayerList {
                            players,
                            host_id: room.host_id.clone(),
                        },
                        to,
                    },
                )
            },
            None => None,
        },
        None => None,
    }
}

// Messages in a room.

/// What follows from a message: whether the game of the room begins to run, and what is sent.
#[derive(Debug)]
pub struct Reaction {
    pub starts: bool,
    pub news: Option<Broadcast>,
}

/// The server `b`, and what follows, after a message of a player of a room of the server `a`.
pub open spec fn reacted(
    a: AppStateView,
    b: AppStateView,
    message: ClientMessage,
    room_id: Seq<char>,
    player_id: Seq<char>,
    now: int,
    starts: bool,
    sent: Option<BroadcastView>,
) -> bool {
    match message {
        ClientMessage::PlaceEmitter { x, y } => {
            &&& !starts && sent is None
            &&& if a.has_room(room_id) && spot(a.rooms[room_id], x, y, player_id) is Some {
                let id = b.rooms[room_id].emitters.last().id;
                &&& is_random_id(id)
                &&& b == a.with_room(
                    room_id,
                    placed(a.rooms[room_id], x, y, player_id, id, now),
                )
            } else {
                b == a
            }
        },
        ClientMessage::StartGame => {
            if a.has_room(room_id) && may_start(a.rooms[room_id], player_id) {
                &&& starts && sent == state_news(b, room_id)
                &&& b == a.with_room(room_id, started(a.rooms[room_id], player_id))
            } else {
                !starts && sent is None && b == a
            }
        },
        ClientMessage::JoinRoom { .. } => !starts && sent is None && b == a,
    }
}

/// Handles a message of a player who is in a room: an emitter is placed where it can be, and the
/// host starts the game.
pub fn handle_client_message(
    app_state: &mut AppState,
    message: &ClientMessage,
    room_id: &String,
    player_id: &String,
    now: u64,
) -> (r: Reaction)
    requires
        old(app_state).wf(),
    ensures
        final(app_state).wf(),
        reacted(
            old(app_state)@,
            final(app_state)@,
            *message,
            room_id@,
            player_id@,
            now as int,
            r.starts,
            news(r.news),
        ),
{
    let ghost a = app_state@;
    match message {
        ClientMessage::PlaceEmitter { x, y } => {
            if let Some(room) = app_state.rooms.get_mut(room_id) {
                place_emitter(room, *x, *y, player_id, now);
            }
            proof {
                if a.has_room(room_id@) {
                    assert(app_state@ =~= a.with_room(room_id@, app_state@.rooms[room_id@]));
                    assert(a =~= a.with_room(room_id@, a.rooms[room_id@]));
                }
                assert(!a.has_room(room_id@) ==> app_state@ =~= a);
            }
            Reaction { starts: false, news: None }
        },
        ClientMessage::StartGame => {
            let mut starts = false;
            if let Some(room) = app_state.rooms.get_mut(room_id) {
                starts = start(room, player_id);
            }
            proof {
                if a.has_room(room_id@) {
                    assert(app_state@ =~= a.with_room(
                        room_id@,
                        started(a.rooms[room_id@], player_id@),
                    ));
                    assert(a =~= a.with_room(room_id@, a.rooms[room_id@]));
                }
                assert(!a.has_room(room_id@) ==> app_state@ =~= a);
            }
            if starts {
                Reaction { starts: true, news: broadcast_game_state(app_state, room_id) }
            } else {
                Reaction { starts: false, news: None }
            }
        },
        ClientMessage::JoinRoom { .. } => Reaction { starts: false, news: None },
    }
}

// The running game.

/// What a turn of the game's loop leads to: what is sent, and whether there is another turn.
#[derive(Debug)]
pub struct Turn {
    pub goes_on: bool,
    pub news: Option<Broadcast>,
    pub verdict: Option<Broadcast>,
}

/// The server `b` after a turn at `now` of the game in a room of the server `a`.
pub open spec fn turned(
    a: AppStateView,
    b: AppStateView,
    room_id: Seq<char>,
    now: int,
    m: MeasurementsView,
    vs: Seq<Velocity>,
) -> bool {
    if a.has_room(room_id) && !a.rooms[room_id].game_over {
        &&& stepped(a.rooms[room_id], b.rooms[room_id], now, m, vs)
        &&& b == a.with_room(room_id, b.rooms[room_id])
    } else {
        b == a
    }
}

/// One turn of the loop that runs the game in a room: a step while the game is not over, and the
/// state for the clients. When the game is over they are told the winner, and the loop ends; it
/// also ends where there is no such room.
pub fn game_loop(
    app_state: &mut AppState,
    room_id: &String,
    now: u64,
    measured: &Measurements,
    velocities: &Vec<Velocity>,
) -> (r: Turn)
    requires
        old(app_state).wf(),
        old(app_state)@.has_room(room_id@) && !old(app_state)@.rooms[room_id@].game_over
            ==> can_step(
            old(app_state)@.rooms[room_id@],
            now as int,
            measured@,
            velocities@,
        ),
    ensures
        final(app_state).wf(),
        turned(
            old(app_state)@,
            final(app_state)@,
            room_id@,
            now as int,
            measured@,
            velocities@,
        ),
        r.goes_on == (old(app_state)@.has_room(room_id@) && !old(
            app_state,
        )@.rooms[room_id@].game_over),
        news(r.news) == state_news(final(app_state)@, room_id@),
        news(r.verdict) == if old(app_state)@.has_room(room_id@) && !r.goes_on {
            end_news(
                final(app_state)@,
                room_id@,
                winning_color(final(app_state)@.rooms[room_id@]),
            )
        } else {
            None
        },
{
    let ghost a = app_state@;
    let mut over = false;
    let mut known = false;
    if let Some(room) = app_state.rooms.get_mut(room_id) {
        known = true;
        if room.game_over {
            over = true;
        } else {
            update_game_state(room, now, measured, velocities);
        }
    }
    proof {
        if a.has_room(room_id@) {
            assert(app_state@ =~= a.with_room(room_id@, app_state@.rooms[room_id@]));
            assert(a =~= a.with_room(room_id@, a.rooms[room_id@]));
        } else {
            assert(app_state@ =~= a);
        }
    }
    let news = broadcast_game_state(app_state, room_id);
    let verdict = if over {
        match app_state.room(room_id) {
            Some(room) => {
                let color = winner_color(room);
                broadcast_game_over(app_state, room_id, color)
            },
            None => None,
        }
    } else {
        None
    };
    Turn { goes_on: known && !over, news, verdict }
}

} // verus!
