//! What clients and the server say to each other.

use crate::seqs::views;
use crate::single::Single;
use crate::state::{text, GameState, GameStateView, Player, PlayerView};
use vstd::prelude::*;

verus! {

/// A message from a client.
#[derive(Debug)]
pub enum ClientMessage {
    JoinRoom { room_id: String },
    PlaceEmitter { x: Single, y: Single },
    StartGame,
}

/// A message to clients.
#[derive(Debug)]
pub enum ServerMessage {
    JoinedRoom { room_id: String, player_id: String },
    GameState(GameState),
    GameOver { winner_color: String },
    PlayerList { players: Vec<Player>, host_id: Option<String> },
}

pub enum ServerMessageView {
    JoinedRoom { room_id: Seq<char>, player_id: Seq<char> },
    GameState(GameStateView),
    GameOver { winner_color: Seq<char> },
    PlayerList { players: Seq<PlayerView>, host_id: Option<Seq<char>> },
}

impl View for ServerMessage {
    type V = ServerMessageView;

    open spec fn view(&self) -> ServerMessageView {
        match self {
            ServerMessage::JoinedRoom { room_id, player_id } => ServerMessageView::JoinedRoom {
                room_id: room_id@,
                player_id: player_id@,
            },
            ServerMessage::GameState(state) => ServerMessageView::GameState(state@),
            ServerMessage::GameOver { winner_color } => ServerMessageView::GameOver {
                winner_color: winner_color@,
            },
            ServerMessage::PlayerList { players, host_id } => ServerMessageView::PlayerList {
                players: views(players@),
                host_id: text(*host_id),
            },
        }
    }
}

/// A message and the clients that it goes to.
#[derive(Debug)]
pub struct Broadcast {
    pub message: ServerMessage,
    pub to: Vec<u64>,
}

pub struct BroadcastView {
    pub message: ServerMessageView,
    pub to: Seq<u64>,
}

impl View for Broadcast {
    type V = BroadcastView;

    open spec fn view(&self) -> BroadcastView {
        BroadcastView { message: self.message@, to: self.to@ }
    }
}

} // verus!
