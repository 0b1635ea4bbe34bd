//! What holds of all rooms at once, whatever clients do and however long games run.

use super::soundness::{
    is_sound, law_fresh_room_is_sound, law_joining_keeps_sound,
    law_leaving_and_starting_keep_sound, law_placing_keeps_sound, law_steps_keep_sound,
};
use crate::measure::MeasurementsView;
use crate::messages::{BroadcastView, ClientMessage};
use crate::server::{reacted, turned, AppStateView};
use crate::session::{announced, served, EffectView, Event, StageView};
use crate::state::GameStateView;
use crate::update::launches::Velocity;
use vstd::prelude::*;

verus! {

/// Every room of the server is sound.
pub open spec fn all_sound(a: AppStateView) -> bool {
    forall|r: Seq<char>| #[trigger] a.rooms.dom().contains(r) ==> is_sound(a.rooms[r])
}

/// The player has a base on the canvas.
pub open spec fn has_base(s: GameStateView, player_id: Seq<char>) -> bool {
    exists|i: int| 0 <= i < s.bases.len() && (#[trigger] s.bases[i]).player_id == player_id
}

/// On a server without rooms every room is sound.
pub proof fn law_empty_server_is_sound(a: AppStateView)
    requires
        a.rooms == Map::<Seq<char>, GameStateView>::empty(),
    ensures
        all_sound(a),
{
}

/// Whatever comes in from a client, all rooms stay sound, as long as a player who joins does not
/// get the id of one who has a base in the room.
pub proof fn law_serving_keeps_all_sound(
    a: AppStateView,
    b: AppStateView,
    stage: StageView,
    event: Event,
    client: u64,
    now: int,
    next: StageView,
    effects: Seq<EffectView>,
)
    requires
        all_sound(a),
        served(a, b, stage, event, client, now, next, effects),
        match next {
            StageView::Joined { room_id, player_id } => stage is Waiting ==> !has_base(
                a.room_or_fresh(room_id, now),
                player_id,
            ),
            _ => true,
        },
    ensures
        all_sound(b),
{
    match stage {
        StageView::Waiting => {
            if next is Joined {
                let s = a.room_or_fresh(next->room_id, now);
                law_fresh_room_is_sound(now);
                law_joining_keeps_sound(s, next->player_id, now);
            }
        },
        StageView::Joined { room_id, player_id } => match event {
            Event::Message(message) => {
                let (starts, sent) = choose|starts: bool, sent: Option<BroadcastView>|
                    {
                        &&& #[trigger] reacted(
                            a,
                            b,
                            message,
                            room_id,
                            player_id,
                            now,
                            starts,
                            sent,
                        )
                        &&& effects == if starts {
                            seq![EffectView::RunGame(room_id)] + announced(sent)
                        } else {
                            announced(sent)
                        }
                    };
                assert(reacted(a, b, message, room_id, player_id, now, starts, sent));
                if a.has_room(room_id) {
                    let s = a.rooms[room_id];
                    law_leaving_and_starting_keep_sound(s, player_id);
                    match message {
                        ClientMessage::PlaceEmitter { x, y } => {
                            let id = b.rooms[room_id].emitters.last().id;
                            law_placing_keeps_sound(s, x, y, player_id, id, now);
                        },
                        _ => {},
                    }
                }
            },
            _ => {
                if a.has_room(room_id) {
                    law_leaving_and_starting_keep_sound(a.rooms[room_id], player_id);
                }
            },
        },
        StageView::Done => {},
    }
}

/// A turn of the game in a room keeps all rooms sound.
pub proof fn law_turns_keep_all_sound(
    a: AppStateView,
    b: AppStateView,
    room_id: Seq<char>,
    now: int,
    m: MeasurementsView,
    vs: Seq<Velocity>,
)
    requires
        all_sound(a),
        turned(a, b, room_id, now, m, vs),
    ensures
        all_sound(b),
{
    if a.has_room(room_id) && !a.rooms[room_id].game_over {
        law_steps_keep_sound(a.rooms[room_id], b.rooms[room_id], now, m, vs);
    }
}

/// The loop of a game is begun only for a room whose game has not started, and by then it has: with
/// the two laws below, it is begun once for each room.
pub proof fn law_a_game_is_run_once(
    a: AppStateView,
    b: AppStateView,
    stage: StageView,
    event: Event,
    client: u64,
    now: int,
    next: StageView,
    effects: Seq<EffectView>,
    room_id: Seq<char>,
)
    requires
        served(a, b, stage, event, client, now, next, effects),
        effects.contains(EffectView::RunGame(room_id)),
    ensures
        a.has_room(room_id) && !a.rooms[room_id].game_started,
        b.has_room(room_id) && b.rooms[room_id].game_started,
        stage is Joined && stage->room_id == room_id,
        a.rooms[room_id].host_id == Some(stage->player_id),
{
    let i = choose|i: int| 0 <= i < effects.len() && effects[i] == EffectView::RunGame(room_id);
    assert(effects[i] is RunGame);
    assert(stage is Joined && event is Message);
    let r = stage->room_id;
    let player_id = stage->player_id;
    let message = event->Message_0;
    let (starts, sent) = choose|starts: bool, sent: Option<BroadcastView>|
        {
            &&& #[trigger] reacted(a, b, message, r, player_id, now, starts, sent)
            &&& effects == if starts {
                seq![EffectView::RunGame(r)] + announced(sent)
            } else {
                announced(sent)
            }
        };
    assert(reacted(a, b, message, r, player_id, now, starts, sent));
}

/// A room is never closed; a game that has started stays started, and one that is over stays over.
pub proof fn law_games_do_not_go_back(
    a: AppStateView,
    b: AppStateView,
    stage: StageView,
    event: Event,
    client: u64,
    now: int,
    next: StageView,
    effects: Seq<EffectView>,
    room_id: Seq<char>,
)
    requires
        served(a, b, stage, event, client, now, next, effects),
        a.has_room(room_id),
    ensures
        b.has_room(room_id),
        a.rooms[room_id].game_started ==> b.rooms[room_id].game_started,
        b.rooms[room_id].game_over == a.rooms[room_id].game_over,
        b.rooms[room_id].winner_player_id == a.rooms[room_id].winner_player_id,
{
    if stage is Joined && event is Message {
        let r = stage->room_id;
        let player_id = stage->player_id;
        let message = event->Message_0;
        let (starts, sent) = choose|starts: bool, sent: Option<BroadcastView>|
            {
                &&& #[trigger] reacted(a, b, message, r, player_id, now, starts, sent)
                &&& effects == if starts {
                    seq![EffectView::RunGame(r)] + announced(sent)
                } else {
                    announced(sent)
                }
            };
        assert(reacted(a, b, message, r, player_id, now, starts, sent));
    }
}

/// Nor does a turn of a game close a room, or take back that a game has started or is over.
pub proof fn law_turns_do_not_go_back(
    a: AppStateView,
    b: AppStateView,
    room_id: Seq<char>,
    now: int,
    m: MeasurementsView,
    vs: Seq<Velocity>,
    other: Seq<char>,
)
    requires
        turned(a, b, room_id, now, m, vs),
        a.has_room(other),
    ensures
        b.has_room(other),
        b.rooms[other].game_started == a.rooms[other].game_started,
        a.rooms[other].game_over ==> b.rooms[other].game_over,
{
}

} // verus!
