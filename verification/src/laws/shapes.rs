//! What the views of things hold: everything that the things hold.

use crate::messages::{Broadcast, ServerMessage};
use crate::seqs::views;
use crate::session::{Effect, Stage};
use crate::state::{text, Balloon, Base, Emitter, GameState, GridCell, Player};
use crate::update::launches::Launch;
use vstd::prelude::*;

verus! {

/// A list is seen item by item.
pub proof fn law_lists_are_seen_whole<T: View>(s: Seq<T>, i: int)
    ensures
        views(s).len() == s.len(),
        0 <= i < s.len() ==> views(s)[i] == s[i]@,
{
}

/// A room is seen with everything in it.
pub proof fn law_rooms_are_seen_whole(g: GameState)
    ensures
        g@.players == views(g.players@),
        g@.balloons == views(g.balloons@),
        g@.grid == views(g.grid@),
        g@.emitters == views(g.emitters@),
        g@.bases == views(g.bases@),
        g@.last_update == g.last_update,
        g@.game_over == g.game_over,
        g@.game_started == g.game_started,
        g@.winner_player_id is Some <==> g.winner_player_id is Some,
        g.winner_player_id is Some ==> g@.winner_player_id->0 == g.winner_player_id->0@,
        g@.host_id is Some <==> g.host_id is Some,
        g.host_id is Some ==> g@.host_id->0 == g.host_id->0@,
{
}

/// So is each thing in it.
pub proof fn law_things_are_seen_whole(
    p: Player,
    b: Balloon,
    c: GridCell,
    e: Emitter,
    base: Base,
    l: Launch,
)
    ensures
        p@.id == p.id@ && p@.color == p.color@ && p@.balloon_color == p.balloon_color@,
        b@.id == b.id@ && b@.x == b.x && b@.y == b.y && b@.vx == b.vx && b@.vy == b.vy,
        b@.radius == b.radius && b@.health == b.health && b@.player_id == b.player_id@,
        c@.x == c.x && c@.y == c.y && c@.w == c.w && c@.h == c.h,
        c@.owner is Some <==> c.owner is Some,
        c.owner is Some ==> c@.owner->0 == c.owner->0@,
        e@.id == e.id@ && e@.x == e.x && e@.y == e.y && e@.player_id == e.player_id@,
        e@.last_emit_time == e.last_emit_time && e@.health == e.health,
        base@.x == base.x && base@.y == base.y && base@.player_id == base.player_id@,
        base@.health == base.health && base@.size == base.size,
        base@.last_emit_time == base.last_emit_time,
        l@.id == l.id@ && l@.vx == l.vx && l@.vy == l.vy,
{
}

/// What is sent is seen whole.
pub proof fn law_messages_are_seen_whole(b: Broadcast, m: ServerMessage)
    ensures
        b@.message == b.message@ && b@.to == b.to@,
        match m {
            ServerMessage::JoinedRoom { room_id, player_id } => m@ is JoinedRoom && m@->room_id
                == room_id@ && m@->player_id == player_id@,
            ServerMessage::GameState(g) => m@ is GameState && m@->GameState_0 == g@,
            ServerMessage::GameOver { winner_color } => m@ is GameOver && m@->winner_color
                == winner_color@,
            ServerMessage::PlayerList { players, host_id } => m@ is PlayerList && m@->players
                == views(players@) && m@->host_id == text(host_id),
        },
{
}

/// A connection's stage and what is to be done for it are seen whole.
pub proof fn law_effects_are_seen_whole(e: Effect, stage: Stage)
    ensures
        match e {
            Effect::Close => e@ is Close,
            Effect::Tell(m) => e@ is Tell && e@->Tell_0 == m@,
            Effect::Announce(b) => e@ is Announce && e@->Announce_0 == b@,
            Effect::RunGame(r) => e@ is RunGame && e@->RunGame_0 == r@,
        },
        match stage {
            Stage::Waiting => stage@ is Waiting,
            Stage::Joined { room_id, player_id } => stage@ is Joined && stage@->room_id == room_id@
                && stage@->player_id == player_id@,
            Stage::Done => stage@ is Done,
        },
{
}

} // verus!
