//! Placing emitters.

use crate::ids::{fresh_id, is_random_id};
use crate::single::{halves_of, Single};
use crate::state::{Emitter, EmitterView, GameState, GameStateView, GridCellView};
use crate::update::cells::{cell_at, find_cell};
use vstd::prelude::*;

verus! {

pub const EMITTER_HEALTH: i32 = 3;

/// The cell on which that player can place an emitter with a click at `(x, y)`: the one that holds
/// the point, where the player owns it and the game has started.
pub open spec fn spot(s: GameStateView, x: Single, y: Single, player_id: Seq<char>) -> Option<int> {
    if !s.game_started {
        None
    } else {
        match cell_at(s.grid, x, y) {
            Some(k) => if s.grid[k].owner == Some(player_id) {
                Some(k)
            } else {
                None
            },
            None => None,
        }
    }
}

/// A new emitter in the middle of the cell.
pub open spec fn new_emitter(c: GridCellView, player_id: Seq<char>, id: Seq<char>, now: int) -> EmitterView {
    EmitterView {
        id,
        x: halves_of(2 * c.x + c.w),
        y: halves_of(2 * c.y + c.h),
        player_id,
        last_emit_time: now,
        health: EMITTER_HEALTH as int,
    }
}

/// The room after the player has clicked at `(x, y)`, where an emitter placed gets that id.
pub open spec fn placed(
    s: GameStateView,
    x: Single,
    y: Single,
    player_id: Seq<char>,
    id: Seq<char>,
    now: int,
) -> GameStateView {
    match spot(s, x, y, player_id) {
        Some(k) => GameStateView {
            emitters: s.emitters.push(new_emitter(s.grid[k], player_id, id, now)),
            ..s
        },
        None => s,
    }
}

/// Finds the cell on which the player can place an emitter.
pub fn find_spot(room: &GameState, x: Single, y: Single, player_id: &String) -> (r: Option<usize>)
    ensures
        match r {
            Some(k) => spot(room@, x, y, player_id@) == Some(k as int) && k < room.grid@.len(),
            None => spot(room@, x, y, player_id@) == None::<int>,
        },
{
    if !room.game_started {
        return None;
    }
    match find_cell(&room.grid, x, y) {
        Some(k) => {
            assert(room@.grid[k as int] == room.grid@[k as int]@);
            match &room.grid[k].owner {
                Some(owner) => if *owner == *player_id {
                    Some(k)
                } else {
                    None
                },
                None => None,
            }
        },
        None => None,
    }
}

/// Places an emitter with that id on cell `k`.
pub fn add_emitter(room: &mut GameState, k: usize, player_id: &String, id: String, now: u64)
    requires
        k < old(room)@.grid.len(),
    ensures
        final(room)@ == (GameStateView {
            emitters: old(room)@.emitters.push(
                new_emitter(old(room)@.grid[k as int], player_id@, id@, now as int),
            ),
            ..old(room)@
        }),
{
    let ghost s = room@;
    assert(s.grid[k as int] == room.grid@[k as int]@);
    let x = Single::halves(2 * room.grid[k].x as i32 + room.grid[k].w as i32);
    let y = Single::halves(2 * room.grid[k].y as i32 + room.grid[k].h as i32);
    let emitter = Emitter {
        id,
        x,
        y,
        player_id: player_id.clone(),
        last_emit_time: now,
        health: EMITTER_HEALTH,
    };
    room.emitters.push(emitter);
    assert(room@.emitters =~= s.emitters.push(
        new_emitter(s.grid[k as int], player_id@, id@, now as int),
    ));
}

/// Places an emitter, with a random id, where the player has clicked, if the player can.
pub fn place_emitter(room: &mut GameState, x: Single, y: Single, player_id: &String, now: u64)
    ensures
        spot(old(room)@, x, y, player_id@) is None ==> final(room)@ == old(room)@,
        spot(old(room)@, x, y, player_id@) is Some ==> {
            let id = final(room)@.emitters.last().id;
            &&& is_random_id(id)
            &&& final(room)@ == placed(old(room)@, x, y, player_id@, id, now as int)
        },
{
    match find_spot(room, x, y, player_id) {
        Some(k) => add_emitter(room, k, player_id, fresh_id(), now),
        None => {},
    }
}

} // verus!
