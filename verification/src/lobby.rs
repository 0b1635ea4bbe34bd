//! Who is in a room: joining, leaving, hosting, and starting the game.

use crate::collision::removal::drop_players;
use crate::seqs::{first_where, lemma_first_where, views};
use crate::state::{
    Base, BaseView, GameState, GameStateView, Player, PlayerView, CANVAS_HEIGHT, CANVAS_WIDTH,
};
use vstd::prelude::*;

verus! {

pub const BASE_SIZE: u16 = 50;

pub const BASE_HEALTH: i32 = 100;

// Colors.

/// The colors of players and of their balloons, in the order in which they are handed out.
pub open spec fn palette() -> Seq<(Seq<char>, Seq<char>)> {
    seq![
        ("#8A2BE2"@, "#4B0082"@),
        ("#32CD32"@, "#006400"@),
        ("#FF0000"@, "#8B0000"@),
        ("#FFA500"@, "#FF8C00"@),
        ("#0000FF"@, "#00008B"@),
    ]
}

/// The colors for a player when all others are taken.
pub open spec fn default_colors() -> (Seq<char>, Seq<char>) {
    ("#FF0000"@, "#8B0000"@)
}

/// A player has that color.
pub open spec fn is_taken(players: Seq<PlayerView>, color: Seq<char>) -> bool {
    exists|i: int| 0 <= i < players.len() && (#[trigger] players[i]).color == color
}

/// The colors of the next player: the first of the palette that is free.
pub open spec fn next_colors(players: Seq<PlayerView>) -> (Seq<char>, Seq<char>) {
    match first_where(palette(), |c: (Seq<char>, Seq<char>)| !is_taken(players, c.0)) {
        Some(k) => palette()[k],
        None => default_colors(),
    }
}

fn palette_colors(k: usize) -> (r: (String, String))
    requires
        k < 5,
    ensures
        (r.0@, r.1@) == palette()[k as int],
{
    if k == 0 {
        ("#8A2BE2".to_owned(), "#4B0082".to_owned())
    } else if k == 1 {
        ("#32CD32".to_owned(), "#006400".to_owned())
    } else if k == 2 {
        ("#FF0000".to_owned(), "#8B0000".to_owned())
    } else if k == 3 {
        ("#FFA500".to_owned(), "#FF8C00".to_owned())
    } else {
        ("#0000FF".to_owned(), "#00008B".to_owned())
    }
}

fn color_taken(players: &Vec<Player>, color: &String) -> (r: bool)
    ensures
        r == is_taken(views(players@), color@),
{
    let mut i: usize = 0;
    while i < players.len()
        invariant
            i <= players@.len(),
            forall|j: int| 0 <= j < i ==> (#[trigger] views(players@)[j]).color != color@,
        decreases players@.len() - i,
    {
        assert(views(players@)[i as int] == players@[i as int]@);
        if players[i].color == *color {
            return true;
        }
        i = i + 1;
    }
    false
}

/// Picks the colors of the next player.
pub fn pick_colors(players: &Vec<Player>) -> (r: (String, String))
    ensures
        (r.0@, r.1@) == next_colors(views(players@)),
{
    let ghost ps = views(players@);
    let ghost p = |c: (Seq<char>, Seq<char>)| !is_taken(ps, c.0);
    proof {
        lemma_first_where(palette(), p);
    }
    let mut k: usize = 0;
    while k < 5
        invariant
            k <= 5,
            ps == views(players@),
            p == (|c: (Seq<char>, Seq<char>)| !is_taken(ps, c.0)),
            forall|j: int| 0 <= j < k ==> !p(palette()[j]),
        decreases 5 - k,
    {
        let colors = palette_colors(k);
        if !color_taken(players, &colors.0) {
            proof {
                lemma_first_where(palette(), p);
                assert(p(palette()[k as int]));
            }
            return colors;
        }
        k = k + 1;
    }
    ("#FF0000".to_owned(), "#8B0000".to_owned())
}

// Joining.

/// The middle of base number `n`: bottom left, top right, top left, bottom right, and round again.
pub open spec fn corner(n: int) -> (int, int) {
    let near = BASE_SIZE as int / 2;
    let far_x = CANVAS_WIDTH - near;
    let far_y = CANVAS_HEIGHT - near;
    if n % 4 == 0 {
        (near, far_y)
    } else if n % 4 == 1 {
        (far_x, near)
    } else if n % 4 == 2 {
        (near, near)
    } else {
        (far_x, far_y)
    }
}

fn corner_of(n: usize) -> (r: (u16, u16))
    ensures
        (r.0 as int, r.1 as int) == corner(n as int),
{
    let near: u16 = BASE_SIZE / 2;
    let far_x: u16 = CANVAS_WIDTH - near;
    let far_y: u16 = CANVAS_HEIGHT - near;
    if n % 4 == 0 {
        (near, far_y)
    } else if n % 4 == 1 {
        (far_x, near)
    } else if n % 4 == 2 {
        (near, near)
    } else {
        (far_x, far_y)
    }
}

/// The player who joins under that id.
pub open spec fn new_player(s: GameStateView, id: Seq<char>) -> PlayerView {
    let colors = next_colors(s.players);
    PlayerView { id, color: colors.0, balloon_color: colors.1 }
}

/// The base of the player who joins under that id at `now`.
pub open spec fn new_base(s: GameStateView, id: Seq<char>, now: int) -> BaseView {
    let at = corner(s.players.len() as int);
    BaseView {
        x: at.0,
        y: at.1,
        player_id: id,
        health: BASE_HEALTH as int,
        size: BASE_SIZE as int,
        last_emit_time: now,
    }
}

/// The room after a player has joined: one more player and one more base, and a host.
pub open spec fn joined(s: GameStateView, id: Seq<char>, now: int) -> GameStateView {
    GameStateView {
        players: s.players.push(new_player(s, id)),
        host_id: match s.host_id {
            Some(h) => Some(h),
            None => Some(id),
        },
        bases: s.bases.push(new_base(s, id, now)),
        ..s
    }
}

/// Lets a player join at `now`.
pub fn join(room: &mut GameState, player_id: &String, now: u64)
    ensures
        final(room)@ == joined(old(room)@, player_id@, now as int),
{
    let ghost s = room@;
    let (color, balloon_color) = pick_colors(&room.players);
    let (x, y) = corner_of(room.players.len());
    room.players.push(Player { id: player_id.clone(), color, balloon_color });
    if room.host_id.is_none() {
        room.host_id = Some(player_id.clone());
    }
    room.bases.push(
        Base {
            x,
            y,
            player_id: player_id.clone(),
            health: BASE_HEALTH,
            size: BASE_SIZE,
            last_emit_time: now,
        },
    );
    assert(room@ =~= joined(s, player_id@, now as int));
}

// Leaving.

/// The room after a player has left: gone from the list, and where that was the host, the first
/// player left is host, if any. What the player has on the canvas stays.
pub open spec fn departed(s: GameStateView, id: Seq<char>) -> GameStateView {
    let players = s.players.filter(|p: PlayerView| p.id != id);
    GameStateView {
        players,
        host_id: if s.host_id == Some(id) {
            if players.len() > 0 {
                Some(players[0].id)
            } else {
                None
            }
        } else {
            s.host_id
        },
        ..s
    }
}

/// Whether the player of that id is the host.
pub fn is_host(room: &GameState, player_id: &String) -> (r: bool)
    ensures
        r == (room@.host_id == Some(player_id@)),
{
    match &room.host_id {
        Some(h) => *h == *player_id,
        None => false,
    }
}

/// Lets a player leave.
pub fn leave(room: &mut GameState, player_id: &String)
    ensures
        final(room)@ == departed(old(room)@, player_id@),
{
    let ghost s = room@;
    let was_host = is_host(room, player_id);
    drop_players(&mut room.players, player_id);
    if was_host {
        if room.players.len() > 0 {
            assert(room@.players[0] == room.players@[0]@);
            room.host_id = Some(room.players[0].id.clone());
        } else {
            room.host_id = None;
        }
    }
    assert(room@ =~= departed(s, player_id@));
}

// Starting.

/// That player may start the game: it is the host, and the game has not started yet.
pub open spec fn may_start(s: GameStateView, id: Seq<char>) -> bool {
    s.host_id == Some(id) && !s.game_started
}

/// The room after the player has asked to start the game.
pub open spec fn started(s: GameStateView, id: Seq<char>) -> GameStateView {
    GameStateView { game_started: s.game_started || may_start(s, id), ..s }
}

/// Starts the game where the player may; says whether it did.
pub fn start(room: &mut GameState, player_id: &String) -> (r: bool)
    ensures
        r == may_start(old(room)@, player_id@),
        final(room)@ == started(old(room)@, player_id@),
{
    if is_host(room, player_id) && !room.game_started {
        room.game_started = true;
        true
    } else {
        false
    }
}

// The end of the game.

/// The color to announce as the winner's: of the player who won, or what stands for none.
pub open spec fn winning_color(s: GameStateView) -> Seq<char> {
    match s.winner_player_id {
        Some(id) => match first_where(s.players, |p: PlayerView| p.id == id) {
            Some(k) => s.players[k].color,
            None => "Unknown"@,
        },
        None => "Draw"@,
    }
}

/// The color to announce as the winner's.
pub fn winner_color(room: &GameState) -> (r: String)
    ensures
        r@ == winning_color(room@),
{
    match &room.winner_player_id {
        Some(id) => {
            let ghost ps = room@.players;
            let ghost p = |p: PlayerView| p.id == id@;
            proof {
                lemma_first_where(ps, p);
            }
            let mut k: usize = 0;
            while k < room.players.len()
                invariant
                    k <= room.players@.len(),
                    ps == views(room.players@),
                    p == (|p: PlayerView| p.id == id@),
                    ps == room@.players,
                    room@.winner_player_id == Some(id@),
                    forall|j: int| 0 <= j < k ==> !p(ps[j]),
                decreases room.players@.len() - k,
            {
                assert(ps[k as int] == room.players@[k as int]@);
                if room.players[k].id == *id {
                    proof {
                        lemma_first_where(ps, p);
                        assert(p(ps[k as int]));
                    }
                    return room.players[k].color.clone();
                }
                k = k + 1;
            }
            "Unknown".to_owned()
        },
        None => "Draw".to_owned(),
    }
}

} // verus!
