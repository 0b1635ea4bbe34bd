//! What a room holds: its players, balloons, grid, emitters and bases.
//!
//! Everything that stands still lies on whole numbers of canvas units, except for emitters,
//! which stand in the middle of a cell. Times are nanoseconds on a clock that the caller keeps.

use crate::seqs::views;
use crate::single::Single;
use vstd::prelude::*;

verus! {

pub const CANVAS_WIDTH: u16 = 800;

pub const CANVAS_HEIGHT: u16 = 600;

/// Cells along the width of the canvas.
pub const GRID_ROWS: u16 = 20;

/// Cells along the height of the canvas.
pub const GRID_COLS: u16 = 20;

/// Width of a grid cell.
pub const CELL_WIDTH: u16 = 40;

/// Height of a grid cell.
pub const CELL_HEIGHT: u16 = 30;

/// Someone in the room.
#[derive(Debug)]
pub struct Player {
    pub id: String,
    pub color: String,
    pub balloon_color: String,
}

/// A balloon on the canvas.
#[derive(Debug)]
pub struct Balloon {
    pub id: String,
    pub x: Single,
    pub y: Single,
    pub vx: Single,
    pub vy: Single,
    pub radius: u16,
    pub health: i32,
    pub player_id: String,
}

/// A cell of the grid, and the player who owns it.
#[derive(Debug)]
pub struct GridCell {
    pub x: u16,
    pub y: u16,
    pub w: u16,
    pub h: u16,
    pub owner: Option<String>,
}

/// A source of balloons that a player placed.
#[derive(Debug)]
pub struct Emitter {
    pub id: String,
    pub x: Single,
    pub y: Single,
    pub player_id: String,
    pub last_emit_time: u64,
    pub health: i32,
}

/// A player's base, a square around `(x, y)`.
#[derive(Debug)]
pub struct Base {
    pub x: u16,
    pub y: u16,
    pub player_id: String,
    pub health: i32,
    pub size: u16,
    pub last_emit_time: u64,
}

/// The state of one room.
#[derive(Debug)]
pub struct GameState {
    pub players: Vec<Player>,
    pub balloons: Vec<Balloon>,
    pub grid: Vec<GridCell>,
    pub emitters: Vec<Emitter>,
    pub bases: Vec<Base>,
    pub last_update: u64,
    pub game_over: bool,
    pub winner_player_id: Option<String>,
    pub host_id: Option<String>,
    pub game_started: bool,
}

pub struct PlayerView {
    pub id: Seq<char>,
    pub color: Seq<char>,
    pub balloon_color: Seq<char>,
}

pub struct BalloonView {
    pub id: Seq<char>,
    pub x: Single,
    pub y: Single,
    pub vx: Single,
    pub vy: Single,
    pub radius: int,
    pub health: int,
    pub player_id: Seq<char>,
}

pub struct GridCellView {
    pub x: int,
    pub y: int,
    pub w: int,
    pub h: int,
    pub owner: Option<Seq<char>>,
}

pub struct EmitterView {
    pub id: Seq<char>,
    pub x: Single,
    pub y: Single,
    pub player_id: Seq<char>,
    pub last_emit_time: int,
    pub health: int,
}

pub struct BaseView {
    pub x: int,
    pub y: int,
    pub player_id: Seq<char>,
    pub health: int,
    pub size: int,
    pub last_emit_time: int,
}

#[verifier::ext_equal]
pub struct GameStateView {
    pub players: Seq<PlayerView>,
    pub balloons: Seq<BalloonView>,
    pub grid: Seq<GridCellView>,
    pub emitters: Seq<EmitterView>,
    pub bases: Seq<BaseView>,
    pub last_update: int,
    pub game_over: bool,
    pub winner_player_id: Option<Seq<char>>,
    pub host_id: Option<Seq<char>>,
    pub game_started: bool,
}

/// The characters of an optional string.
pub open spec fn text(s: Option<String>) -> Option<Seq<char>> {
    match s {
        Some(t) => Some(t@),
        None => None,
    }
}

impl View for Player {
    type V = PlayerView;

    open spec fn view(&self) -> PlayerView {
        PlayerView { id: self.id@, color: self.color@, balloon_color: self.balloon_color@ }
    }
}

impl View for Balloon {
    type V = BalloonView;

    open spec fn view(&self) -> BalloonView {
        BalloonView {
            id: self.id@,
            x: self.x,
            y: self.y,
            vx: self.vx,
            vy: self.vy,
            radius: self.radius as int,
            health: self.health as int,
            player_id: self.player_id@,
        }
    }
}

impl View for GridCell {
    type V = GridCellView;

    open spec fn view(&self) -> GridCellView {
        GridCellView {
            x: self.x as int,
            y: self.y as int,
            w: self.w as int,
            h: self.h as int,
            owner: text(self.owner),
        }
    }
}

impl View for Emitter {
    type V = EmitterView;

    open spec fn view(&self) -> EmitterView {
        EmitterView {
            id: self.id@,
            x: self.x,
            y: self.y,
            player_id: self.player_id@,
            last_emit_time: self.last_emit_time as int,
            health: self.health as int,
        }
    }
}

impl View for Base {
    type V = BaseView;

    open spec fn view(&self) -> BaseView {
        BaseView {
            x: self.x as int,
            y: self.y as int,
            player_id: self.player_id@,
            health: self.health as int,
            size: self.size as int,
            last_emit_time: self.last_emit_time as int,
        }
    }
}

impl View for GameState {
    type V = GameStateView;

    open spec fn view(&self) -> GameStateView {
        GameStateView {
            players: views(self.players@),
            balloons: views(self.balloons@),
            grid: views(self.grid@),
            emitters: views(self.emitters@),
            bases: views(self.bases@),
            last_update: self.last_update as int,
            game_over: self.game_over,
            winner_player_id: text(self.winner_player_id),
            host_id: text(self.host_id),
            game_started: self.game_started,
        }
    }
}

impl Clone for Player {
    fn clone(&self) -> (r: Self)
        ensures
            r@ == self@,
    {
        Player {
            id: self.id.clone(),
            color: self.color.clone(),
            balloon_color: self.balloon_color.clone(),
        }
    }
}

impl Clone for Balloon {
    fn clone(&self) -> (r: Self)
        ensures
            r@ == self@,
    {
        Balloon {
            id: self.id.clone(),
            x: self.x,
            y: self.y,
            vx: self.vx,
            vy: self.vy,
            radius: self.radius,
            health: self.health,
            player_id: self.player_id.clone(),
        }
    }
}

impl Clone for GridCell {
    fn clone(&self) -> (r: Self)
        ensures
            r@ == self@,
    {
        GridCell { x: self.x, y: self.y, w: self.w, h: self.h, owner: self.owner.clone() }
    }
}

impl Clone for Emitter {
    fn clone(&self) -> (r: Self)
        ensures
            r@ == self@,
    {
        Emitter {
            id: self.id.clone(),
            x: self.x,
            y: self.y,
            player_id: self.player_id.clone(),
            last_emit_time: self.last_emit_time,
            health: self.health,
        }
    }
}

impl Clone for Base {
    fn clone(&self) -> (r: Self)
        ensures
            r@ == self@,
    {
        Base {
            x: self.x,
            y: self.y,
            player_id: self.player_id.clone(),
            health: self.health,
            size: self.size,
            last_emit_time: self.last_emit_time,
        }
    }
}

impl Clone for GameState {
    fn clone(&self) -> (r: Self)
        ensures
            r@ == self@,
    {
        let r = GameState {
            players: self.players.clone(),
            balloons: self.balloons.clone(),
            grid: self.grid.clone(),
            emitters: self.emitters.clone(),
            bases: self.bases.clone(),
            last_update: self.last_update,
            game_over: self.game_over,
            winner_player_id: self.winner_player_id.clone(),
            host_id: self.host_id.clone(),
            game_started: self.game_started,
        };
        assert(r@ =~= self@);
        r
    }
}

/// Cell number `n` of a fresh grid, counted down the columns from the left; nobody owns it.
pub open spec fn fresh_cell(n: int) -> GridCellView {
    GridCellView {
        x: (n / GRID_COLS as int) * CELL_WIDTH,
        y: (n % GRID_COLS as int) * CELL_HEIGHT,
        w: CELL_WIDTH as int,
        h: CELL_HEIGHT as int,
        owner: None,
    }
}

/// The grid of a fresh room.
pub open spec fn fresh_grid() -> Seq<GridCellView> {
    Seq::new((GRID_ROWS * GRID_COLS) as nat, |n: int| fresh_cell(n))
}

/// A room that was opened at `now` and that nobody has joined.
pub open spec fn fresh_state(now: int) -> GameStateView {
    GameStateView {
        players: Seq::empty(),
        balloons: Seq::empty(),
        grid: fresh_grid(),
        emitters: Seq::empty(),
        bases: Seq::empty(),
        last_update: now,
        game_over: false,
        winner_player_id: None,
        host_id: None,
        game_started: false,
    }
}

/// Opens a room at `now`: an unowned grid and nothing else.
pub fn init_game_state(now: u64) -> (r: GameState)
    ensures
        r@ == fresh_state(now as int),
{
    let mut grid: Vec<GridCell> = Vec::new();
    let mut i: u16 = 0;
    while i < GRID_ROWS
        invariant
            i <= GRID_ROWS,
            grid@.len() == i * GRID_COLS,
            forall|n: int| 0 <= n < grid@.len() ==> (#[trigger] grid@[n])@ == fresh_cell(n),
        decreases GRID_ROWS - i,
    {
        let mut j: u16 = 0;
        while j < GRID_COLS
            invariant
                i < GRID_ROWS,
                j <= GRID_COLS,
                grid@.len() == i * GRID_COLS + j,
                forall|n: int| 0 <= n < grid@.len() ==> (#[trigger] grid@[n])@ == fresh_cell(n),
            decreases GRID_COLS - j,
        {
            grid.push(
                GridCell {
                    x: i * CELL_WIDTH,
                    y: j * CELL_HEIGHT,
                    w: CELL_WIDTH,
                    h: CELL_HEIGHT,
                    owner: None,
                },
            );
            j = j + 1;
        }
        i = i + 1;
    }
    let r = GameState {
        players: Vec::new(),
        balloons: Vec::new(),
        grid,
        emitters: Vec::new(),
        bases: Vec::new(),
        last_update: now,
        game_over: false,
        winner_player_id: None,
        host_id: None,
        game_started: false,
    };
    assert(r@ =~= fresh_state(now as int));
    r
}

} // verus!
