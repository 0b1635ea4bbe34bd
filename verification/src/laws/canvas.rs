//! The canvas, its grid, and who owns the cells.

use super::numbers::law_half_numbers;
use super::running::{law_cell_of_a_point, lies_in};
use crate::emitters::{placed, spot};
use crate::seqs::lemma_first_where;
use crate::single::{half, halves_of, lemma_halves_exist, Single};
use crate::state::{
    fresh_cell, fresh_grid, fresh_state, BalloonView, GameStateView, GridCellView, CANVAS_HEIGHT,
    CANVAS_WIDTH,
};
use crate::update::cells::{cell_at, cell_holds, claimed};
use vstd::arithmetic::power2::{lemma_pow2_pos, pow2};
use vstd::prelude::*;

verus! {

/// The point lies on the canvas; its left and upper edges belong to it.
pub open spec fn on_canvas(x: Single, y: Single) -> bool {
    &&& x.at_least(0)
    &&& x.below(2 * CANVAS_WIDTH)
    &&& y.at_least(0)
    &&& y.below(2 * CANVAS_HEIGHT)
}

/// Which of the strips of width `w / 2` a number lies in.
proof fn lemma_strip(x: Single, w: int, n: int) -> (i: int)
    requires
        0 < w,
        x.at_least(0),
        x.below(n * w),
    ensures
        0 <= i < n,
        x.at_least(i * w),
        x.below((i + 1) * w),
{
    lemma_pow2_pos(148);
    let v = x.value();
    let u = w * half();
    assert(u > 0) by (nonlinear_arith)
        requires
            u == w * half(),
            w > 0,
            half() > 0,
    ;
    let i = v / u;
    assert(i * u <= v < (i + 1) * u && 0 <= i) by (nonlinear_arith)
        requires
            u > 0,
            v >= 0,
            i == v / u,
    ;
    assert(i < n) by (nonlinear_arith)
        requires
            i * u <= v,
            v < (n * w) * half(),
            u == w * half(),
            u > 0,
    ;
    assert(i * u == (i * w) * half()) by (nonlinear_arith)
        requires
            u == w * half(),
    ;
    assert((i + 1) * u == ((i + 1) * w) * half()) by (nonlinear_arith)
        requires
            u == w * half(),
    ;
    i
}

/// A number lies in one strip only.
proof fn lemma_one_strip(x: Single, w: int, i: int, j: int)
    requires
        0 < w,
        x.at_least(i * w),
        x.below((i + 1) * w),
        x.at_least(j * w),
        x.below((j + 1) * w),
    ensures
        i == j,
{
    lemma_pow2_pos(148);
    let v = x.value();
    let h = half();
    assert(i < j + 1 && j < i + 1) by (nonlinear_arith)
        requires
            (i * w) * h <= v,
            v < ((i + 1) * w) * h,
            (j * w) * h <= v,
            v < ((j + 1) * w) * h,
            w > 0,
            h > 0,
    ;
}

/// The cells tile the canvas: a point of the canvas lies in one cell of a fresh grid and in no
/// other, and a point off the canvas in none.
pub proof fn law_cells_tile_the_canvas(x: Single, y: Single, a: int, b: int)
    requires
        0 <= a < fresh_grid().len(),
        0 <= b < fresh_grid().len(),
    ensures
        cell_at(fresh_grid(), x, y) is Some <==> on_canvas(x, y),
        cell_holds(fresh_grid()[a], x, y) && cell_holds(fresh_grid()[b], x, y) ==> a == b,
{
    let grid = fresh_grid();
    let p = |c: GridCellView| cell_holds(c, x, y);
    lemma_first_where(grid, p);
    if on_canvas(x, y) {
        let i = lemma_strip(x, 80, 20);
        let j = lemma_strip(y, 60, 20);
        let n = 20 * i + j;
        assert(n / 20 == i && n % 20 == j);
        assert(grid[n] == fresh_cell(n));
        assert(p(grid[n]));
    }
    if cell_at(grid, x, y) is Some {
        let n = cell_at(grid, x, y)->0;
        assert(grid[n] == fresh_cell(n));
        let i = n / 20;
        let j = n % 20;
        lemma_within(x, 80 * i, 1600);
        lemma_within(y, 60 * j, 1200);
    }
    if cell_holds(grid[a], x, y) && cell_holds(grid[b], x, y) {
        assert(grid[a] == fresh_cell(a) && grid[b] == fresh_cell(b));
        lemma_one_strip(x, 80, a / 20, b / 20);
        lemma_one_strip(y, 60, a % 20, b % 20);
    }
}

proof fn lemma_within(x: Single, lo: int, hi: int)
    requires
        0 <= lo,
        x.at_least(lo),
    ensures
        x.at_least(0),
        forall|n: int| n <= hi && #[trigger] x.below(n) ==> x.below(hi),
{
    lemma_pow2_pos(148);
    let h = half();
    assert(0 <= lo * h) by (nonlinear_arith)
        requires
            lo >= 0,
            h > 0,
    ;
    assert forall|n: int| n <= hi && #[trigger] x.below(n) implies x.below(hi) by {
        assert(n * h <= hi * h) by (nonlinear_arith)
            requires
                n <= hi,
                h > 0,
        ;
    }
}

/// The last of the first `n` balloons that is in cell `k`.
pub open spec fn last_in(
    grid: Seq<GridCellView>,
    bs: Seq<BalloonView>,
    k: int,
    n: int,
) -> Option<int>
    decreases n,
{
    if n <= 0 {
        None
    } else if cell_at(grid, bs[n - 1].x, bs[n - 1].y) == Some(k) {
        Some(n - 1)
    } else {
        last_in(grid, bs, k, n - 1)
    }
}

/// Cells that lie alike.
pub open spec fn lies_alike(a: Seq<GridCellView>, b: Seq<GridCellView>) -> bool {
    &&& a.len() == b.len()
    &&& forall|k: int|
        0 <= k < a.len() ==> (GridCellView { owner: None, ..#[trigger] a[k] }) == (GridCellView {
            owner: None,
            ..b[k]
        })
}

proof fn lemma_cell_at_alike(a: Seq<GridCellView>, b: Seq<GridCellView>, x: Single, y: Single)
    requires
        lies_alike(a, b),
    ensures
        cell_at(a, x, y) == cell_at(b, x, y),
{
    let p = |c: GridCellView| cell_holds(c, x, y);
    lemma_first_where(a, p);
    lemma_first_where(b, p);
    assert forall|k: int| 0 <= k < a.len() implies p(#[trigger] a[k]) == p(b[k]) by {
        assert((GridCellView { owner: None, ..a[k] }) == (GridCellView { owner: None, ..b[k] }));
    }
    match (cell_at(a, x, y), cell_at(b, x, y)) {
        (Some(i), Some(j)) => {
            assert(p(a[i]) && p(a[j]));
            if i < j {
                assert(!p(b[i]));
            } else if j < i {
                assert(!p(a[j]));
            }
        },
        (Some(i), None) => {
            assert(p(a[i]));
        },
        (None, Some(j)) => {
            assert(p(a[j]) == p(b[j]));
        },
        (None, None) => {},
    }
}

/// A cell belongs to the player of the last balloon in it; a cell without a balloon keeps its
/// owner; and no cell moves.
pub proof fn law_last_balloon_claims(
    grid: Seq<GridCellView>,
    bs: Seq<BalloonView>,
    n: int,
    k: int,
)
    requires
        0 <= n <= bs.len(),
        0 <= k < grid.len(),
    ensures
        lies_alike(grid, claimed(grid, bs, n)),
        claimed(grid, bs, n)[k].owner == match last_in(grid, bs, k, n) {
            Some(i) => Some(bs[i].player_id),
            None => grid[k].owner,
        },
    decreases n,
{
    if n > 0 {
        law_last_balloon_claims(grid, bs, n - 1, k);
        let g = claimed(grid, bs, n - 1);
        let b = bs[n - 1];
        lemma_cell_at_alike(grid, g, b.x, b.y);
        lemma_first_where(g, |c: GridCellView| cell_holds(c, b.x, b.y));
        assert forall|j: int| 0 <= j < grid.len() implies (GridCellView {
            owner: None,
            ..#[trigger] grid[j]
        }) == (GridCellView { owner: None, ..claimed(grid, bs, n)[j] }) by {
            assert((GridCellView { owner: None, ..grid[j] }) == (GridCellView {
                owner: None,
                ..g[j]
            }));
        }
    }
}

/// Nothing is placed before the game has started, nor on a cell that the player does not own. What
/// is placed stands in the cell that holds the point.
pub proof fn law_emitters_stand_in_own_cells(
    s: GameStateView,
    x: Single,
    y: Single,
    player_id: Seq<char>,
    id: Seq<char>,
    now: int,
)
    requires
        lies_alike(fresh_grid(), s.grid),
    ensures
        !s.game_started ==> placed(s, x, y, player_id, id, now) == s,
        match spot(s, x, y, player_id) {
            Some(k) => {
                let e = placed(s, x, y, player_id, id, now).emitters.last();
                &&& 0 <= k < s.grid.len()
                &&& s.grid[k].owner == Some(player_id)
                &&& cell_holds(s.grid[k], x, y)
                &&& cell_holds(s.grid[k], e.x, e.y)
                &&& e.player_id == player_id
            },
            None => placed(s, x, y, player_id, id, now) == s,
        },
{
    let p = |c: GridCellView| cell_holds(c, x, y);
    lemma_first_where(s.grid, p);
    if spot(s, x, y, player_id) is Some {
        let k = spot(s, x, y, player_id)->0;
        let c = s.grid[k];
        assert(p(c));
        assert((GridCellView { owner: None, ..fresh_grid()[k] }) == (GridCellView {
            owner: None,
            ..s.grid[k]
        }));
        assert(fresh_grid()[k] == fresh_cell(k));
        lemma_middle(c.x, c.w);
        lemma_middle(c.y, c.h);
    }
}

proof fn lemma_middle(x: int, w: int)
    requires
        0 <= x <= CANVAS_WIDTH,
        0 < w <= CANVAS_WIDTH,
    ensures
        halves_of(2 * x + w).at_least(2 * x),
        halves_of(2 * x + w).below(2 * (x + w)),
{
    let n = 2 * x + w;
    lemma_halves_exist(n);
    lemma_pow2_pos(148);
    let h = half();
    assert((2 * x) * h <= n * h < (2 * (x + w)) * h) by (nonlinear_arith)
        requires
            n == 2 * x + w,
            w > 0,
            h > 0,
    ;
}

/// A fresh room is empty but for its grid of twenty by twenty cells, forty wide and thirty high,
/// that nobody owns: no players, no host, nothing on the canvas, no game.
pub proof fn law_fresh_rooms(now: int, i: int, j: int)
    ensures
        fresh_state(now).players.len() == 0,
        fresh_state(now).balloons.len() == 0,
        fresh_state(now).emitters.len() == 0,
        fresh_state(now).bases.len() == 0,
        fresh_state(now).grid.len() == 400,
        0 <= i < 20 && 0 <= j < 20 ==> {
            let c = fresh_state(now).grid[20 * i + j];
            c.x == 40 * i && c.y == 30 * j && c.w == 40 && c.h == 30 && c.owner is None
        },
        fresh_state(now).last_update == now,
        !fresh_state(now).game_over,
        !fresh_state(now).game_started,
        fresh_state(now).winner_player_id is None,
        fresh_state(now).host_id is None,
{
    if 0 <= i < 20 && 0 <= j < 20 {
        let n = 20 * i + j;
        assert(n / 20 == i && n % 20 == j);
        assert(fresh_grid()[n] == fresh_cell(n));
    }
}

/// Where the game has started and the player owns the cell in which the point lies, a click places
/// one emitter more: of that player, in the middle of the cell, with three health and that id, to
/// launch from then on. Nothing else changes.
pub proof fn law_placing(
    s: GameStateView,
    x: Single,
    y: Single,
    player_id: Seq<char>,
    id: Seq<char>,
    now: int,
    k: int,
)
    requires
        s.game_started,
        lies_in(s.grid, k, x, y),
        s.grid[k].owner == Some(player_id),
        0 <= s.grid[k].x < 0x1_0000,
        0 <= s.grid[k].y < 0x1_0000,
        0 <= s.grid[k].w < 0x1_0000,
        0 <= s.grid[k].h < 0x1_0000,
    ensures
        spot(s, x, y, player_id) == Some(k),
        ({
            let t = placed(s, x, y, player_id, id, now);
            let e = t.emitters[s.emitters.len() as int];
            let c = s.grid[k];
            &&& t.emitters.len() == s.emitters.len() + 1
            &&& forall|i: int|
                0 <= i < s.emitters.len() ==> #[trigger] t.emitters[i] == s.emitters[i]
            &&& e.id == id
            &&& e.player_id == player_id
            &&& e.health == 3
            &&& e.last_emit_time == now
            &&& !e.x.is_nan() && e.x.value() == (2 * c.x + c.w) * pow2(148)
            &&& !e.y.is_nan() && e.y.value() == (2 * c.y + c.h) * pow2(148)
            &&& t.players == s.players
            &&& t.balloons == s.balloons
            &&& t.grid == s.grid
            &&& t.bases == s.bases
            &&& t.last_update == s.last_update
            &&& t.game_over == s.game_over
            &&& t.winner_player_id == s.winner_player_id
            &&& t.host_id == s.host_id
            &&& t.game_started == s.game_started
        }),
{
    law_cell_of_a_point(s.grid, x, y, k);
    law_half_numbers(2 * s.grid[k].x + s.grid[k].w, x);
    law_half_numbers(2 * s.grid[k].y + s.grid[k].h, x);
}

/// In all other cases a click changes nothing: before the start, off the grid, and on a cell that
/// belongs to another player or to nobody.
pub proof fn law_placing_nothing(
    s: GameStateView,
    x: Single,
    y: Single,
    player_id: Seq<char>,
    id: Seq<char>,
    now: int,
)
    requires
        !s.game_started || forall|k: int|
            #[trigger] lies_in(s.grid, k, x, y) ==> s.grid[k].owner != Some(player_id),
    ensures
        spot(s, x, y, player_id) is None,
        placed(s, x, y, player_id, id, now) == s,
{
    if cell_at(s.grid, x, y) is Some {
        let k = cell_at(s.grid, x, y)->0;
        law_cell_of_a_point(s.grid, x, y, k);
        assert(lies_in(s.grid, k, x, y));
    }
}

} // verus!
