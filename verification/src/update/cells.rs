//! Cells: where a point lies, and who owns what.

use crate::seqs::{first_where, lemma_first_where, views};
use crate::single::Single;
use crate::state::{Balloon, BalloonView, GridCell, GridCellView};
use vstd::prelude::*;

verus! {

/// The point lies in the cell; its left and upper edges belong to it.
pub open spec fn cell_holds(c: GridCellView, x: Single, y: Single) -> bool {
    &&& x.at_least(2 * c.x)
    &&& x.below(2 * (c.x + c.w))
    &&& y.at_least(2 * c.y)
    &&& y.below(2 * (c.y + c.h))
}

/// The first cell that holds the point.
pub open spec fn cell_at(grid: Seq<GridCellView>, x: Single, y: Single) -> Option<int> {
    first_where(grid, |c: GridCellView| cell_holds(c, x, y))
}

/// Finds the first cell that holds the point.
pub fn find_cell(grid: &Vec<GridCell>, x: Single, y: Single) -> (r: Option<usize>)
    ensures
        match r {
            Some(k) => cell_at(views(grid@), x, y) == Some(k as int) && k < grid@.len(),
            None => cell_at(views(grid@), x, y) == None::<int>,
        },
{
    let ghost g = views(grid@);
    let ghost p = |c: GridCellView| cell_holds(c, x, y);
    proof {
        lemma_first_where(g, p);
    }
    let mut k: usize = 0;
    while k < grid.len()
        invariant
            k <= grid@.len(),
            g == views(grid@),
            p == (|c: GridCellView| cell_holds(c, x, y)),
            forall|j: int| 0 <= j < k ==> !p(g[j]),
        decreases grid@.len() - k,
    {
        let c = &grid[k];
        assert(g[k as int] == c@);
        if x.ge_halves(2 * c.x as i32) && x.lt_halves(2 * (c.x as i32 + c.w as i32)) && y.ge_halves(
            2 * c.y as i32,
        ) && y.lt_halves(2 * (c.y as i32 + c.h as i32)) {
            proof {
                lemma_first_where(g, p);
                assert(p(g[k as int]));
            }
            return Some(k);
        }
        k = k + 1;
    }
    None
}

/// The grid once the first `n` balloons have each claimed the cell that they are in.
pub open spec fn claimed(grid: Seq<GridCellView>, bs: Seq<BalloonView>, n: int) -> Seq<GridCellView>
    decreases n,
{
    if n <= 0 {
        grid
    } else {
        let g = claimed(grid, bs, n - 1);
        match cell_at(g, bs[n - 1].x, bs[n - 1].y) {
            Some(k) => g.update(k, GridCellView { owner: Some(bs[n - 1].player_id), ..g[k] }),
            None => g,
        }
    }
}

/// Gives each cell with a balloon in it to the player of the last such balloon.
pub fn claim_cells(grid: &mut Vec<GridCell>, balloons: &Vec<Balloon>)
    ensures
        views(final(grid)@) == claimed(
            views(old(grid)@),
            views(balloons@),
            balloons@.len() as int,
        ),
{
    let ghost g = views(grid@);
    let ghost bs = views(balloons@);
    let mut i: usize = 0;
    while i < balloons.len()
        invariant
            i <= balloons@.len(),
            bs == views(balloons@),
            views(grid@) == claimed(g, bs, i as int),
        decreases balloons@.len() - i,
    {
        let b = &balloons[i];
        assert(bs[i as int] == b@);
        let ghost before = views(grid@);
        if let Some(k) = find_cell(grid, b.x, b.y) {
            grid[k].owner = Some(b.player_id.clone());
            assert(views(grid@) =~= before.update(
                k as int,
                GridCellView { owner: Some(b@.player_id), ..before[k as int] },
            ));
        }
        i = i + 1;
    }
}

} // verus!
