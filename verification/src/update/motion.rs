//! Moving the balloons.

use crate::measure::Motion;
use crate::seqs::views;
use crate::state::{Balloon, BalloonView, CANVAS_HEIGHT, CANVAS_WIDTH};
use vstd::prelude::*;

verus! {

/// The balloon where its motion takes it, turned back on each axis on which it sticks out of the
/// canvas.
pub open spec fn moved(b: BalloonView, m: Motion) -> BalloonView {
    BalloonView {
        x: m.x,
        y: m.y,
        vx: if m.extent.left.below(0) || m.extent.right.above(2 * CANVAS_WIDTH) {
            b.vx.negated()
        } else {
            b.vx
        },
        vy: if m.extent.top.below(0) || m.extent.bottom.above(2 * CANVAS_HEIGHT) {
            b.vy.negated()
        } else {
            b.vy
        },
        ..b
    }
}

pub open spec fn all_moved(bs: Seq<BalloonView>, ms: Seq<Motion>) -> Seq<BalloonView> {
    Seq::new(bs.len(), |i: int| moved(bs[i], ms[i]))
}

/// Moves every balloon.
pub fn move_balloons(balloons: &mut Vec<Balloon>, motions: &Vec<Motion>)
    requires
        motions@.len() == old(balloons)@.len(),
    ensures
        views(final(balloons)@) == all_moved(views(old(balloons)@), motions@),
{
    let n: usize = balloons.len();
    let ghost bs = views(balloons@);
    let mut i: usize = 0;
    while i < n
        invariant
            i <= n,
            n == balloons@.len() == bs.len() == motions@.len(),
            forall|b: int|
                0 <= b < n ==> #[trigger] balloons@[b]@ == (if b < i {
                    moved(bs[b], motions@[b])
                } else {
                    bs[b]
                }),
        decreases n - i,
    {
        let m = motions[i];
        let ghost before = balloons@;
        assert(before[i as int]@ == bs[i as int]);
        balloons[i].x = m.x;
        balloons[i].y = m.y;
        if m.extent.left.lt_halves(0) || m.extent.right.gt_halves(2 * CANVAS_WIDTH as i32) {
            balloons[i].vx = balloons[i].vx.neg();
        }
        if m.extent.top.lt_halves(0) || m.extent.bottom.gt_halves(2 * CANVAS_HEIGHT as i32) {
            balloons[i].vy = balloons[i].vy.neg();
        }
        assert forall|b: int| 0 <= b < n && b != i implies #[trigger] balloons@[b] == before[b] by {
        }
        i = i + 1;
    }
    assert(views(balloons@) =~= all_moved(bs, motions@));
}

} // verus!
