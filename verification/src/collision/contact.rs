//! Who overlaps whom.

use crate::measure::Extent;
use crate::single::Single;
use crate::state::{Balloon, Base, BaseView};
use vstd::prelude::*;

verus! {

/// Two circles whose centres are `distance` apart overlap.
pub open spec fn circles_meet(distance: Single, r1: int, r2: int) -> bool {
    distance.below(2 * (r1 + r2))
}

/// Whether two circles overlap, given the distance of their centres.
pub fn circle_collision(distance: Single, r1: u16, r2: u16) -> (r: bool)
    ensures
        r == circles_meet(distance, r1 as int, r2 as int),
{
    distance.lt_halves(2 * (r1 as i32 + r2 as i32))
}

/// Whether two balloons overlap, given the distance of their centres.
pub fn check_collision(balloon_a: &Balloon, balloon_b: &Balloon, distance: Single) -> (r: bool)
    ensures
        r == circles_meet(distance, balloon_a@.radius, balloon_b@.radius),
{
    circle_collision(distance, balloon_a.radius, balloon_b.radius)
}

/// The square of a balloon reaches into the base.
pub open spec fn square_meets(extent: Extent, base: BaseView) -> bool {
    &&& extent.right.above(2 * base.x - base.size)
    &&& extent.left.below(2 * base.x + base.size)
    &&& extent.bottom.above(2 * base.y - base.size)
    &&& extent.top.below(2 * base.y + base.size)
}

/// Whether the square around a balloon overlaps a base.
pub fn rect_collision(extent: &Extent, base: &Base) -> (r: bool)
    ensures
        r == square_meets(*extent, base@),
{
    let x: i32 = 2 * base.x as i32;
    let y: i32 = 2 * base.y as i32;
    let size: i32 = base.size as i32;
    extent.right.gt_halves(x - size) && extent.left.lt_halves(x + size) && extent.bottom.gt_halves(
        y - size,
    ) && extent.top.lt_halves(y + size)
}

/// How many balloons have met thing `c` once balloon `i` has met the first `k` of them.
pub open spec fn rounds(c: int, i: int, k: int) -> int {
    if c < k {
        i + 1
    } else {
        i
    }
}

} // verus!
