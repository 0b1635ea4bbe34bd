//! Who touches whom, told from what is measured.

use crate::collision::balloons::clash;
use crate::collision::bases::touches_base;
use crate::collision::contact::{circles_meet, square_meets};
use crate::collision::emitters::touches_emitter;
use crate::measure::{Extent, MeasurementsView};
use crate::seqs::tally;
use crate::single::Single;
use crate::state::{BaseView, GameStateView};
use vstd::arithmetic::power2::pow2;
use vstd::prelude::*;
use vstd::set_lib::set_int_range;

verus! {

/// Two circles overlap where their centres are closer than their radii together.
pub proof fn law_circles_overlap(distance: Single, r1: int, r2: int)
    ensures
        circles_meet(distance, r1, r2) <==> !distance.is_nan() && distance.value() < (2 * r1 + 2
            * r2) * pow2(148),
{
    assert(2 * (r1 + r2) == 2 * r1 + 2 * r2);
}

/// A square overlaps a base where neither lies wholly to one side of the other; to share an edge
/// is not enough.
pub proof fn law_squares_overlap(extent: Extent, base: BaseView)
    ensures
        square_meets(extent, base) <==> {
            &&& !extent.left.is_nan() && extent.left.value() < (2 * base.x + base.size) * pow2(148)
            &&& !extent.right.is_nan() && extent.right.value() > (2 * base.x - base.size) * pow2(
                148,
            )
            &&& !extent.top.is_nan() && extent.top.value() < (2 * base.y + base.size) * pow2(148)
            &&& !extent.bottom.is_nan() && extent.bottom.value() > (2 * base.y - base.size)
                * pow2(148)
        },
{
}

/// Balloons `i` and `j` belong to different players and are closer than their radii together.
pub open spec fn foes_touch(s: GameStateView, m: MeasurementsView, i: int, j: int) -> bool {
    let distance = if i < j {
        m.between_balloons[i][j]
    } else {
        m.between_balloons[j][i]
    };
    &&& i != j
    &&& s.balloons[i].player_id != s.balloons[j].player_id
    &&& !distance.is_nan()
    &&& distance.value() < (2 * s.balloons[i].radius + 2 * s.balloons[j].radius) * pow2(148)
}

/// Balloon `i` and emitter `k` belong to different players, and the balloon is closer to the
/// emitter than its radius and fifteen.
pub open spec fn hits_emitter(s: GameStateView, m: MeasurementsView, i: int, k: int) -> bool {
    let distance = m.to_emitters[i][k];
    &&& s.balloons[i].player_id != s.emitters[k].player_id
    &&& !distance.is_nan()
    &&& distance.value() < (2 * s.balloons[i].radius + 30) * pow2(148)
}

/// Balloon `i` and base `k` belong to different players, and the square around the balloon
/// overlaps the base.
pub open spec fn hits_base(s: GameStateView, m: MeasurementsView, i: int, k: int) -> bool {
    let e = m.motions[i].extent;
    let c = s.bases[k];
    &&& s.balloons[i].player_id != c.player_id
    &&& !e.left.is_nan() && e.left.value() < (2 * c.x + c.size) * pow2(148)
    &&& !e.right.is_nan() && e.right.value() > (2 * c.x - c.size) * pow2(148)
    &&& !e.top.is_nan() && e.top.value() < (2 * c.y + c.size) * pow2(148)
    &&& !e.bottom.is_nan() && e.bottom.value() > (2 * c.y - c.size) * pow2(148)
}

/// What collides with what, for every pair in a room.
pub proof fn law_who_touches_whom(s: GameStateView, m: MeasurementsView, i: int, j: int, k: int)
    ensures
        clash(s.balloons, m.between_balloons, i, j) == foes_touch(s, m, i, j),
        touches_emitter(s.balloons[i], s.emitters[k], m.to_emitters[i][k]) == hits_emitter(
            s,
            m,
            i,
            k,
        ),
        touches_base(s.balloons[i], s.bases[k], m.motions[i].extent) == hits_base(s, m, i, k),
{
    let ri = s.balloons[i].radius;
    let rj = s.balloons[j].radius;
    assert(2 * (ri + rj) == 2 * ri + 2 * rj && 2 * (rj + ri) == 2 * ri + 2 * rj);
    assert(2 * (ri + 15) == 2 * ri + 30);
}

/// How many of the numbers from zero up to `n` have the property.
pub open spec fn count(n: int, p: spec_fn(int) -> bool) -> int {
    set_int_range(0, n).filter(p).len() as int
}

pub proof fn lemma_count(n: int, p: spec_fn(int) -> bool)
    ensures
        set_int_range(0, n).filter(p).finite(),
        count(n, p) == tally(p, n),
        0 <= count(n, p),
    decreases n,
{
    let now = set_int_range(0, n).filter(p);
    if n <= 0 {
        assert(now =~= Set::empty());
    } else {
        lemma_count(n - 1, p);
        let before = set_int_range(0, n - 1).filter(p);
        if p(n - 1) {
            assert(now =~= before.insert(n - 1));
        } else {
            assert(now =~= before);
        }
    }
}

/// Properties that agree below `n` are counted alike.
pub proof fn lemma_count_agrees(n: int, p: spec_fn(int) -> bool, q: spec_fn(int) -> bool)
    requires
        forall|i: int| 0 <= i < n ==> #[trigger] p(i) == q(i),
    ensures
        count(n, p) == count(n, q),
{
    assert(set_int_range(0, n).filter(p) =~= set_int_range(0, n).filter(q));
}

} // verus!
