//! Balloons against balloons.

use super::contact::{check_collision, circles_meet};
use crate::measure::is_table;
use crate::seqs::{lemma_tally_grows, tally, views};
use crate::single::Single;
use crate::state::{Balloon, BalloonView};
use vstd::prelude::*;

verus! {

/// Balloons `i` and `j`, `i` the earlier one, are of different players and overlap.
pub open spec fn meets(bs: Seq<BalloonView>, d: Seq<Seq<Single>>, i: int, j: int) -> bool {
    &&& bs[i].player_id != bs[j].player_id
    &&& circles_meet(d[i][j], bs[i].radius, bs[j].radius)
}

/// Balloons `b` and `c` collide.
pub open spec fn clash(bs: Seq<BalloonView>, d: Seq<Seq<Single>>, b: int, c: int) -> bool {
    if b < c {
        meets(bs, d, b, c)
    } else {
        c < b && meets(bs, d, c, b)
    }
}

/// How many of the first `n` balloons collide with balloon `b`.
pub open spec fn clashes(bs: Seq<BalloonView>, d: Seq<Seq<Single>>, b: int, n: int) -> int {
    tally(|c: int| clash(bs, d, b, c), n)
}

/// Items `i` and `j` exchanged.
pub open spec fn exchange<A>(v: Seq<A>, i: int, j: int) -> Seq<A> {
    v.update(i, v[j]).update(j, v[i])
}

pub open spec fn velocities(bs: Seq<BalloonView>) -> Seq<(Single, Single)> {
    bs.map_values(|b: BalloonView| (b.vx, b.vy))
}

/// The velocities `v` once balloon `i` has met the balloons after it, up to `j`.
pub open spec fn trade_row(
    v: Seq<(Single, Single)>,
    bs: Seq<BalloonView>,
    d: Seq<Seq<Single>>,
    i: int,
    j: int,
) -> Seq<(Single, Single)>
    decreases j,
{
    if j <= i + 1 || j <= 0 {
        v
    } else {
        let w = trade_row(v, bs, d, i, j - 1);
        if meets(bs, d, i, j - 1) {
            exchange(w, i, j - 1)
        } else {
            w
        }
    }
}

/// The velocities once each of the first `i` balloons has met all that come after it.
pub open spec fn trade(bs: Seq<BalloonView>, d: Seq<Seq<Single>>, i: int) -> Seq<(Single, Single)>
    decreases i,
{
    if i <= 0 {
        velocities(bs)
    } else {
        trade_row(trade(bs, d, i - 1), bs, d, i - 1, bs.len() as int)
    }
}

/// The balloons after meeting each other: one point of health lost for each collision, and the
/// velocities exchanged at each, pair after pair.
pub open spec fn bounced(bs: Seq<BalloonView>, d: Seq<Seq<Single>>) -> Seq<BalloonView> {
    Seq::new(
        bs.len(),
        |b: int|
            BalloonView {
                health: bs[b].health - clashes(bs, d, b, bs.len() as int),
                vx: trade(bs, d, bs.len() as int)[b].0,
                vy: trade(bs, d, bs.len() as int)[b].1,
                ..bs[b]
            },
    )
}

/// The collisions of balloon `b` that are settled once the pairs before `(i, j)` are.
spec fn settled(bs: Seq<BalloonView>, d: Seq<Seq<Single>>, b: int, i: int, j: int) -> int {
    if b < i {
        clashes(bs, d, b, bs.len() as int)
    } else if b == i {
        clashes(bs, d, b, j)
    } else if b < j {
        clashes(bs, d, b, i + 1)
    } else {
        clashes(bs, d, b, i)
    }
}

/// Settles the collisions of balloons with each other, pair after pair.
pub(crate) fn collide_balloons(balloons: &mut Vec<Balloon>, distances: &Vec<Vec<Single>>)
    requires
        is_table(views(distances@), old(balloons)@.len() as int, old(balloons)@.len() as int),
        forall|b: int|
            0 <= b < old(balloons)@.len() ==> (#[trigger] bounced(
                views(old(balloons)@),
                views(distances@),
            )[b]).health >= i32::MIN,
    ensures
        views(final(balloons)@) == bounced(views(old(balloons)@), views(distances@)),
{
    let n: usize = balloons.len();
    let ghost bs = views(balloons@);
    let ghost d = views(distances@);
    assert forall|b: int| 0 <= b < n implies bs[b].health - #[trigger] clashes(bs, d, b, n as int)
        >= i32::MIN by {
        assert(bounced(bs, d)[b].health >= i32::MIN);
    }
    let mut i: usize = 0;
    while i < n
        invariant
            i <= n,
            n == balloons@.len() == bs.len(),
            d == views(distances@),
            is_table(d, n as int, n as int),
            trade(bs, d, i as int).len() == n,
            forall|b: int|
                0 <= b < n ==> bs[b].health - #[trigger] clashes(bs, d, b, n as int) >= i32::MIN,
            forall|b: int|
                0 <= b < n ==> #[trigger] balloons@[b]@ == (BalloonView {
                    health: bs[b].health - settled(bs, d, b, i as int, i as int),
                    vx: trade(bs, d, i as int)[b].0,
                    vy: trade(bs, d, i as int)[b].1,
                    ..bs[b]
                }),
        decreases n - i,
    {
        let mut j: usize = i + 1;
        let ghost v = trade(bs, d, i as int);
        while j < n
            invariant
                i < j <= n,
                n == balloons@.len() == bs.len(),
                d == views(distances@),
                is_table(d, n as int, n as int),
                v == trade(bs, d, i as int),
                v.len() == n,
                trade_row(v, bs, d, i as int, j as int).len() == n,
                forall|b: int|
                    0 <= b < n ==> bs[b].health - #[trigger] clashes(bs, d, b, n as int)
                        >= i32::MIN,
                forall|b: int|
                    0 <= b < n ==> #[trigger] balloons@[b]@ == (BalloonView {
                        health: bs[b].health - settled(bs, d, b, i as int, j as int),
                        vx: trade_row(v, bs, d, i as int, j as int)[b].0,
                        vy: trade_row(v, bs, d, i as int, j as int)[b].1,
                        ..bs[b]
                    }),
            decreases n - j,
        {
            let ghost before = balloons@;
            proof {
                assert(d[i as int].len() == n);
                lemma_tally_grows(|c: int| clash(bs, d, i as int, c), j + 1, n as int);
                lemma_tally_grows(|c: int| clash(bs, d, j as int, c), i + 1, n as int);
                assert(clashes(bs, d, i as int, j + 1) <= clashes(bs, d, i as int, n as int));
                assert(clashes(bs, d, j as int, i + 1) <= clashes(bs, d, j as int, n as int));
                let one: int = if meets(bs, d, i as int, j as int) { 1 } else { 0 };
                assert(clashes(bs, d, i as int, j + 1) == clashes(bs, d, i as int, j as int) + one);
                assert(clashes(bs, d, j as int, i + 1) == clashes(bs, d, j as int, i as int) + one);
            }
            if balloons[i].player_id != balloons[j].player_id && check_collision(
                &balloons[i],
                &balloons[j],
                distances[i][j],
            ) {
                balloons[i].health = balloons[i].health - 1;
                balloons[j].health = balloons[j].health - 1;
                let vx = balloons[i].vx;
                balloons[i].vx = balloons[j].vx;
                balloons[j].vx = vx;
                let vy = balloons[i].vy;
                balloons[i].vy = balloons[j].vy;
                balloons[j].vy = vy;
            }
            proof {
                let w = trade_row(v, bs, d, i as int, j as int);
                let w2 = trade_row(v, bs, d, i as int, j + 1);
                assert(w2 == if meets(bs, d, i as int, j as int) {
                    exchange(w, i as int, j as int)
                } else {
                    w
                });
                assert forall|b: int| 0 <= b < n implies #[trigger] balloons@[b]@ == (BalloonView {
                    health: bs[b].health - settled(bs, d, b, i as int, j + 1),
                    vx: w2[b].0,
                    vy: w2[b].1,
                    ..bs[b]
                }) by {
                    assert(before[b]@.player_id == bs[b].player_id);
                    assert(before[i as int]@.player_id == bs[i as int].player_id);
                    assert(before[j as int]@.player_id == bs[j as int].player_id);
                    if b != i && b != j {
                        assert(balloons@[b] == before[b]);
                    }
                }
            }
            j = j + 1;
        }
        i = i + 1;
    }
    assert(views(balloons@) =~= bounced(bs, d));
}

} // verus!
