//! Balloons against bases.

use super::contact::{rect_collision, rounds, square_meets};
use crate::measure::{Extent, Motion};
use crate::seqs::{first_where, lemma_tally_grows, tally, views};
use crate::state::{Balloon, BalloonView, Base, BaseView};
use vstd::prelude::*;

verus! {

/// The balloon is not of the base's player and its square reaches into the base.
pub open spec fn touches_base(b: BalloonView, c: BaseView, extent: Extent) -> bool {
    b.player_id != c.player_id && square_meets(extent, c)
}

/// How many of the first `n` bases balloon `i` touches.
pub open spec fn bases_met(
    bs: Seq<BalloonView>,
    cs: Seq<BaseView>,
    m: Seq<Motion>,
    i: int,
    n: int,
) -> int {
    tally(|k: int| touches_base(bs[i], cs[k], m[i].extent), n)
}

/// How many of the first `n` balloons touch base `k`.
pub open spec fn base_hits(
    bs: Seq<BalloonView>,
    cs: Seq<BaseView>,
    m: Seq<Motion>,
    k: int,
    n: int,
) -> int {
    tally(|i: int| touches_base(bs[i], cs[k], m[i].extent), n)
}

/// The balloons after meeting the bases: one point of health lost for each.
pub open spec fn past_bases(
    bs: Seq<BalloonView>,
    cs: Seq<BaseView>,
    m: Seq<Motion>,
) -> Seq<BalloonView> {
    Seq::new(
        bs.len(),
        |i: int|
            BalloonView {
                health: bs[i].health - bases_met(bs, cs, m, i, cs.len() as int),
                ..bs[i]
            },
    )
}

/// The bases after meeting the balloons: one point of health lost for each.
pub open spec fn struck_bases(
    bs: Seq<BalloonView>,
    cs: Seq<BaseView>,
    m: Seq<Motion>,
) -> Seq<BaseView> {
    Seq::new(
        cs.len(),
        |k: int|
            BaseView {
                health: cs[k].health - base_hits(bs, cs, m, k, bs.len() as int),
                ..cs[k]
            },
    )
}

/// Balloon `i` strikes base `k`, and leaves it without health.
pub open spec fn fells(
    bs: Seq<BalloonView>,
    cs: Seq<BaseView>,
    m: Seq<Motion>,
    i: int,
    k: int,
) -> bool {
    &&& touches_base(bs[i], cs[k], m[i].extent)
    &&& cs[k].health - base_hits(bs, cs, m, k, i + 1) <= 0
}

/// The players whose bases, among the first `k`, balloon `i` fells.
pub open spec fn felled_by(
    bs: Seq<BalloonView>,
    cs: Seq<BaseView>,
    m: Seq<Motion>,
    i: int,
    k: int,
) -> Seq<Seq<char>>
    decreases k,
{
    if k <= 0 {
        Seq::empty()
    } else if fells(bs, cs, m, i, k - 1) {
        felled_by(bs, cs, m, i, k - 1).push(cs[k - 1].player_id)
    } else {
        felled_by(bs, cs, m, i, k - 1)
    }
}

/// The players whose bases the first `i` balloons fell, in the order of the blows, once for each
/// blow to a base without health.
pub open spec fn felled(
    bs: Seq<BalloonView>,
    cs: Seq<BaseView>,
    m: Seq<Motion>,
    i: int,
) -> Seq<Seq<char>>
    decreases i,
{
    if i <= 0 {
        Seq::empty()
    } else {
        felled(bs, cs, m, i - 1) + felled_by(bs, cs, m, i - 1, cs.len() as int)
    }
}

/// The bases without the first one of that player.
pub open spec fn without_base(cs: Seq<BaseView>, id: Seq<char>) -> Seq<BaseView> {
    match first_where(cs, |c: BaseView| c.player_id == id) {
        Some(k) => cs.remove(k),
        None => cs,
    }
}

/// The bases after each player named has lost one.
pub open spec fn razed(cs: Seq<BaseView>, ids: Seq<Seq<char>>) -> Seq<BaseView>
    decreases ids.len(),
{
    if ids.len() == 0 {
        cs
    } else {
        without_base(razed(cs, ids.drop_last()), ids.last())
    }
}

/// Settles the collisions of balloons with bases; gives the players whose bases have fallen.
pub(crate) fn collide_bases(
    balloons: &mut Vec<Balloon>,
    bases: &mut Vec<Base>,
    motions: &Vec<Motion>,
) -> (gone: Vec<String>)
    requires
        motions@.len() == old(balloons)@.len(),
        forall|i: int|
            0 <= i < old(balloons)@.len() ==> (#[trigger] past_bases(
                views(old(balloons)@),
                views(old(bases)@),
                motions@,
            )[i]).health >= i32::MIN,
        forall|k: int|
            0 <= k < old(bases)@.len() ==> (#[trigger] struck_bases(
                views(old(balloons)@),
                views(old(bases)@),
                motions@,
            )[k]).health >= i32::MIN,
    ensures
        views(final(balloons)@) == past_bases(
            views(old(balloons)@),
            views(old(bases)@),
            motions@,
        ),
        views(final(bases)@) == struck_bases(views(old(balloons)@), views(old(bases)@), motions@),
        views(gone@) == felled(
            views(old(balloons)@),
            views(old(bases)@),
            motions@,
            old(balloons)@.len() as int,
        ),
{
    let mut gone: Vec<String> = Vec::new();
    let n: usize = balloons.len();
    let q: usize = bases.len();
    let ghost bs = views(balloons@);
    let ghost cs = views(bases@);
    let ghost m = motions@;
    assert forall|i: int| 0 <= i < n implies bs[i].health - #[trigger] bases_met(
        bs,
        cs,
        m,
        i,
        q as int,
    ) >= i32::MIN by {
        assert(past_bases(bs, cs, m)[i].health >= i32::MIN);
    }
    assert forall|k: int| 0 <= k < q implies cs[k].health - #[trigger] base_hits(
        bs,
        cs,
        m,
        k,
        n as int,
    ) >= i32::MIN by {
        assert(struck_bases(bs, cs, m)[k].health >= i32::MIN);
    }
    assert(views(gone@) =~= felled(bs, cs, m, 0));
    let mut i: usize = 0;
    while i < n
        invariant
            i <= n,
            n == balloons@.len() == bs.len(),
            q == bases@.len() == cs.len(),
            m == motions@,
            m.len() == n,
            forall|b: int|
                0 <= b < n ==> bs[b].health - #[trigger] bases_met(bs, cs, m, b, q as int)
                    >= i32::MIN,
            forall|c: int|
                0 <= c < q ==> cs[c].health - #[trigger] base_hits(bs, cs, m, c, n as int)
                    >= i32::MIN,
            forall|b: int|
                0 <= b < n ==> #[trigger] balloons@[b]@ == (BalloonView {
                    health: bs[b].health - bases_met(bs, cs, m, b, if b < i { q as int } else { 0 }),
                    ..bs[b]
                }),
            forall|c: int|
                0 <= c < q ==> #[trigger] bases@[c]@ == (BaseView {
                    health: cs[c].health - base_hits(bs, cs, m, c, i as int),
                    ..cs[c]
                }),
            views(gone@) == felled(bs, cs, m, i as int),
        decreases n - i,
    {
        let mut k: usize = 0;
        assert(views(gone@) =~= felled(bs, cs, m, i as int) + felled_by(bs, cs, m, i as int, 0));
        while k < q
            invariant
                i < n,
                k <= q,
                n == balloons@.len() == bs.len(),
                q == bases@.len() == cs.len(),
                m == motions@,
                m.len() == n,
                forall|b: int|
                    0 <= b < n ==> bs[b].health - #[trigger] bases_met(bs, cs, m, b, q as int)
                        >= i32::MIN,
                forall|c: int|
                    0 <= c < q ==> cs[c].health - #[trigger] base_hits(bs, cs, m, c, n as int)
                        >= i32::MIN,
                forall|b: int|
                    0 <= b < n ==> #[trigger] balloons@[b]@ == (BalloonView {
                        health: bs[b].health - bases_met(
                            bs,
                            cs,
                            m,
                            b,
                            if b < i { q as int } else if b == i { k as int } else { 0 },
                        ),
                        ..bs[b]
                    }),
                forall|c: int|
                    0 <= c < q ==> #[trigger] bases@[c]@ == (BaseView {
                        health: cs[c].health - base_hits(
                            bs,
                            cs,
                            m,
                            c,
                            rounds(c, i as int, k as int),
                        ),
                        ..cs[c]
                    }),
                views(gone@) == felled(bs, cs, m, i as int) + felled_by(
                    bs,
                    cs,
                    m,
                    i as int,
                    k as int,
                ),
            decreases q - k,
        {
            let ghost balloons_before = balloons@;
            let ghost bases_before = bases@;
            let ghost listed = views(gone@);
            proof {
                lemma_tally_grows(
                    |c: int| touches_base(bs[i as int], cs[c], m[i as int].extent),
                    k + 1,
                    q as int,
                );
                lemma_tally_grows(
                    |b: int| touches_base(bs[b], cs[k as int], m[b].extent),
                    i + 1,
                    n as int,
                );
                let one: int = if touches_base(bs[i as int], cs[k as int], m[i as int].extent) {
                    1
                } else {
                    0
                };
                assert(bases_met(bs, cs, m, i as int, k + 1) == bases_met(
                    bs,
                    cs,
                    m,
                    i as int,
                    k as int,
                ) + one);
                assert(base_hits(bs, cs, m, k as int, i + 1) == base_hits(
                    bs,
                    cs,
                    m,
                    k as int,
                    i as int,
                ) + one);
                assert(bases_met(bs, cs, m, i as int, k + 1) <= bases_met(
                    bs,
                    cs,
                    m,
                    i as int,
                    q as int,
                ));
                assert(base_hits(bs, cs, m, k as int, i + 1) <= base_hits(
                    bs,
                    cs,
                    m,
                    k as int,
                    n as int,
                ));
                assert(balloons_before[i as int]@.player_id == bs[i as int].player_id);
                assert(bases_before[k as int]@.player_id == cs[k as int].player_id);
                assert(bases_before[k as int]@.x == cs[k as int].x);
            }
            if balloons[i].player_id != bases[k].player_id && rect_collision(
                &motions[i].extent,
                &bases[k],
            ) {
                balloons[i].health = balloons[i].health - 1;
                bases[k].health = bases[k].health - 1;
                if bases[k].health <= 0 {
                    gone.push(bases[k].player_id.clone());
                    assert(views(gone@) =~= listed.push(cs[k as int].player_id));
                }
            }
            proof {
                assert forall|b: int| 0 <= b < n && b != i implies #[trigger] balloons@[b]
                    == balloons_before[b] by {}
                assert forall|c: int| 0 <= c < q && c != k implies #[trigger] bases@[c]
                    == bases_before[c] by {}
                assert(views(gone@) =~= felled(bs, cs, m, i as int) + felled_by(
                    bs,
                    cs,
                    m,
                    i as int,
                    k + 1,
                ));
            }
            k = k + 1;
        }
        i = i + 1;
    }
    assert(views(balloons@) =~= past_bases(bs, cs, m));
    assert(views(bases@) =~= struck_bases(bs, cs, m));
    gone
}

} // verus!
