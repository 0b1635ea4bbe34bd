//! Balloons against emitters.

use super::contact::{circle_collision, circles_meet, rounds};
use crate::measure::is_table;
use crate::seqs::{lemma_tally_grows, tally, views};
use crate::single::Single;
use crate::state::{Balloon, BalloonView, Emitter, EmitterView};
use vstd::prelude::*;

verus! {

pub const EMITTER_RADIUS: u16 = 15;

/// The balloon is not of the emitter's player and overlaps it, `distance` away.
pub open spec fn touches_emitter(b: BalloonView, e: EmitterView, distance: Single) -> bool {
    &&& b.player_id != e.player_id
    &&& circles_meet(distance, b.radius, EMITTER_RADIUS as int)
}

/// How many of the first `n` emitters balloon `i` touches.
pub open spec fn emitters_met(
    bs: Seq<BalloonView>,
    es: Seq<EmitterView>,
    d: Seq<Seq<Single>>,
    i: int,
    n: int,
) -> int {
    tally(|k: int| touches_emitter(bs[i], es[k], d[i][k]), n)
}

/// How many of the first `n` balloons touch emitter `k`.
pub open spec fn emitter_hits(
    bs: Seq<BalloonView>,
    es: Seq<EmitterView>,
    d: Seq<Seq<Single>>,
    k: int,
    n: int,
) -> int {
    tally(|i: int| touches_emitter(bs[i], es[k], d[i][k]), n)
}

/// The balloons after meeting the emitters: one point of health lost for each.
pub open spec fn past_emitters(
    bs: Seq<BalloonView>,
    es: Seq<EmitterView>,
    d: Seq<Seq<Single>>,
) -> Seq<BalloonView> {
    Seq::new(
        bs.len(),
        |i: int|
            BalloonView {
                health: bs[i].health - emitters_met(bs, es, d, i, es.len() as int),
                ..bs[i]
            },
    )
}

/// The emitters after meeting the balloons: one point of health lost for each.
pub open spec fn struck_emitters(
    bs: Seq<BalloonView>,
    es: Seq<EmitterView>,
    d: Seq<Seq<Single>>,
) -> Seq<EmitterView> {
    Seq::new(
        es.len(),
        |k: int|
            EmitterView {
                health: es[k].health - emitter_hits(bs, es, d, k, bs.len() as int),
                ..es[k]
            },
    )
}

/// The first `n` balloons have struck emitter `k` and left it without health.
pub open spec fn emitter_down(
    bs: Seq<BalloonView>,
    es: Seq<EmitterView>,
    d: Seq<Seq<Single>>,
    k: int,
    n: int,
) -> bool {
    emitter_hits(bs, es, d, k, n) > 0 && es[k].health - emitter_hits(bs, es, d, k, n) <= 0
}

/// An emitter of that id has been struck down.
pub open spec fn id_down(
    bs: Seq<BalloonView>,
    es: Seq<EmitterView>,
    d: Seq<Seq<Single>>,
    id: Seq<char>,
) -> bool {
    exists|k: int|
        0 <= k < es.len() && #[trigger] emitter_down(bs, es, d, k, bs.len() as int) && es[k].id
            == id
}

/// The emitters that are left.
pub open spec fn emitters_left(
    bs: Seq<BalloonView>,
    es: Seq<EmitterView>,
    d: Seq<Seq<Single>>,
) -> Seq<EmitterView> {
    struck_emitters(bs, es, d).filter(|e: EmitterView| !id_down(bs, es, d, e.id))
}

/// Emitter `c` is down once balloon `i` has met the first `k` emitters.
spec fn down_by(
    bs: Seq<BalloonView>,
    es: Seq<EmitterView>,
    d: Seq<Seq<Single>>,
    c: int,
    i: int,
    k: int,
) -> bool {
    emitter_down(bs, es, d, c, rounds(c, i, k))
}

/// An emitter of that id is down by then.
spec fn id_down_by(
    id: Seq<char>,
    bs: Seq<BalloonView>,
    es: Seq<EmitterView>,
    d: Seq<Seq<Single>>,
    i: int,
    k: int,
) -> bool {
    exists|c: int| 0 <= c < es.len() && #[trigger] down_by(bs, es, d, c, i, k) && es[c].id == id
}

/// The ids in `gone` are those of the emitters that are down by then.
spec fn lists_down(
    gone: Seq<Seq<char>>,
    bs: Seq<BalloonView>,
    es: Seq<EmitterView>,
    d: Seq<Seq<Single>>,
    i: int,
    k: int,
) -> bool {
    &&& forall|x: int| 0 <= x < gone.len() ==> id_down_by(#[trigger] gone[x], bs, es, d, i, k)
    &&& forall|c: int|
        0 <= c < es.len() && #[trigger] down_by(bs, es, d, c, i, k) ==> gone.contains(es[c].id)
}

/// Balloon `i` meets emitter `k`: what is listed stays listed, and emitter `k` joins the list
/// where the balloon has struck it down.
proof fn lemma_lists_down_next(
    gone: Seq<Seq<char>>,
    bs: Seq<BalloonView>,
    es: Seq<EmitterView>,
    d: Seq<Seq<Single>>,
    i: int,
    k: int,
)
    requires
        0 <= i < bs.len(),
        0 <= k < es.len(),
        lists_down(gone, bs, es, d, i, k),
    ensures
        ({
            let struck = touches_emitter(bs[i], es[k], d[i][k]) && es[k].health - emitter_hits(
                bs,
                es,
                d,
                k,
                i + 1,
            ) <= 0;
            &&& struck ==> lists_down(gone.push(es[k].id), bs, es, d, i, k + 1)
            &&& !struck ==> lists_down(gone, bs, es, d, i, k + 1)
        }),
{
    lemma_tally_grows(|b: int| touches_emitter(bs[b], es[k], d[b][k]), i, i + 1);
    assert(emitter_hits(bs, es, d, k, i + 1) == emitter_hits(bs, es, d, k, i) + (
    if touches_emitter(bs[i], es[k], d[i][k]) {
        1int
    } else {
        0int
    }));
    assert forall|c: int| 0 <= c < es.len() && c != k implies #[trigger] down_by(
        bs,
        es,
        d,
        c,
        i,
        k + 1,
    ) == down_by(bs, es, d, c, i, k) by {}
    assert(down_by(bs, es, d, k, i, k) ==> down_by(bs, es, d, k, i, k + 1));
    let struck = touches_emitter(bs[i], es[k], d[i][k]) && es[k].health - emitter_hits(
        bs,
        es,
        d,
        k,
        i + 1,
    ) <= 0;
    let after = if struck {
        gone.push(es[k].id)
    } else {
        gone
    };
    assert forall|x: int| 0 <= x < after.len() implies id_down_by(
        #[trigger] after[x],
        bs,
        es,
        d,
        i,
        k + 1,
    ) by {
        if x < gone.len() {
            assert(id_down_by(gone[x], bs, es, d, i, k));
            let c = choose|c: int|
                0 <= c < es.len() && #[trigger] down_by(bs, es, d, c, i, k) && es[c].id == gone[x];
            assert(down_by(bs, es, d, c, i, k + 1));
        } else {
            assert(down_by(bs, es, d, k, i, k + 1));
        }
    }
    assert forall|c: int|
        0 <= c < es.len() && #[trigger] down_by(bs, es, d, c, i, k + 1) implies after.contains(
        es[c].id,
    ) by {
        if down_by(bs, es, d, c, i, k) {
            let x = choose|x: int| 0 <= x < gone.len() && gone[x] == es[c].id;
            assert(after[x] == es[c].id);
        } else {
            assert(c == k);
            assert(after[gone.len() as int] == es[k].id);
        }
    }
}

/// Having met all the emitters, a balloon is done.
proof fn lemma_lists_down_row(
    gone: Seq<Seq<char>>,
    bs: Seq<BalloonView>,
    es: Seq<EmitterView>,
    d: Seq<Seq<Single>>,
    i: int,
)
    requires
        lists_down(gone, bs, es, d, i, es.len() as int),
    ensures
        lists_down(gone, bs, es, d, i + 1, 0),
{
    let q = es.len() as int;
    assert forall|c: int| 0 <= c < q implies #[trigger] down_by(bs, es, d, c, i + 1, 0) == down_by(
        bs,
        es,
        d,
        c,
        i,
        q,
    ) by {}
    assert forall|x: int| 0 <= x < gone.len() implies id_down_by(
        #[trigger] gone[x],
        bs,
        es,
        d,
        i + 1,
        0,
    ) by {
        assert(id_down_by(gone[x], bs, es, d, i, q));
        let c = choose|c: int|
            0 <= c < es.len() && #[trigger] down_by(bs, es, d, c, i, q) && es[c].id == gone[x];
        assert(down_by(bs, es, d, c, i + 1, 0));
    }
    assert forall|c: int|
        0 <= c < es.len() && #[trigger] down_by(bs, es, d, c, i + 1, 0) implies gone.contains(
        es[c].id,
    ) by {
        assert(down_by(bs, es, d, c, i, q));
    }
}

proof fn lemma_lists_down_all(
    gone: Seq<Seq<char>>,
    bs: Seq<BalloonView>,
    es: Seq<EmitterView>,
    d: Seq<Seq<Single>>,
)
    requires
        lists_down(gone, bs, es, d, bs.len() as int, 0),
    ensures
        forall|id: Seq<char>| #[trigger] gone.contains(id) == id_down(bs, es, d, id),
{
    let n = bs.len() as int;
    assert forall|id: Seq<char>| #[trigger] gone.contains(id) == id_down(bs, es, d, id) by {
        if gone.contains(id) {
            let x = choose|x: int| 0 <= x < gone.len() && gone[x] == id;
            let c = choose|c: int|
                0 <= c < es.len() && #[trigger] down_by(bs, es, d, c, n, 0) && es[c].id == gone[x];
            assert(emitter_down(bs, es, d, c, n));
        }
        if id_down(bs, es, d, id) {
            let c = choose|c: int|
                0 <= c < es.len() && #[trigger] emitter_down(bs, es, d, c, n) && es[c].id == id;
            assert(down_by(bs, es, d, c, n, 0));
        }
    }
}

/// Settles the collisions of balloons with emitters; gives the ids of the emitters struck down.
pub(crate) fn collide_emitters(
    balloons: &mut Vec<Balloon>,
    emitters: &mut Vec<Emitter>,
    distances: &Vec<Vec<Single>>,
) -> (gone: Vec<String>)
    requires
        is_table(views(distances@), old(balloons)@.len() as int, old(emitters)@.len() as int),
        forall|i: int|
            0 <= i < old(balloons)@.len() ==> (#[trigger] past_emitters(
                views(old(balloons)@),
                views(old(emitters)@),
                views(distances@),
            )[i]).health >= i32::MIN,
        forall|k: int|
            0 <= k < old(emitters)@.len() ==> (#[trigger] struck_emitters(
                views(old(balloons)@),
                views(old(emitters)@),
                views(distances@),
            )[k]).health >= i32::MIN,
    ensures
        views(final(balloons)@) == past_emitters(
            views(old(balloons)@),
            views(old(emitters)@),
            views(distances@),
        ),
        views(final(emitters)@) == struck_emitters(
            views(old(balloons)@),
            views(old(emitters)@),
            views(distances@),
        ),
        forall|id: Seq<char>| #[trigger]
            views(gone@).contains(id) == id_down(
                views(old(balloons)@),
                views(old(emitters)@),
                views(distances@),
                id,
            ),
{
    let mut gone: Vec<String> = Vec::new();
    let n: usize = balloons.len();
    let q: usize = emitters.len();
    let ghost bs = views(balloons@);
    let ghost es = views(emitters@);
    let ghost d = views(distances@);
    assert forall|i: int| 0 <= i < n implies bs[i].health - #[trigger] emitters_met(
        bs,
        es,
        d,
        i,
        q as int,
    ) >= i32::MIN by {
        assert(past_emitters(bs, es, d)[i].health >= i32::MIN);
    }
    assert forall|k: int| 0 <= k < q implies es[k].health - #[trigger] emitter_hits(
        bs,
        es,
        d,
        k,
        n as int,
    ) >= i32::MIN by {
        assert(struck_emitters(bs, es, d)[k].health >= i32::MIN);
    }
    let mut i: usize = 0;
    while i < n
        invariant
            i <= n,
            n == balloons@.len() == bs.len(),
            q == emitters@.len() == es.len(),
            d == views(distances@),
            is_table(d, n as int, q as int),
            forall|b: int|
                0 <= b < n ==> bs[b].health - #[trigger] emitters_met(bs, es, d, b, q as int)
                    >= i32::MIN,
            forall|k: int|
                0 <= k < q ==> es[k].health - #[trigger] emitter_hits(bs, es, d, k, n as int)
                    >= i32::MIN,
            forall|b: int|
                0 <= b < n ==> #[trigger] balloons@[b]@ == (BalloonView {
                    health: bs[b].health - emitters_met(
                        bs,
                        es,
                        d,
                        b,
                        if b < i { q as int } else { 0 },
                    ),
                    ..bs[b]
                }),
            forall|k: int|
                0 <= k < q ==> #[trigger] emitters@[k]@ == (EmitterView {
                    health: es[k].health - emitter_hits(bs, es, d, k, i as int),
                    ..es[k]
                }),
            lists_down(views(gone@), bs, es, d, i as int, 0),
        decreases n - i,
    {
        let mut k: usize = 0;
        while k < q
            invariant
                i < n,
                k <= q,
                n == balloons@.len() == bs.len(),
                q == emitters@.len() == es.len(),
                d == views(distances@),
                is_table(d, n as int, q as int),
                forall|b: int|
                    0 <= b < n ==> bs[b].health - #[trigger] emitters_met(bs, es, d, b, q as int)
                        >= i32::MIN,
                forall|c: int|
                    0 <= c < q ==> es[c].health - #[trigger] emitter_hits(bs, es, d, c, n as int)
                        >= i32::MIN,
                forall|b: int|
                    0 <= b < n ==> #[trigger] balloons@[b]@ == (BalloonView {
                        health: bs[b].health - emitters_met(
                            bs,
                            es,
                            d,
                            b,
                            if b < i { q as int } else if b == i { k as int } else { 0 },
                        ),
                        ..bs[b]
                    }),
                forall|c: int|
                    0 <= c < q ==> #[trigger] emitters@[c]@ == (EmitterView {
                        health: es[c].health - emitter_hits(
                            bs,
                            es,
                            d,
                            c,
                            rounds(c, i as int, k as int),
                        ),
                        ..es[c]
                    }),
                lists_down(views(gone@), bs, es, d, i as int, k as int),
            decreases q - k,
        {
            let ghost balloons_before = balloons@;
            let ghost emitters_before = emitters@;
            let ghost listed = views(gone@);
            proof {
                assert(d[i as int].len() == q);
                lemma_tally_grows(
                    |c: int| touches_emitter(bs[i as int], es[c], d[i as int][c]),
                    k + 1,
                    q as int,
                );
                lemma_tally_grows(
                    |b: int| touches_emitter(bs[b], es[k as int], d[b][k as int]),
                    i + 1,
                    n as int,
                );
                let one: int = if touches_emitter(
                    bs[i as int],
                    es[k as int],
                    d[i as int][k as int],
                ) {
                    1
                } else {
                    0
                };
                assert(emitters_met(bs, es, d, i as int, k + 1) == emitters_met(
                    bs,
                    es,
                    d,
                    i as int,
                    k as int,
                ) + one);
                assert(emitter_hits(bs, es, d, k as int, i + 1) == emitter_hits(
                    bs,
                    es,
                    d,
                    k as int,
                    i as int,
                ) + one);
                assert(emitters_met(bs, es, d, i as int, k + 1) <= emitters_met(
                    bs,
                    es,
                    d,
                    i as int,
                    q as int,
                ));
                assert(emitter_hits(bs, es, d, k as int, i + 1) <= emitter_hits(
                    bs,
                    es,
                    d,
                    k as int,
                    n as int,
                ));
                lemma_lists_down_next(listed, bs, es, d, i as int, k as int);
                assert(balloons_before[i as int]@.player_id == bs[i as int].player_id);
                assert(emitters_before[k as int]@.player_id == es[k as int].player_id);
            }
            if balloons[i].player_id != emitters[k].player_id && circle_collision(
                distances[i][k],
                balloons[i].radius,
                EMITTER_RADIUS,
            ) {
                balloons[i].health = balloons[i].health - 1;
                emitters[k].health = emitters[k].health - 1;
                if emitters[k].health <= 0 {
                    gone.push(emitters[k].id.clone());
                    assert(views(gone@) =~= listed.push(es[k as int].id));
                }
            }
            proof {
                assert forall|b: int| 0 <= b < n && b != i implies #[trigger] balloons@[b]
                    == balloons_before[b] by {}
                assert forall|c: int| 0 <= c < q && c != k implies #[trigger] emitters@[c]
                    == emitters_before[c] by {}
            }
            k = k + 1;
        }
        proof {
            lemma_lists_down_row(views(gone@), bs, es, d, i as int);
        }
        i = i + 1;
    }
    assert(views(balloons@) =~= past_emitters(bs, es, d));
    assert(views(emitters@) =~= struck_emitters(bs, es, d));
    proof {
        lemma_lists_down_all(views(gone@), bs, es, d);
    }
    gone
}

} // verus!
