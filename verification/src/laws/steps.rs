//! Battles and steps: what they do to everything in a room.

use super::battle::lemma_tally_agree;
use super::contact::{
    count, foes_touch, hits_base, hits_emitter, law_who_touches_whom, lemma_count,
    lemma_count_agrees,
};
use super::numbers::{law_comparisons, law_turning_the_sign};
use crate::collision::balloons::{bounced, clash, clashes, trade, trade_row};
use crate::collision::bases::{base_hits, bases_met, touches_base};
use crate::collision::emitters::{
    emitter_down, emitter_hits, emitters_met, id_down, past_emitters, touches_emitter,
};
use crate::collision::{battered, battered_bases, battered_emitters, collided, endures};
use crate::measure::{MeasurementsView, Motion};
use crate::seqs::{lemma_filter_agree, tally};
use crate::single::Single;
use crate::state::{BalloonView, EmitterView, GameStateView};
use crate::update::motion::{all_moved, moved};
use crate::update::{advanced, drifted};
use vstd::arithmetic::power2::pow2;
use vstd::prelude::*;

verus! {

// Damage.

/// The enemy balloons, emitters and bases that balloon `i` touches.
pub open spec fn balloon_damage(s: GameStateView, m: MeasurementsView, i: int) -> int {
    count(s.balloons.len() as int, |j: int| foes_touch(s, m, i, j)) + count(
        s.emitters.len() as int,
        |k: int| hits_emitter(s, m, i, k),
    ) + count(s.bases.len() as int, |k: int| hits_base(s, m, i, k))
}

/// The balloons that touch emitter `k`.
pub open spec fn emitter_damage(s: GameStateView, m: MeasurementsView, k: int) -> int {
    count(s.balloons.len() as int, |i: int| hits_emitter(s, m, i, k))
}

/// The balloons that touch base `k`.
pub open spec fn base_damage(s: GameStateView, m: MeasurementsView, k: int) -> int {
    count(s.balloons.len() as int, |i: int| hits_base(s, m, i, k))
}

proof fn lemma_balloon_damage(s: GameStateView, m: MeasurementsView, i: int)
    requires
        0 <= i < s.balloons.len(),
    ensures
        battered(s, m).len() == s.balloons.len(),
        battered(s, m)[i].health == s.balloons[i].health - balloon_damage(s, m, i),
{
    let b1 = bounced(s.balloons, m.between_balloons);
    let b2 = past_emitters(b1, s.emitters, m.to_emitters);
    let n = s.balloons.len() as int;
    let q = s.emitters.len() as int;
    let r = s.bases.len() as int;
    let pf = |j: int| foes_touch(s, m, i, j);
    let pe = |k: int| hits_emitter(s, m, i, k);
    let pb = |k: int| hits_base(s, m, i, k);
    lemma_count(n, pf);
    lemma_count(q, pe);
    lemma_count(r, pb);
    assert forall|j: int| 0 <= j < n implies #[trigger] pf(j) == clash(
        s.balloons,
        m.between_balloons,
        i,
        j,
    ) by {
        law_who_touches_whom(s, m, i, j, 0);
    }
    lemma_tally_agree(pf, |c: int| clash(s.balloons, m.between_balloons, i, c), n);
    assert forall|k: int| 0 <= k < q implies #[trigger] pe(k) == touches_emitter(
        b1[i],
        s.emitters[k],
        m.to_emitters[i][k],
    ) by {
        law_who_touches_whom(s, m, i, 0, k);
    }
    lemma_tally_agree(pe, |k: int| touches_emitter(b1[i], s.emitters[k], m.to_emitters[i][k]), q);
    assert forall|k: int| 0 <= k < r implies #[trigger] pb(k) == touches_base(
        b2[i],
        s.bases[k],
        m.motions[i].extent,
    ) by {
        law_who_touches_whom(s, m, i, 0, k);
    }
    lemma_tally_agree(pb, |k: int| touches_base(b2[i], s.bases[k], m.motions[i].extent), r);
    assert(clashes(s.balloons, m.between_balloons, i, n) == tally(pf, n));
    assert(emitters_met(b1, s.emitters, m.to_emitters, i, q) == tally(pe, q));
    assert(bases_met(b2, s.bases, m.motions, i, r) == tally(pb, r));
}

proof fn lemma_emitter_damage(s: GameStateView, m: MeasurementsView, k: int)
    requires
        0 <= k < s.emitters.len(),
    ensures
        ({
            let b1 = bounced(s.balloons, m.between_balloons);
            let n = s.balloons.len() as int;
            emitter_hits(b1, s.emitters, m.to_emitters, k, n) == emitter_damage(s, m, k)
        }),
{
    let b1 = bounced(s.balloons, m.between_balloons);
    let n = s.balloons.len() as int;
    let p = |i: int| hits_emitter(s, m, i, k);
    lemma_count(n, p);
    assert forall|i: int| 0 <= i < n implies #[trigger] p(i) == touches_emitter(
        b1[i],
        s.emitters[k],
        m.to_emitters[i][k],
    ) by {
        law_who_touches_whom(s, m, i, 0, k);
    }
    lemma_tally_agree(p, |i: int| touches_emitter(b1[i], s.emitters[k], m.to_emitters[i][k]), n);
}

/// The same with the first `n` balloons only.
pub proof fn lemma_base_damage(s: GameStateView, m: MeasurementsView, k: int, n: int)
    requires
        0 <= k < s.bases.len(),
        0 <= n <= s.balloons.len(),
    ensures
        ({
            let b1 = bounced(s.balloons, m.between_balloons);
            let b2 = past_emitters(b1, s.emitters, m.to_emitters);
            base_hits(b2, s.bases, m.motions, k, n) == count(n, |i: int| hits_base(s, m, i, k))
        }),
{
    let b1 = bounced(s.balloons, m.between_balloons);
    let b2 = past_emitters(b1, s.emitters, m.to_emitters);
    let p = |i: int| hits_base(s, m, i, k);
    lemma_count(n, p);
    assert forall|i: int| 0 <= i < n implies #[trigger] p(i) == touches_base(
        b2[i],
        s.bases[k],
        m.motions[i].extent,
    ) by {
        law_who_touches_whom(s, m, i, 0, k);
    }
    lemma_tally_agree(p, |i: int| touches_base(b2[i], s.bases[k], m.motions[i].extent), n);
}

// Velocities.

/// Balloons `i` and `j` bounce: where they touch they exchange what `v` holds of them.
pub open spec fn bounce(s: GameStateView, m: MeasurementsView, i: int) -> spec_fn(
    Seq<(Single, Single)>,
    int,
) -> Seq<(Single, Single)> {
    |v: Seq<(Single, Single)>, j: int|
        if i < j && foes_touch(s, m, i, j) {
            v.update(i, v[j]).update(j, v[i])
        } else {
            v
        }
}

/// The numbers from zero up to `n`.
pub open spec fn numbers(n: int) -> Seq<int> {
    Seq::new(n as nat, |i: int| i)
}

/// The velocities `v` of the balloons after all bounces: each balloon in turn with each of those
/// after it.
pub open spec fn bounced_off(
    s: GameStateView,
    m: MeasurementsView,
    v: Seq<(Single, Single)>,
) -> Seq<(Single, Single)> {
    let n = s.balloons.len() as int;
    numbers(n).fold_left(
        v,
        |w: Seq<(Single, Single)>, i: int| numbers(n).fold_left(w, bounce(s, m, i)),
    )
}

proof fn lemma_row(
    s: GameStateView,
    m: MeasurementsView,
    v: Seq<(Single, Single)>,
    i: int,
    j: int,
)
    requires
        0 <= i,
        0 <= j,
    ensures
        numbers(j).fold_left(v, bounce(s, m, i)) == trade_row(
            v,
            s.balloons,
            m.between_balloons,
            i,
            j,
        ),
    decreases j,
{
    if j > 0 {
        lemma_row(s, m, v, i, j - 1);
        assert(numbers(j).drop_last() =~= numbers(j - 1));
        assert(numbers(j).last() == j - 1);
        law_who_touches_whom(s, m, i, j - 1, 0);
        if j <= i + 1 {
            assert(trade_row(v, s.balloons, m.between_balloons, i, j - 1) == v);
        }
    }
}

proof fn lemma_rows(s: GameStateView, m: MeasurementsView, v: Seq<(Single, Single)>, i: int)
    requires
        0 <= i,
        v == crate::collision::balloons::velocities(s.balloons),
    ensures
        ({
            let n = s.balloons.len() as int;
            numbers(i).fold_left(
                v,
                |w: Seq<(Single, Single)>, i: int| numbers(n).fold_left(w, bounce(s, m, i)),
            ) == trade(s.balloons, m.between_balloons, i)
        }),
    decreases i,
{
    if i > 0 {
        lemma_rows(s, m, v, i - 1);
        assert(numbers(i).drop_last() =~= numbers(i - 1));
        assert(numbers(i).last() == i - 1);
        lemma_row(
            s,
            m,
            trade(s.balloons, m.between_balloons, i - 1),
            i - 1,
            s.balloons.len() as int,
        );
    }
}

/// The velocities of the balloons of a room.
pub open spec fn speeds(s: GameStateView) -> Seq<(Single, Single)> {
    Seq::new(s.balloons.len(), |i: int| (s.balloons[i].vx, s.balloons[i].vy))
}

// Battles.

/// A balloon loses one health for each enemy balloon, emitter and base that it touches; those with
/// health left stay, in their order, in their places, and with the velocities of their bounces.
pub proof fn law_battles_wear_balloons(s: GameStateView, m: MeasurementsView)
    ensures
        collided(s, m).balloons == Seq::new(
            s.balloons.len(),
            |i: int|
                (BalloonView {
                    id: s.balloons[i].id,
                    x: s.balloons[i].x,
                    y: s.balloons[i].y,
                    vx: bounced_off(s, m, speeds(s))[i].0,
                    vy: bounced_off(s, m, speeds(s))[i].1,
                    radius: s.balloons[i].radius,
                    health: s.balloons[i].health - balloon_damage(s, m, i),
                    player_id: s.balloons[i].player_id,
                }),
        ).filter(|b: BalloonView| b.health > 0),
{
    let n = s.balloons.len() as int;
    assert(speeds(s) =~= crate::collision::balloons::velocities(s.balloons));
    lemma_rows(s, m, speeds(s), n);
    let told = Seq::new(
        s.balloons.len(),
        |i: int|
            BalloonView {
                id: s.balloons[i].id,
                x: s.balloons[i].x,
                y: s.balloons[i].y,
                vx: bounced_off(s, m, speeds(s))[i].0,
                vy: bounced_off(s, m, speeds(s))[i].1,
                radius: s.balloons[i].radius,
                health: s.balloons[i].health - balloon_damage(s, m, i),
                player_id: s.balloons[i].player_id,
            },
    );
    assert forall|i: int| 0 <= i < n implies battered(s, m)[i] == #[trigger] told[i] by {
        lemma_balloon_damage(s, m, i);
    }
    assert(battered(s, m) =~= told);
}

/// Emitter `k` is touched, and by as many balloons as it has health.
pub open spec fn emitter_falls(s: GameStateView, m: MeasurementsView, k: int) -> bool {
    emitter_damage(s, m, k) > 0 && emitter_damage(s, m, k) >= s.emitters[k].health
}

/// An emitter loses one health for each enemy balloon that touches it, and goes when none is left;
/// what shares its id goes with it. Nothing else about an emitter changes.
pub proof fn law_battles_wear_emitters(s: GameStateView, m: MeasurementsView)
    ensures
        collided(s, m).emitters == Seq::new(
            s.emitters.len(),
            |k: int|
                (EmitterView {
                    id: s.emitters[k].id,
                    x: s.emitters[k].x,
                    y: s.emitters[k].y,
                    player_id: s.emitters[k].player_id,
                    last_emit_time: s.emitters[k].last_emit_time,
                    health: s.emitters[k].health - emitter_damage(s, m, k),
                }),
        ).filter(
            |e: EmitterView|
                !exists|k: int|
                    0 <= k < s.emitters.len() && #[trigger] emitter_falls(s, m, k)
                        && s.emitters[k].id == e.id,
        ),
{
    let b1 = bounced(s.balloons, m.between_balloons);
    let n = s.balloons.len() as int;
    let told = Seq::new(
        s.emitters.len(),
        |k: int|
            EmitterView {
                id: s.emitters[k].id,
                x: s.emitters[k].x,
                y: s.emitters[k].y,
                player_id: s.emitters[k].player_id,
                last_emit_time: s.emitters[k].last_emit_time,
                health: s.emitters[k].health - emitter_damage(s, m, k),
            },
    );
    assert forall|k: int| 0 <= k < s.emitters.len() implies battered_emitters(s, m)[k]
        == #[trigger] told[k] by {
        lemma_emitter_damage(s, m, k);
    }
    assert(battered_emitters(s, m) =~= told);
    let p = |e: EmitterView| !id_down(b1, s.emitters, m.to_emitters, e.id);
    let q = |e: EmitterView|
        !exists|k: int|
            0 <= k < s.emitters.len() && #[trigger] emitter_falls(s, m, k) && s.emitters[k].id
                == e.id;
    assert forall|i: int| 0 <= i < told.len() implies p(#[trigger] told[i]) == q(told[i]) by {
        let id = told[i].id;
        if id_down(b1, s.emitters, m.to_emitters, id) {
            let k = choose|k: int|
                0 <= k < s.emitters.len() && #[trigger] emitter_down(
                    b1,
                    s.emitters,
                    m.to_emitters,
                    k,
                    n,
                ) && s.emitters[k].id == id;
            lemma_emitter_damage(s, m, k);
            assert(emitter_falls(s, m, k));
        }
        if !q(told[i]) {
            let k = choose|k: int|
                0 <= k < s.emitters.len() && #[trigger] emitter_falls(s, m, k) && s.emitters[k].id
                    == id;
            lemma_emitter_damage(s, m, k);
            assert(emitter_down(b1, s.emitters, m.to_emitters, k, n));
        }
    }
    lemma_filter_agree(told, p, q);
}

/// A battle can be settled where no health would run below the least that can be held.
pub proof fn law_endurance(s: GameStateView, m: MeasurementsView)
    ensures
        endures(s, m) <==> {
            &&& forall|i: int|
                0 <= i < s.balloons.len() ==> s.balloons[i].health - #[trigger] balloon_damage(
                    s,
                    m,
                    i,
                ) >= i32::MIN
            &&& forall|k: int|
                0 <= k < s.emitters.len() ==> s.emitters[k].health - #[trigger] emitter_damage(
                    s,
                    m,
                    k,
                ) >= i32::MIN
            &&& forall|k: int|
                0 <= k < s.bases.len() ==> s.bases[k].health - #[trigger] base_damage(s, m, k)
                    >= i32::MIN
        },
{
    assert forall|i: int| 0 <= i < s.balloons.len() implies #[trigger] battered(s, m)[i].health
        == s.balloons[i].health - balloon_damage(s, m, i) by {
        lemma_balloon_damage(s, m, i);
    }
    assert forall|k: int| 0 <= k < s.emitters.len() implies #[trigger] battered_emitters(
        s,
        m,
    )[k].health == s.emitters[k].health - emitter_damage(s, m, k) by {
        lemma_emitter_damage(s, m, k);
    }
    assert forall|k: int| 0 <= k < s.bases.len() implies #[trigger] battered_bases(s, m)[k].health
        == s.bases[k].health - base_damage(s, m, k) by {
        lemma_base_damage(s, m, k, s.balloons.len() as int);
    }
    if endures(s, m) {
        assert forall|i: int| 0 <= i < s.balloons.len() implies s.balloons[i].health
            - #[trigger] balloon_damage(s, m, i) >= i32::MIN by {
            assert(battered(s, m)[i].health >= i32::MIN);
        }
        assert forall|k: int| 0 <= k < s.emitters.len() implies s.emitters[k].health
            - #[trigger] emitter_damage(s, m, k) >= i32::MIN by {
            assert(battered_emitters(s, m)[k].health >= i32::MIN);
        }
        assert forall|k: int| 0 <= k < s.bases.len() implies s.bases[k].health
            - #[trigger] base_damage(s, m, k) >= i32::MIN by {
            assert(battered_bases(s, m)[k].health >= i32::MIN);
        }
    }
}

// Bounces.

proof fn lemma_row_keeps(
    s: GameStateView,
    m: MeasurementsView,
    v: Seq<(Single, Single)>,
    i: int,
    j: int,
    b: int,
)
    requires
        0 <= i < s.balloons.len(),
        0 <= j <= s.balloons.len(),
        0 <= b < s.balloons.len(),
        v.len() == s.balloons.len(),
        b == i ==> forall|x: int| i < x < j ==> !#[trigger] foes_touch(s, m, b, x),
        b != i ==> !(b < j && i < b && foes_touch(s, m, i, b)),
    ensures
        numbers(j).fold_left(v, bounce(s, m, i)).len() == v.len(),
        numbers(j).fold_left(v, bounce(s, m, i))[b] == v[b],
    decreases j,
{
    if j > 0 {
        lemma_row_keeps(s, m, v, i, j - 1, b);
        assert(numbers(j).drop_last() =~= numbers(j - 1));
        assert(numbers(j).last() == j - 1);
        if b == i && i < j - 1 {
            assert(!foes_touch(s, m, b, j - 1));
        }
    }
}

spec fn rows(s: GameStateView, m: MeasurementsView, v: Seq<(Single, Single)>, i: int) -> Seq<
    (Single, Single),
> {
    let n = s.balloons.len() as int;
    numbers(i).fold_left(
        v,
        |w: Seq<(Single, Single)>, i: int| numbers(n).fold_left(w, bounce(s, m, i)),
    )
}

proof fn lemma_rows_step(s: GameStateView, m: MeasurementsView, v: Seq<(Single, Single)>, i: int)
    requires
        0 < i,
    ensures
        rows(s, m, v, i) == numbers(s.balloons.len() as int).fold_left(
            rows(s, m, v, i - 1),
            bounce(s, m, i - 1),
        ),
{
    assert(numbers(i).drop_last() =~= numbers(i - 1));
    assert(numbers(i).last() == i - 1);
}

proof fn lemma_foes_mutual(s: GameStateView, m: MeasurementsView, a: int, b: int)
    ensures
        foes_touch(s, m, a, b) == foes_touch(s, m, b, a),
{
    let ra = s.balloons[a].radius;
    let rb = s.balloons[b].radius;
    assert(2 * ra + 2 * rb == 2 * rb + 2 * ra);
}

proof fn lemma_rows_keep(
    s: GameStateView,
    m: MeasurementsView,
    v: Seq<(Single, Single)>,
    i: int,
    b: int,
)
    requires
        0 <= i <= s.balloons.len(),
        0 <= b < s.balloons.len(),
        v.len() == s.balloons.len(),
        forall|x: int| 0 <= x < s.balloons.len() ==> !#[trigger] foes_touch(s, m, b, x),
    ensures
        rows(s, m, v, i).len() == v.len(),
        rows(s, m, v, i)[b] == v[b],
    decreases i,
{
    if i > 0 {
        lemma_rows_keep(s, m, v, i - 1, b);
        lemma_rows_step(s, m, v, i);
        lemma_foes_mutual(s, m, i - 1, b);
        assert(!foes_touch(s, m, b, i - 1));
        lemma_row_keeps(s, m, rows(s, m, v, i - 1), i - 1, s.balloons.len() as int, b);
    }
}

/// A balloon that touches no enemy balloon keeps its velocity.
pub proof fn law_untouched_fly_on(
    s: GameStateView,
    m: MeasurementsView,
    v: Seq<(Single, Single)>,
    b: int,
)
    requires
        v.len() == s.balloons.len(),
        0 <= b < s.balloons.len(),
        forall|x: int| 0 <= x < s.balloons.len() ==> !#[trigger] foes_touch(s, m, b, x),
    ensures
        bounced_off(s, m, v)[b] == v[b],
{
    lemma_rows_keep(s, m, v, s.balloons.len() as int, b);
}

proof fn lemma_pair_row(
    s: GameStateView,
    m: MeasurementsView,
    v: Seq<(Single, Single)>,
    a: int,
    c: int,
    j: int,
)
    requires
        0 <= a < c < s.balloons.len(),
        0 <= j <= s.balloons.len(),
        v.len() == s.balloons.len(),
        forall|x: int| 0 <= x < s.balloons.len() ==> #[trigger] foes_touch(s, m, a, x) == (x == c),
    ensures
        ({
            let w = numbers(j).fold_left(v, bounce(s, m, a));
            &&& w.len() == v.len()
            &&& w[a] == if c < j { v[c] } else { v[a] }
            &&& w[c] == if c < j { v[a] } else { v[c] }
        }),
    decreases j,
{
    if j > 0 {
        lemma_pair_row(s, m, v, a, c, j - 1);
        assert(numbers(j).drop_last() =~= numbers(j - 1));
        assert(numbers(j).last() == j - 1);
        assert(foes_touch(s, m, a, j - 1) == (j - 1 == c));
    }
}

proof fn lemma_pair_rows(
    s: GameStateView,
    m: MeasurementsView,
    v: Seq<(Single, Single)>,
    a: int,
    c: int,
    i: int,
)
    requires
        0 <= a < c < s.balloons.len(),
        0 <= i <= s.balloons.len(),
        v.len() == s.balloons.len(),
        forall|x: int| 0 <= x < s.balloons.len() ==> #[trigger] foes_touch(s, m, a, x) == (x == c),
        forall|x: int| 0 <= x < s.balloons.len() ==> #[trigger] foes_touch(s, m, c, x) == (x == a),
    ensures
        rows(s, m, v, i).len() == v.len(),
        rows(s, m, v, i)[a] == if a < i { v[c] } else { v[a] },
        rows(s, m, v, i)[c] == if a < i { v[a] } else { v[c] },
    decreases i,
{
    if i > 0 {
        let n = s.balloons.len() as int;
        lemma_pair_rows(s, m, v, a, c, i - 1);
        lemma_rows_step(s, m, v, i);
        let w = rows(s, m, v, i - 1);
        if i - 1 == a {
            lemma_pair_row(s, m, w, a, c, n);
        } else {
            lemma_foes_mutual(s, m, i - 1, a);
            lemma_foes_mutual(s, m, i - 1, c);
            assert(foes_touch(s, m, a, i - 1) == (i - 1 == c));
            assert(foes_touch(s, m, c, i - 1) == (i - 1 == a));
            assert forall|x: int| i - 1 < x < n implies !(i - 1 == c && #[trigger] foes_touch(
                s,
                m,
                c,
                x,
            )) by {}
            lemma_row_keeps(s, m, w, i - 1, n, a);
            lemma_row_keeps(s, m, w, i - 1, n, c);
        }
    }
}

/// Two balloons that touch each other and no other enemy balloon exchange their velocities.
pub proof fn law_pairs_exchange(
    s: GameStateView,
    m: MeasurementsView,
    v: Seq<(Single, Single)>,
    a: int,
    c: int,
)
    requires
        0 <= a < c < s.balloons.len(),
        v.len() == s.balloons.len(),
        forall|x: int| 0 <= x < s.balloons.len() ==> #[trigger] foes_touch(s, m, a, x) == (x == c),
        forall|x: int| 0 <= x < s.balloons.len() ==> #[trigger] foes_touch(s, m, c, x) == (x == a),
    ensures
        bounced_off(s, m, v)[a] == v[c],
        bounced_off(s, m, v)[c] == v[a],
{
    lemma_pair_rows(s, m, v, a, c, s.balloons.len() as int);
}

// Steps.

/// A balloon that has moved sticks out of the canvas to the left or to the right.
pub open spec fn out_sideways(motion: Motion) -> bool {
    let e = motion.extent;
    ||| !e.left.is_nan() && e.left.value() < 0
    ||| !e.right.is_nan() && e.right.value() > 1600 * pow2(148)
}

/// A balloon that has moved sticks out of the canvas above or below.
pub open spec fn out_upright(motion: Motion) -> bool {
    let e = motion.extent;
    ||| !e.top.is_nan() && e.top.value() < 0
    ||| !e.bottom.is_nan() && e.bottom.value() > 1200 * pow2(148)
}

/// A balloon goes where its motion takes it. On an axis on which it then sticks out of the canvas
/// it flies the other way as fast as before, on the other it flies on; nothing else about it
/// changes.
pub proof fn law_balloons_turn_back(bs: Seq<BalloonView>, ms: Seq<Motion>, i: int)
    requires
        0 <= i < bs.len(),
    ensures
        all_moved(bs, ms).len() == bs.len(),
        all_moved(bs, ms)[i].x == ms[i].x,
        all_moved(bs, ms)[i].y == ms[i].y,
        out_sideways(ms[i]) ==> all_moved(bs, ms)[i].vx.value() == -bs[i].vx.value()
            && all_moved(bs, ms)[i].vx != bs[i].vx && all_moved(bs, ms)[i].vx.negated()
            == bs[i].vx,
        !out_sideways(ms[i]) ==> all_moved(bs, ms)[i].vx == bs[i].vx,
        out_upright(ms[i]) ==> all_moved(bs, ms)[i].vy.value() == -bs[i].vy.value()
            && all_moved(bs, ms)[i].vy != bs[i].vy && all_moved(bs, ms)[i].vy.negated()
            == bs[i].vy,
        !out_upright(ms[i]) ==> all_moved(bs, ms)[i].vy == bs[i].vy,
        all_moved(bs, ms)[i].id == bs[i].id,
        all_moved(bs, ms)[i].radius == bs[i].radius,
        all_moved(bs, ms)[i].health == bs[i].health,
        all_moved(bs, ms)[i].player_id == bs[i].player_id,
{
    let e = ms[i].extent;
    assert(all_moved(bs, ms)[i] == moved(bs[i], ms[i]));
    law_comparisons(e.left, e.left, 0);
    law_comparisons(e.right, e.right, 1600);
    law_comparisons(e.top, e.top, 0);
    law_comparisons(e.bottom, e.bottom, 1200);
    assert(out_sideways(ms[i]) == (e.left.below(0) || e.right.above(1600)));
    assert(out_upright(ms[i]) == (e.top.below(0) || e.bottom.above(1200)));
    law_turning_the_sign(bs[i].vx);
    law_turning_the_sign(bs[i].vy);
}

/// The velocities of the balloons once those that stick out of the canvas have turned.
pub open spec fn steered(s: GameStateView, m: MeasurementsView) -> Seq<(Single, Single)> {
    Seq::new(
        s.balloons.len(),
        |i: int|
            (
                if out_sideways(m.motions[i]) {
                    s.balloons[i].vx.negated()
                } else {
                    s.balloons[i].vx
                },
                if out_upright(m.motions[i]) {
                    s.balloons[i].vy.negated()
                } else {
                    s.balloons[i].vy
                },
            ),
    )
}

/// Rooms whose balloons differ in place and velocity alone.
pub open spec fn differ_in_motion(s: GameStateView, t: GameStateView) -> bool {
    &&& t.balloons.len() == s.balloons.len()
    &&& forall|i: int|
        0 <= i < s.balloons.len() ==> (#[trigger] t.balloons[i]).player_id
            == s.balloons[i].player_id && t.balloons[i].radius == s.balloons[i].radius
            && t.balloons[i].id == s.balloons[i].id && t.balloons[i].health
            == s.balloons[i].health
    &&& t.emitters == s.emitters
    &&& t.bases == s.bases
    &&& t.players == s.players
}

pub proof fn lemma_touch_alike(
    s: GameStateView,
    t: GameStateView,
    m: MeasurementsView,
    i: int,
    j: int,
    k: int,
)
    requires
        differ_in_motion(s, t),
        0 <= i < s.balloons.len(),
    ensures
        0 <= j < s.balloons.len() ==> foes_touch(s, m, i, j) == foes_touch(t, m, i, j),
        hits_emitter(s, m, i, k) == hits_emitter(t, m, i, k),
        hits_base(s, m, i, k) == hits_base(t, m, i, k),
{
    assert(t.balloons[i].player_id == s.balloons[i].player_id);
    if 0 <= j < s.balloons.len() {
        assert(t.balloons[j].player_id == s.balloons[j].player_id);
    }
}

proof fn lemma_row_alike(
    s: GameStateView,
    t: GameStateView,
    m: MeasurementsView,
    v: Seq<(Single, Single)>,
    i: int,
    j: int,
)
    requires
        differ_in_motion(s, t),
        0 <= i < s.balloons.len(),
        0 <= j <= s.balloons.len(),
    ensures
        numbers(j).fold_left(v, bounce(s, m, i)) == numbers(j).fold_left(v, bounce(t, m, i)),
    decreases j,
{
    if j > 0 {
        lemma_row_alike(s, t, m, v, i, j - 1);
        assert(numbers(j).drop_last() =~= numbers(j - 1));
        assert(numbers(j).last() == j - 1);
        lemma_touch_alike(s, t, m, i, j - 1, 0);
    }
}

proof fn lemma_rows_alike(
    s: GameStateView,
    t: GameStateView,
    m: MeasurementsView,
    v: Seq<(Single, Single)>,
    i: int,
)
    requires
        differ_in_motion(s, t),
        0 <= i <= s.balloons.len(),
    ensures
        rows(s, m, v, i) == rows(t, m, v, i),
    decreases i,
{
    if i > 0 {
        lemma_rows_alike(s, t, m, v, i - 1);
        lemma_rows_step(s, m, v, i);
        lemma_rows_step(t, m, v, i);
        lemma_row_alike(s, t, m, rows(s, m, v, i - 1), i - 1, s.balloons.len() as int);
    } else {
        assert(numbers(0) =~= Seq::<int>::empty());
    }
}

pub proof fn lemma_damage_alike(s: GameStateView, t: GameStateView, m: MeasurementsView, i: int, k: int)
    requires
        differ_in_motion(s, t),
    ensures
        0 <= i < s.balloons.len() ==> balloon_damage(s, m, i) == balloon_damage(t, m, i),
        emitter_damage(s, m, k) == emitter_damage(t, m, k),
        base_damage(s, m, k) == base_damage(t, m, k),
{
    let n = s.balloons.len() as int;
    if 0 <= i < n {
        let p = |j: int| foes_touch(s, m, i, j);
        let q = |j: int| foes_touch(t, m, i, j);
        assert forall|j: int| 0 <= j < n implies #[trigger] p(j) == q(j) by {
            lemma_touch_alike(s, t, m, i, j, 0);
        }
        lemma_count_agrees(n, p, q);
        let pe = |k: int| hits_emitter(s, m, i, k);
        let qe = |k: int| hits_emitter(t, m, i, k);
        assert forall|k: int| 0 <= k < s.emitters.len() implies #[trigger] pe(k) == qe(k) by {
            lemma_touch_alike(s, t, m, i, 0, k);
        }
        lemma_count_agrees(s.emitters.len() as int, pe, qe);
        let pb = |k: int| hits_base(s, m, i, k);
        let qb = |k: int| hits_base(t, m, i, k);
        assert forall|k: int| 0 <= k < s.bases.len() implies #[trigger] pb(k) == qb(k) by {
            lemma_touch_alike(s, t, m, i, 0, k);
        }
        lemma_count_agrees(s.bases.len() as int, pb, qb);
    }
    let pe = |i: int| hits_emitter(s, m, i, k);
    let qe = |i: int| hits_emitter(t, m, i, k);
    assert forall|i: int| 0 <= i < n implies #[trigger] pe(i) == qe(i) by {
        lemma_touch_alike(s, t, m, i, 0, k);
    }
    lemma_count_agrees(n, pe, qe);
    let pb = |i: int| hits_base(s, m, i, k);
    let qb = |i: int| hits_base(t, m, i, k);
    assert forall|i: int| 0 <= i < n implies #[trigger] pb(i) == qb(i) by {
        lemma_touch_alike(s, t, m, i, 0, k);
    }
    lemma_count_agrees(n, pb, qb);
}

pub proof fn lemma_drifted(s: GameStateView, now: int, m: MeasurementsView)
    ensures
        differ_in_motion(s, drifted(s, now, m)),
        speeds(drifted(s, now, m)) == steered(s, m),
{
    let t = drifted(s, now, m);
    assert forall|i: int| 0 <= i < s.balloons.len() implies speeds(t)[i] == #[trigger] steered(
        s,
        m,
    )[i] by {
        law_balloons_turn_back(s.balloons, m.motions, i);
    }
    assert(speeds(t) =~= steered(s, m));
}

/// After a step, a balloon that was there and is left is where its motion took it, with one health
/// less for each enemy balloon, emitter and base that it touched there, and no other; it has turned
/// at the edges of the canvas and bounced off the enemy balloons. Those without health are gone.
pub proof fn law_steps_wear_balloons(s: GameStateView, now: int, m: MeasurementsView)
    ensures
        advanced(s, now, m).balloons == Seq::new(
            s.balloons.len(),
            |i: int|
                (BalloonView {
                    id: s.balloons[i].id,
                    x: m.motions[i].x,
                    y: m.motions[i].y,
                    vx: bounced_off(s, m, steered(s, m))[i].0,
                    vy: bounced_off(s, m, steered(s, m))[i].1,
                    radius: s.balloons[i].radius,
                    health: s.balloons[i].health - balloon_damage(s, m, i),
                    player_id: s.balloons[i].player_id,
                }),
        ).filter(|b: BalloonView| b.health > 0),
{
    let t = drifted(s, now, m);
    let n = s.balloons.len() as int;
    law_battles_wear_balloons(t, m);
    lemma_drifted(s, now, m);
    lemma_rows_alike(s, t, m, steered(s, m), n);
    let before = Seq::new(
        t.balloons.len(),
        |i: int|
            BalloonView {
                id: t.balloons[i].id,
                x: t.balloons[i].x,
                y: t.balloons[i].y,
                vx: bounced_off(t, m, speeds(t))[i].0,
                vy: bounced_off(t, m, speeds(t))[i].1,
                radius: t.balloons[i].radius,
                health: t.balloons[i].health - balloon_damage(t, m, i),
                player_id: t.balloons[i].player_id,
            },
    );
    let told = Seq::new(
        s.balloons.len(),
        |i: int|
            BalloonView {
                id: s.balloons[i].id,
                x: m.motions[i].x,
                y: m.motions[i].y,
                vx: bounced_off(s, m, steered(s, m))[i].0,
                vy: bounced_off(s, m, steered(s, m))[i].1,
                radius: s.balloons[i].radius,
                health: s.balloons[i].health - balloon_damage(s, m, i),
                player_id: s.balloons[i].player_id,
            },
    );
    assert forall|i: int| 0 <= i < n implies before[i] == #[trigger] told[i] by {
        law_balloons_turn_back(s.balloons, m.motions, i);
        lemma_damage_alike(s, t, m, i, 0);
    }
    assert(before =~= told);
}

} // verus!
