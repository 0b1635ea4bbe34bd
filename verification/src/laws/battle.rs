//! Collisions: what they cost, what they leave alone, and what is left after them.

use super::lobby::is_hosted;
use crate::collision::balloons::{bounced, clash, exchange, trade, trade_row, velocities};
use crate::collision::bases::{
    base_hits, felled, felled_by, fells, past_bases, razed, struck_bases, touches_base,
    without_base,
};
use crate::collision::emitters::{
    emitter_down, id_down, past_emitters, struck_emitters, touches_emitter,
};
use crate::collision::{battered, battered_bases, battered_emitters, collided, lemma_battered};
use crate::measure::{MeasurementsView, Motion};
use crate::seqs::{
    first_where, lemma_filter_agree, lemma_filter_all, lemma_filter_has, lemma_filter_twice,
    lemma_first_where, lemma_tally_bounds, lemma_tally_grows, tally,
};
use crate::single::Single;
use crate::state::{BalloonView, BaseView, EmitterView, GameStateView, PlayerView};
use crate::update::launches::Velocity;
use crate::update::{drifted, stepped};
use vstd::prelude::*;

verus! {

// Velocities.

proof fn lemma_update_multiset<A>(v: Seq<A>, i: int, a: A)
    requires
        0 <= i < v.len(),
    ensures
        v.update(i, a).to_multiset() == v.to_multiset().remove(v[i]).insert(a),
{
    broadcast use vstd::seq_lib::group_to_multiset_ensures;

    vstd::seq_lib::to_multiset_remove(v, i);
    vstd::seq_lib::to_multiset_insert(v.remove(i), i, a);
    assert(v.update(i, a) =~= v.remove(i).insert(i, a));
}

proof fn lemma_exchange_multiset<A>(v: Seq<A>, i: int, j: int)
    requires
        0 <= i < v.len(),
        0 <= j < v.len(),
        i != j,
    ensures
        exchange(v, i, j).to_multiset() == v.to_multiset(),
{
    broadcast use vstd::multiset::group_multiset_axioms;
    broadcast use vstd::seq_lib::group_to_multiset_ensures;

    let w = v.update(i, v[j]);
    lemma_update_multiset(v, i, v[j]);
    lemma_update_multiset(w, j, v[i]);
    assert(w[j] == v[j]);
    assert(v.contains(v[i]));
    assert(v.to_multiset().count(v[i]) > 0);
    assert(exchange(v, i, j).to_multiset() =~= v.to_multiset());
}

proof fn lemma_trade_row_multiset(
    v: Seq<(Single, Single)>,
    bs: Seq<BalloonView>,
    d: Seq<Seq<Single>>,
    i: int,
    j: int,
)
    requires
        v.len() == bs.len(),
        0 <= i < bs.len(),
        j <= bs.len(),
    ensures
        trade_row(v, bs, d, i, j).len() == v.len(),
        trade_row(v, bs, d, i, j).to_multiset() == v.to_multiset(),
    decreases j,
{
    if !(j <= i + 1 || j <= 0) {
        lemma_trade_row_multiset(v, bs, d, i, j - 1);
        let w = trade_row(v, bs, d, i, j - 1);
        lemma_exchange_multiset(w, i, j - 1);
    }
}

proof fn lemma_trade_multiset(bs: Seq<BalloonView>, d: Seq<Seq<Single>>, i: int)
    requires
        i <= bs.len(),
    ensures
        trade(bs, d, i).len() == bs.len(),
        trade(bs, d, i).to_multiset() == velocities(bs).to_multiset(),
    decreases i,
{
    if i > 0 {
        lemma_trade_multiset(bs, d, i - 1);
        lemma_trade_row_multiset(trade(bs, d, i - 1), bs, d, i - 1, bs.len() as int);
    }
}

/// Balloons that bounce off each other exchange their velocities: none is lost and none is new.
/// Nor do they change place.
pub proof fn law_bounces_exchange_velocities(bs: Seq<BalloonView>, d: Seq<Seq<Single>>)
    ensures
        velocities(bounced(bs, d)).to_multiset() == velocities(bs).to_multiset(),
        forall|b: int|
            0 <= b < bs.len() ==> (#[trigger] bounced(bs, d)[b]).x == bs[b].x && bounced(bs, d)[b].y
                == bs[b].y && bounced(bs, d)[b].id == bs[b].id && bounced(bs, d)[b].player_id
                == bs[b].player_id,
{
    lemma_trade_multiset(bs, d, bs.len() as int);
    assert(velocities(bounced(bs, d)) =~= trade(bs, d, bs.len() as int));
}

// Costs.

/// Collisions are mutual, and nothing collides with what belongs to the same player.
pub proof fn law_no_harm_to_ones_own(
    bs: Seq<BalloonView>,
    d: Seq<Seq<Single>>,
    b: int,
    c: int,
    e: EmitterView,
    base: BaseView,
    distance: Single,
    m: Motion,
)
    ensures
        clash(bs, d, b, c) == clash(bs, d, c, b),
        bs[b].player_id == bs[c].player_id ==> !clash(bs, d, b, c),
        bs[b].player_id == e.player_id ==> !touches_emitter(bs[b], e, distance),
        bs[b].player_id == base.player_id ==> !touches_base(bs[b], base, m.extent),
{
}

/// The sum of the first `n` values.
pub open spec fn sum(n: int, f: spec_fn(int) -> int) -> int
    decreases n,
{
    if n <= 0 {
        0
    } else {
        sum(n - 1, f) + f(n - 1)
    }
}

proof fn lemma_sum_agree(n: int, f: spec_fn(int) -> int, g: spec_fn(int) -> int)
    requires
        forall|i: int| 0 <= i < n ==> #[trigger] f(i) == g(i),
    ensures
        sum(n, f) == sum(n, g),
    decreases n,
{
    if n > 0 {
        lemma_sum_agree(n - 1, f, g);
    }
}

spec fn row(p: spec_fn(int, int) -> bool, i: int) -> spec_fn(int) -> bool {
    |k: int| p(i, k)
}

spec fn column(p: spec_fn(int, int) -> bool, k: int) -> spec_fn(int) -> bool {
    |i: int| p(i, k)
}

/// A table of yes and no has as many yes counted by rows as by columns.
proof fn lemma_count_both_ways(p: spec_fn(int, int) -> bool, a: int, b: int)
    requires
        0 <= a,
        0 <= b,
    ensures
        sum(a, |i: int| tally(row(p, i), b)) == sum(b, |k: int| tally(column(p, k), a)),
    decreases a,
{
    if a == 0 {
        lemma_no_columns(p, b);
    } else {
        lemma_count_both_ways(p, a - 1, b);
        lemma_add_row(p, a - 1, b);
    }
}

proof fn lemma_no_columns(p: spec_fn(int, int) -> bool, b: int)
    requires
        0 <= b,
    ensures
        sum(b, |k: int| tally(column(p, k), 0)) == 0,
    decreases b,
{
    if b > 0 {
        lemma_no_columns(p, b - 1);
    }
}

proof fn lemma_add_row(p: spec_fn(int, int) -> bool, i: int, b: int)
    requires
        0 <= i,
        0 <= b,
    ensures
        sum(b, |k: int| tally(column(p, k), i + 1)) == sum(b, |k: int| tally(column(p, k), i))
            + tally(row(p, i), b),
    decreases b,
{
    if b > 0 {
        lemma_add_row(p, i, b - 1);
    }
}

/// The balloons lose as much health to the emitters as the emitters lose to them.
pub proof fn law_emitter_fights_cost_both_alike(
    bs: Seq<BalloonView>,
    es: Seq<EmitterView>,
    d: Seq<Seq<Single>>,
)
    ensures
        sum(
            bs.len() as int,
            |i: int| bs[i].health - past_emitters(bs, es, d)[i].health,
        ) == sum(
            es.len() as int,
            |k: int| es[k].health - struck_emitters(bs, es, d)[k].health,
        ),
{
    let n = bs.len() as int;
    let q = es.len() as int;
    let p = |i: int, k: int| touches_emitter(bs[i], es[k], d[i][k]);
    lemma_count_both_ways(p, n, q);
    assert forall|i: int| 0 <= i < n implies bs[i].health - past_emitters(bs, es, d)[i].health
        == #[trigger] tally(row(p, i), q) by {
        lemma_tally_agree(row(p, i), |k: int| touches_emitter(bs[i], es[k], d[i][k]), q);
    }
    assert forall|k: int| 0 <= k < q implies es[k].health - struck_emitters(bs, es, d)[k].health
        == #[trigger] tally(column(p, k), n) by {
        lemma_tally_agree(column(p, k), |i: int| touches_emitter(bs[i], es[k], d[i][k]), n);
    }
    lemma_sum_agree(
        n,
        |i: int| bs[i].health - past_emitters(bs, es, d)[i].health,
        |i: int| tally(row(p, i), q),
    );
    lemma_sum_agree(
        q,
        |k: int| es[k].health - struck_emitters(bs, es, d)[k].health,
        |k: int| tally(column(p, k), n),
    );
}

/// The balloons lose as much health to the bases as the bases lose to them.
pub proof fn law_base_fights_cost_both_alike(
    bs: Seq<BalloonView>,
    cs: Seq<BaseView>,
    m: Seq<Motion>,
)
    ensures
        sum(
            bs.len() as int,
            |i: int| bs[i].health - past_bases(bs, cs, m)[i].health,
        ) == sum(cs.len() as int, |k: int| cs[k].health - struck_bases(bs, cs, m)[k].health),
{
    let n = bs.len() as int;
    let q = cs.len() as int;
    let p = |i: int, k: int| touches_base(bs[i], cs[k], m[i].extent);
    lemma_count_both_ways(p, n, q);
    assert forall|i: int| 0 <= i < n implies bs[i].health - past_bases(bs, cs, m)[i].health
        == #[trigger] tally(row(p, i), q) by {
        lemma_tally_agree(row(p, i), |k: int| touches_base(bs[i], cs[k], m[i].extent), q);
    }
    assert forall|k: int| 0 <= k < q implies cs[k].health - struck_bases(bs, cs, m)[k].health
        == #[trigger] tally(column(p, k), n) by {
        lemma_tally_agree(column(p, k), |i: int| touches_base(bs[i], cs[k], m[i].extent), n);
    }
    lemma_sum_agree(
        n,
        |i: int| bs[i].health - past_bases(bs, cs, m)[i].health,
        |i: int| tally(row(p, i), q),
    );
    lemma_sum_agree(
        q,
        |k: int| cs[k].health - struck_bases(bs, cs, m)[k].health,
        |k: int| tally(column(p, k), n),
    );
}

pub proof fn lemma_tally_agree(p: spec_fn(int) -> bool, q: spec_fn(int) -> bool, n: int)
    requires
        forall|i: int| 0 <= i < n ==> #[trigger] p(i) == q(i),
    ensures
        tally(p, n) == tally(q, n),
    decreases n,
{
    if n > 0 {
        lemma_tally_agree(p, q, n - 1);
    }
}

// Survivors.

/// Every balloon that is left has health, and is one that was there, with no more health than it
/// had.
pub proof fn law_balloons_left_have_health(s: GameStateView, m: MeasurementsView, b: BalloonView)
    requires
        collided(s, m).balloons.contains(b),
    ensures
        b.health > 0,
        exists|i: int|
            0 <= i < s.balloons.len() && b == #[trigger] battered(s, m)[i] && b.health
                <= s.balloons[i].health && b.id == s.balloons[i].id && b.player_id
                == s.balloons[i].player_id && b.radius == s.balloons[i].radius,
{
    let p = |b: BalloonView| b.health > 0;
    lemma_filter_has(battered(s, m), p, b);
    let i = choose|i: int| 0 <= i < battered(s, m).len() && battered(s, m)[i] == b;
    lemma_battered(s, m, i);
}

/// Where every emitter had health, every emitter that is left has health.
pub proof fn law_emitters_left_have_health(s: GameStateView, m: MeasurementsView, e: EmitterView)
    requires
        forall|k: int| 0 <= k < s.emitters.len() ==> (#[trigger] s.emitters[k]).health > 0,
        collided(s, m).emitters.contains(e),
    ensures
        e.health > 0,
        exists|k: int|
            0 <= k < s.emitters.len() && e == #[trigger] battered_emitters(s, m)[k] && e.health
                <= s.emitters[k].health && e.id == s.emitters[k].id,
{
    let b1 = bounced(s.balloons, m.between_balloons);
    let d = m.to_emitters;
    let es = s.emitters;
    let n = b1.len() as int;
    let p = |e: EmitterView| !id_down(b1, es, d, e.id);
    lemma_filter_has(battered_emitters(s, m), p, e);
    let k = choose|k: int|
        0 <= k < battered_emitters(s, m).len() && battered_emitters(s, m)[k] == e;
    lemma_tally_bounds(|i: int| touches_emitter(b1[i], es[k], d[i][k]), n);
    assert(es[k].health > 0);
    assert(!emitter_down(b1, es, d, k, n));
}

/// No player has two bases.
pub open spec fn one_base_each(cs: Seq<BaseView>) -> bool {
    forall|i: int, j: int|
        0 <= i < j < cs.len() ==> (#[trigger] cs[i]).player_id != (#[trigger] cs[j]).player_id
}

proof fn lemma_without_base(cs: Seq<BaseView>, id: Seq<char>)
    requires
        one_base_each(cs),
    ensures
        without_base(cs, id) == cs.filter(|c: BaseView| c.player_id != id),
{
    let p = |c: BaseView| c.player_id == id;
    let q = |c: BaseView| c.player_id != id;
    lemma_first_where(cs, p);
    match first_where(cs, p) {
        Some(k) => {
            let a = cs.take(k);
            let one = seq![cs[k]];
            let b = cs.skip(k + 1);
            assert(cs =~= a + one + b);
            assert forall|i: int| 0 <= i < a.len() implies q(#[trigger] a[i]) by {
                assert(a[i] == cs[i]);
                assert(!p(cs[i]));
            }
            assert forall|i: int| 0 <= i < b.len() implies q(#[trigger] b[i]) by {
                assert(b[i] == cs[k + 1 + i]);
                assert(cs[k].player_id != cs[k + 1 + i].player_id);
            }
            lemma_filter_all(a, q);
            lemma_filter_all(b, q);
            Seq::filter_distributes_over_add(a + one, b, q);
            Seq::filter_distributes_over_add(a, one, q);
            assert(one.filter(q) =~= Seq::<BaseView>::empty()) by {
                reveal_with_fuel(Seq::filter, 2);
                assert(one.drop_last() =~= Seq::<BaseView>::empty());
                assert(!q(one.last()));
            }
            assert(cs.remove(k) =~= a + Seq::<BaseView>::empty() + b);
        },
        None => {
            assert forall|i: int| 0 <= i < cs.len() implies q(#[trigger] cs[i]) by {
                assert(!p(cs[i]));
            }
            lemma_filter_all(cs, q);
        },
    }
}

pub proof fn lemma_filter_one_base_each(cs: Seq<BaseView>, p: spec_fn(BaseView) -> bool)
    requires
        one_base_each(cs),
    ensures
        one_base_each(cs.filter(p)),
    decreases cs.len(),
{
    reveal(Seq::filter);
    if cs.len() > 0 {
        let rest = cs.drop_last();
        assert forall|i: int, j: int| 0 <= i < j < rest.len() implies (#[trigger] rest[i]).player_id
            != (#[trigger] rest[j]).player_id by {
            assert(rest[i] == cs[i] && rest[j] == cs[j]);
        }
        lemma_filter_one_base_each(rest, p);
        let kept = rest.filter(p);
        if p(cs.last()) {
            let t = kept.push(cs.last());
            assert forall|i: int, j: int| 0 <= i < j < t.len() implies (#[trigger] t[i]).player_id
                != (#[trigger] t[j]).player_id by {
                assert(t[i] == kept[i]);
                if j < kept.len() {
                    assert(t[j] == kept[j]);
                } else {
                    assert(kept.contains(kept[i]));
                    lemma_filter_has(rest, p, kept[i]);
                    let k = choose|k: int| 0 <= k < rest.len() && rest[k] == kept[i];
                    assert(cs[k] == kept[i]);
                    assert(cs[cs.len() - 1] == cs.last());
                }
            }
        }
    }
}

proof fn lemma_razed_is_filter(cs: Seq<BaseView>, ids: Seq<Seq<char>>)
    requires
        one_base_each(cs),
    ensures
        razed(cs, ids) == cs.filter(|c: BaseView| !ids.contains(c.player_id)),
    decreases ids.len(),
{
    let q = |c: BaseView| !ids.contains(c.player_id);
    if ids.len() == 0 {
        lemma_filter_all(cs, q);
    } else {
        let less = ids.drop_last();
        let id = ids.last();
        let p = |c: BaseView| !less.contains(c.player_id);
        let r = |c: BaseView| c.player_id != id;
        lemma_razed_is_filter(cs, less);
        lemma_filter_one_base_each(cs, p);
        lemma_without_base(cs.filter(p), id);
        lemma_filter_twice(cs, p, r);
        assert forall|i: int| 0 <= i < cs.len() implies q(#[trigger] cs[i]) == (p(cs[i]) && r(
            cs[i],
        )) by {
            lemma_contains_last(ids, cs[i].player_id);
        }
        lemma_filter_agree(cs, |c: BaseView| p(c) && r(c), q);
    }
}

proof fn lemma_contains_last<A>(s: Seq<A>, a: A)
    requires
        s.len() > 0,
    ensures
        s.contains(a) == (s.drop_last().contains(a) || s.last() == a),
{
    if s.contains(a) {
        let i = choose|i: int| 0 <= i < s.len() && s[i] == a;
        if i < s.len() - 1 {
            assert(s.drop_last()[i] == a);
        }
    }
    if s.drop_last().contains(a) {
        let i = choose|i: int| 0 <= i < s.drop_last().len() && s.drop_last()[i] == a;
        assert(s[i] == a);
    }
    assert(s[s.len() - 1] == s.last());
}

/// The first `n` balloons have struck base `k` and left it without health.
pub open spec fn base_down(
    bs: Seq<BalloonView>,
    cs: Seq<BaseView>,
    m: Seq<Motion>,
    k: int,
    n: int,
) -> bool {
    base_hits(bs, cs, m, k, n) > 0 && cs[k].health - base_hits(bs, cs, m, k, n) <= 0
}

/// A base of that player has been struck down.
pub open spec fn owner_down(
    bs: Seq<BalloonView>,
    cs: Seq<BaseView>,
    m: Seq<Motion>,
    id: Seq<char>,
    n: int,
) -> bool {
    exists|k: int|
        0 <= k < cs.len() && #[trigger] base_down(bs, cs, m, k, n) && cs[k].player_id == id
}

proof fn lemma_down_has_last_blow(
    bs: Seq<BalloonView>,
    cs: Seq<BaseView>,
    m: Seq<Motion>,
    k: int,
    n: int,
) -> (i: int)
    requires
        base_down(bs, cs, m, k, n),
    ensures
        0 <= i < n,
        fells(bs, cs, m, i, k),
    decreases n,
{
    if touches_base(bs[n - 1], cs[k], m[n - 1].extent) {
        n - 1
    } else {
        assert(base_hits(bs, cs, m, k, n) == base_hits(bs, cs, m, k, n - 1));
        lemma_down_has_last_blow(bs, cs, m, k, n - 1)
    }
}

proof fn lemma_blow_is_down(
    bs: Seq<BalloonView>,
    cs: Seq<BaseView>,
    m: Seq<Motion>,
    i: int,
    k: int,
    n: int,
)
    requires
        0 <= i < n,
        fells(bs, cs, m, i, k),
    ensures
        base_down(bs, cs, m, k, n),
{
    let p = |i: int| touches_base(bs[i], cs[k], m[i].extent);
    lemma_tally_grows(p, 0, i);
    lemma_tally_grows(p, i + 1, n);
    assert(base_hits(bs, cs, m, k, i + 1) == base_hits(bs, cs, m, k, i) + 1);
}

proof fn lemma_felled_by_has(
    bs: Seq<BalloonView>,
    cs: Seq<BaseView>,
    m: Seq<Motion>,
    i: int,
    k: int,
    id: Seq<char>,
)
    requires
        0 <= k <= cs.len(),
    ensures
        felled_by(bs, cs, m, i, k).contains(id) == exists|c: int|
            0 <= c < k && #[trigger] fells(bs, cs, m, i, c) && cs[c].player_id == id,
    decreases k,
{
    if k > 0 {
        lemma_felled_by_has(bs, cs, m, i, k - 1, id);
        let before = felled_by(bs, cs, m, i, k - 1);
        let now = felled_by(bs, cs, m, i, k);
        if fells(bs, cs, m, i, k - 1) {
            assert(now.drop_last() =~= before);
            lemma_contains_last(now, id);
        }
        if before.contains(id) {
            let c = choose|c: int|
                0 <= c < k - 1 && #[trigger] fells(bs, cs, m, i, c) && cs[c].player_id == id;
            assert(fells(bs, cs, m, i, c));
        }
    }
}

proof fn lemma_felled_has(
    bs: Seq<BalloonView>,
    cs: Seq<BaseView>,
    m: Seq<Motion>,
    n: int,
    id: Seq<char>,
)
    requires
        0 <= n,
    ensures
        felled(bs, cs, m, n).contains(id) == owner_down(bs, cs, m, id, n),
    decreases n,
{
    if n > 0 {
        let q = cs.len() as int;
        lemma_felled_has(bs, cs, m, n - 1, id);
        lemma_felled_by_has(bs, cs, m, n - 1, q, id);
        let before = felled(bs, cs, m, n - 1);
        let new = felled_by(bs, cs, m, n - 1, q);
        assert((before + new).contains(id) == (before.contains(id) || new.contains(id))) by {
            if before.contains(id) {
                let x = choose|x: int| 0 <= x < before.len() && before[x] == id;
                assert((before + new)[x] == id);
            }
            if new.contains(id) {
                let x = choose|x: int| 0 <= x < new.len() && new[x] == id;
                assert((before + new)[before.len() + x] == id);
            }
        }
        if before.contains(id) {
            let k = choose|k: int|
                0 <= k < q && #[trigger] base_down(bs, cs, m, k, n - 1) && cs[k].player_id == id;
            let i = lemma_down_has_last_blow(bs, cs, m, k, n - 1);
            lemma_blow_is_down(bs, cs, m, i, k, n);
        }
        if new.contains(id) {
            let c = choose|c: int|
                0 <= c < q && #[trigger] fells(bs, cs, m, n - 1, c) && cs[c].player_id == id;
            lemma_blow_is_down(bs, cs, m, n - 1, c, n);
        }
        if owner_down(bs, cs, m, id, n) {
            let k = choose|k: int|
                0 <= k < q && #[trigger] base_down(bs, cs, m, k, n) && cs[k].player_id == id;
            let i = lemma_down_has_last_blow(bs, cs, m, k, n);
            if i == n - 1 {
                assert(fells(bs, cs, m, n - 1, k));
            } else {
                lemma_blow_is_down(bs, cs, m, i, k, n - 1);
            }
        }
    } else {
        assert forall|k: int| !base_down(bs, cs, m, k, n) by {}
    }
}

/// A player's base has been struck down in the collisions of the room.
pub open spec fn loses_base(s: GameStateView, m: MeasurementsView, id: Seq<char>) -> bool {
    let b1 = bounced(s.balloons, m.between_balloons);
    let b2 = past_emitters(b1, s.emitters, m.to_emitters);
    owner_down(b2, s.bases, m.motions, id, s.balloons.len() as int)
}

/// A player is out when a base of the player has been struck until its health is gone: those
/// players leave the list. Where no player has two bases, just their bases are removed, and no
/// player has two bases after that.
pub proof fn law_out_with_the_base(s: GameStateView, m: MeasurementsView)
    ensures
        collided(s, m).players == s.players.filter(|p: PlayerView| !loses_base(s, m, p.id)),
        one_base_each(s.bases) ==> collided(s, m).bases == battered_bases(s, m).filter(
            |c: BaseView| !loses_base(s, m, c.player_id),
        ) && one_base_each(collided(s, m).bases),
{
    let b1 = bounced(s.balloons, m.between_balloons);
    let b2 = past_emitters(b1, s.emitters, m.to_emitters);
    let n = s.balloons.len() as int;
    let gone = felled(b2, s.bases, m.motions, n);
    assert forall|id: Seq<char>| #[trigger] gone.contains(id) == loses_base(s, m, id) by {
        lemma_felled_has(b2, s.bases, m.motions, n, id);
    }
    lemma_filter_agree(
        s.players,
        |p: PlayerView| !gone.contains(p.id),
        |p: PlayerView| !loses_base(s, m, p.id),
    );
    if one_base_each(s.bases) {
        let cs = battered_bases(s, m);
        assert forall|i: int, j: int| 0 <= i < j < cs.len() implies (#[trigger] cs[i]).player_id
            != (#[trigger] cs[j]).player_id by {
            assert(s.bases[i].player_id != s.bases[j].player_id);
        }
        lemma_razed_is_filter(cs, gone);
        lemma_filter_agree(
            cs,
            |c: BaseView| !gone.contains(c.player_id),
            |c: BaseView| !loses_base(s, m, c.player_id),
        );
        lemma_filter_one_base_each(cs, |c: BaseView| !gone.contains(c.player_id));
    }
}

/// Where every base had health and no player has two bases, every base that is left has health.
pub proof fn law_bases_left_have_health(s: GameStateView, m: MeasurementsView, c: BaseView)
    requires
        one_base_each(s.bases),
        forall|k: int| 0 <= k < s.bases.len() ==> (#[trigger] s.bases[k]).health > 0,
        collided(s, m).bases.contains(c),
    ensures
        c.health > 0,
        exists|k: int|
            0 <= k < s.bases.len() && c == #[trigger] battered_bases(s, m)[k] && c.health
                <= s.bases[k].health,
{
    law_out_with_the_base(s, m);
    let b1 = bounced(s.balloons, m.between_balloons);
    let b2 = past_emitters(b1, s.emitters, m.to_emitters);
    let n = s.balloons.len() as int;
    let p = |c: BaseView| !loses_base(s, m, c.player_id);
    lemma_filter_has(battered_bases(s, m), p, c);
    let k = choose|k: int| 0 <= k < battered_bases(s, m).len() && battered_bases(s, m)[k] == c;
    lemma_tally_bounds(|i: int| touches_base(b2[i], s.bases[k], m.motions[i].extent), n);
    assert(s.bases[k].health > 0);
    assert(!base_down(b2, s.bases, m.motions, k, n));
}

/// A step keeps a room hosted, as long as the host does not lose the base: a host who does is out,
/// but nobody takes over.
pub proof fn law_steps_keep_hosted(
    s: GameStateView,
    t: GameStateView,
    now: int,
    m: MeasurementsView,
    vs: Seq<Velocity>,
)
    requires
        is_hosted(s),
        stepped(s, t, now, m, vs),
        s.game_started && s.host_id is Some ==> !loses_base(drifted(s, now, m), m, s.host_id->0),
    ensures
        is_hosted(t),
{
    if s.game_started {
        let u = drifted(s, now, m);
        let p = |p: PlayerView| !loses_base(u, m, p.id);
        law_out_with_the_base(u, m);
        assert(t.players == s.players.filter(p));
        match s.host_id {
            Some(h) => {
                let i = choose|i: int|
                    0 <= i < s.players.len() && (#[trigger] s.players[i]).id == h;
                let a = s.players[i];
                assert(s.players.contains(a));
                lemma_filter_has(s.players, p, a);
                let j = choose|j: int| 0 <= j < t.players.len() && t.players[j] == a;
                assert(t.players[j].id == h);
            },
            None => {
                broadcast use Seq::lemma_filter_len;

            },
        }
    }
}

/// The game is over when at most one base is left, and over for good; who has the last base wins.
/// The start of the game, the host and the grid are untouched.
pub proof fn law_last_base_wins(s: GameStateView, m: MeasurementsView)
    ensures
        collided(s, m).game_over == (s.game_over || collided(s, m).bases.len() <= 1),
        collided(s, m).bases.len() == 1 ==> collided(s, m).winner_player_id == Some(
            collided(s, m).bases[0].player_id,
        ),
        collided(s, m).bases.len() != 1 ==> collided(s, m).winner_player_id == s.winner_player_id,
        collided(s, m).game_started == s.game_started,
        collided(s, m).host_id == s.host_id,
        collided(s, m).grid == s.grid,
{
}

} // verus!
