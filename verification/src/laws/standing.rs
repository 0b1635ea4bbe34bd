//! Bases: which of them a battle leaves standing.

use super::battle::{base_down, law_out_with_the_base, loses_base};
use super::contact::{count, hits_base, law_who_touches_whom, lemma_count, lemma_count_agrees};
use super::steps::{base_damage, lemma_base_damage, numbers};
use crate::collision::balloons::bounced;
use crate::collision::bases::{felled, felled_by, fells, razed};
use crate::collision::emitters::past_emitters;
use crate::collision::{battered_bases, collided};
use crate::measure::MeasurementsView;
use crate::seqs::{
    first_where, lemma_filter_agree, lemma_filter_all, lemma_filter_has, lemma_filter_twice,
    lemma_first_where, lemma_tally_grows, tally,
};
use crate::state::{BaseView, GameStateView, PlayerView};
use vstd::prelude::*;

verus! {

// The first so many of each owner, left out.

spec fn occurrences(ids: Seq<Seq<char>>, id: Seq<char>) -> int {
    ids.filter(|x: Seq<char>| x == id).len() as int
}

spec fn owned(cs: Seq<BaseView>, id: Seq<char>) -> spec_fn(int) -> bool {
    |c: int| cs[c].player_id == id
}

/// Base `k` is kept: as many of its owner come before it as there are ids of the owner.
spec fn kept(cs: Seq<BaseView>, ids: Seq<Seq<char>>) -> spec_fn(int) -> bool {
    |k: int| tally(owned(cs, cs[k].player_id), k) >= occurrences(ids, cs[k].player_id)
}

pub proof fn lemma_numbers_filter(n: int, p: spec_fn(int) -> bool)
    requires
        0 <= n,
    ensures
        forall|x: int|
            0 <= x < numbers(n).filter(p).len() ==> 0 <= #[trigger] numbers(n).filter(p)[x] < n
                && p(numbers(n).filter(p)[x]),
        forall|x: int, y: int|
            0 <= x < y < numbers(n).filter(p).len() ==> #[trigger] numbers(n).filter(p)[x]
                < #[trigger] numbers(n).filter(p)[y],
        forall|k: int| 0 <= k < n && #[trigger] p(k) ==> numbers(n).filter(p).contains(k),
    decreases n,
{
    reveal(Seq::filter);
    if n > 0 {
        lemma_numbers_filter(n - 1, p);
        assert(numbers(n).drop_last() =~= numbers(n - 1));
        assert(numbers(n).last() == n - 1);
        let before = numbers(n - 1).filter(p);
        let now = numbers(n).filter(p);
        assert(now == if p(n - 1) {
            before.push(n - 1)
        } else {
            before
        });
        assert forall|x: int| 0 <= x < now.len() implies 0 <= #[trigger] now[x] < n && p(
            now[x],
        ) by {
            if x < before.len() {
                assert(now[x] == before[x]);
            }
        }
        assert forall|x: int, y: int| 0 <= x < y < now.len() implies #[trigger] now[x]
            < #[trigger] now[y] by {
            assert(now[x] == before[x]);
            if y < before.len() {
                assert(now[y] == before[y]);
            }
        }
        assert forall|k: int| 0 <= k < n && #[trigger] p(k) implies numbers(n).filter(
            p,
        ).contains(k) by {
            assert(numbers(n)[k] == k);
            lemma_filter_has(numbers(n), p, k);
        }
    }
}

proof fn lemma_remove_is_filter(s: Seq<int>, x: int)
    requires
        0 <= x < s.len(),
        forall|i: int, j: int| 0 <= i < j < s.len() ==> #[trigger] s[i] < #[trigger] s[j],
    ensures
        s.remove(x) == s.filter(|k: int| k != s[x]),
{
    let q = |k: int| k != s[x];
    let a = s.take(x);
    let one = seq![s[x]];
    let b = s.skip(x + 1);
    assert(s =~= a + one + b);
    assert forall|i: int| 0 <= i < a.len() implies q(#[trigger] a[i]) by {
        assert(a[i] == s[i]);
    }
    assert forall|i: int| 0 <= i < b.len() implies q(#[trigger] b[i]) by {
        assert(b[i] == s[x + 1 + i]);
    }
    lemma_filter_all(a, q);
    lemma_filter_all(b, q);
    Seq::filter_distributes_over_add(a + one, b, q);
    Seq::filter_distributes_over_add(a, one, q);
    assert(one.filter(q) =~= Seq::<int>::empty()) by {
        reveal_with_fuel(Seq::filter, 2);
        assert(one.drop_last() =~= Seq::<int>::empty());
        assert(!q(one.last()));
    }
    assert(s.remove(x) =~= a + Seq::<int>::empty() + b);
}

/// A count that has come past `v` was at `v` when it took the next step.
proof fn lemma_tally_crosses(p: spec_fn(int) -> bool, n: int, v: int) -> (c: int)
    requires
        0 <= v < tally(p, n),
    ensures
        0 <= c < n,
        p(c),
        tally(p, c) == v,
    decreases n,
{
    if tally(p, n - 1) > v {
        lemma_tally_crosses(p, n - 1, v)
    } else {
        n - 1
    }
}

proof fn lemma_razed_keeps(cs: Seq<BaseView>, ids: Seq<Seq<char>>)
    ensures
        razed(cs, ids) == numbers(cs.len() as int).filter(kept(cs, ids)).map_values(
            |k: int| cs[k],
        ),
    decreases ids.len(),
{
    let q = cs.len() as int;
    let all = numbers(q);
    let p = kept(cs, ids);
    if ids.len() == 0 {
        assert forall|i: int| 0 <= i < all.len() implies p(#[trigger] all[i]) by {
            lemma_tally_grows(owned(cs, cs[i].player_id), 0, i);
            reveal(Seq::filter);
        }
        lemma_filter_all(all, p);
        assert(razed(cs, ids) =~= all.map_values(|k: int| cs[k]));
    } else {
        let less = ids.drop_last();
        let id = ids.last();
        lemma_razed_keeps(cs, less);
        let p0 = kept(cs, less);
        let k0 = all.filter(p0);
        let l0 = k0.map_values(|k: int| cs[k]);
        lemma_numbers_filter(q, p0);
        let own = owned(cs, id);
        let v = occurrences(less, id);
        assert forall|x: Seq<char>| #[trigger] occurrences(ids, x) == occurrences(less, x) + (if x
            == id {
            1int
        } else {
            0int
        }) by {
            reveal(Seq::filter);
        }
        let f = |c: BaseView| c.player_id == id;
        lemma_first_where(l0, f);
        match first_where(l0, f) {
            Some(x) => {
                let y = k0[x];
                assert(l0[x] == cs[y]);
                assert(f(l0[x]));
                assert(p0(y));
                if tally(own, y) > v {
                    let c = lemma_tally_crosses(own, y, v);
                    assert(p0(c));
                    let z = choose|z: int| 0 <= z < k0.len() && k0[z] == c;
                    if z > x {
                        assert(k0[x] < k0[z]);
                    }
                    assert(z < x);
                    assert(l0[z] == cs[c]);
                    assert(!f(l0[z]));
                }
                assert(tally(own, y) == v);
                let not_y = |k: int| k != k0[x];
                assert forall|i: int| 0 <= i < all.len() implies p(#[trigger] all[i]) == (p0(
                    all[i],
                ) && not_y(all[i])) by {
                    let k = all[i];
                    if cs[k].player_id == id {
                        if k < y {
                            lemma_tally_grows(own, k + 1, y);
                        } else if y < k {
                            lemma_tally_grows(own, y + 1, k);
                        }
                    }
                }
                lemma_filter_agree(all, |k: int| p0(k) && not_y(k), p);
                lemma_filter_twice(all, p0, not_y);
                lemma_remove_is_filter(k0, x);
                assert(l0.remove(x) =~= k0.remove(x).map_values(|k: int| cs[k]));
            },
            None => {
                assert forall|i: int| 0 <= i < all.len() implies p(#[trigger] all[i]) == p0(
                    all[i],
                ) by {
                    let k = all[i];
                    if cs[k].player_id == id && p0(k) {
                        let z = choose|z: int| 0 <= z < k0.len() && k0[z] == k;
                        assert(l0[z] == cs[k]);
                        assert(!f(l0[z]));
                    }
                }
                lemma_filter_agree(all, p0, p);
            },
        }
    }
}

// Blows.

/// Balloon `i` hits base `k`, and by then as many balloons have as the base has health.
pub open spec fn lays_low(s: GameStateView, m: MeasurementsView, i: int, k: int) -> bool {
    hits_base(s, m, i, k) && count(i + 1, |b: int| hits_base(s, m, b, k)) >= s.bases[k].health
}

/// The blows, of a balloon to a base, that find or leave a base of that player without health.
pub open spec fn blows(s: GameStateView, m: MeasurementsView, id: Seq<char>) -> Set<(int, int)> {
    Set::new(
        |b: (int, int)|
            0 <= b.0 < s.balloons.len() && 0 <= b.1 < s.bases.len() && s.bases[b.1].player_id == id
                && lays_low(s, m, b.0, b.1),
    )
}

spec fn blows_until(
    s: GameStateView,
    m: MeasurementsView,
    id: Seq<char>,
    i: int,
    k: int,
) -> Set<(int, int)> {
    Set::new(
        |b: (int, int)|
            0 <= b.0 && 0 <= b.1 < s.bases.len() && (b.0 < i || b.0 == i && b.1 < k)
                && s.bases[b.1].player_id == id && lays_low(s, m, b.0, b.1),
    )
}

proof fn lemma_lays_low(s: GameStateView, m: MeasurementsView, i: int, k: int)
    requires
        0 <= i < s.balloons.len(),
        0 <= k < s.bases.len(),
    ensures
        ({
            let b1 = bounced(s.balloons, m.between_balloons);
            let b2 = past_emitters(b1, s.emitters, m.to_emitters);
            fells(b2, s.bases, m.motions, i, k) == lays_low(s, m, i, k)
        }),
{
    lemma_base_damage(s, m, k, i + 1);
    law_who_touches_whom(s, m, i, 0, k);
}

proof fn lemma_blows(s: GameStateView, m: MeasurementsView, id: Seq<char>, i: int, k: int)
    requires
        0 <= i <= s.balloons.len(),
        0 <= k <= s.bases.len(),
        i < s.balloons.len() || k == 0,
    ensures
        blows_until(s, m, id, i, k).finite(),
        ({
            let b1 = bounced(s.balloons, m.between_balloons);
            let b2 = past_emitters(b1, s.emitters, m.to_emitters);
            blows_until(s, m, id, i, k).len() == occurrences(
                felled(b2, s.bases, m.motions, i) + felled_by(b2, s.bases, m.motions, i, k),
                id,
            )
        }),
    decreases i, k,
{
    let b1 = bounced(s.balloons, m.between_balloons);
    let b2 = past_emitters(b1, s.emitters, m.to_emitters);
    let cs = s.bases;
    let r = cs.len() as int;
    let now = blows_until(s, m, id, i, k);
    let list = felled(b2, cs, m.motions, i) + felled_by(b2, cs, m.motions, i, k);
    if k > 0 {
        lemma_blows(s, m, id, i, k - 1);
        lemma_lays_low(s, m, i, k - 1);
        let before = blows_until(s, m, id, i, k - 1);
        let shorter = felled(b2, cs, m.motions, i) + felled_by(b2, cs, m.motions, i, k - 1);
        if lays_low(s, m, i, k - 1) {
            assert(list =~= shorter.push(cs[k - 1].player_id));
            assert(list.drop_last() =~= shorter);
            reveal(Seq::filter);
            if cs[k - 1].player_id == id {
                assert(now =~= before.insert((i, k - 1)));
            } else {
                assert(now =~= before);
            }
        } else {
            assert(list =~= shorter);
            assert(now =~= before);
        }
    } else if i > 0 {
        lemma_blows(s, m, id, i - 1, r);
        assert(now =~= blows_until(s, m, id, i - 1, r));
        assert(list =~= felled(b2, cs, m.motions, i - 1) + felled_by(
            b2,
            cs,
            m.motions,
            i - 1,
            r,
        ));
    } else {
        assert(now =~= Set::empty());
        reveal(Seq::filter);
        assert(list =~= Seq::<Seq<char>>::empty());
    }
}

/// A base loses one health for each enemy balloon that touches it. Each blow that finds or leaves
/// a base without health costs its owner a base, the first of the owner's that still stands; all
/// others stay, in their order, and but for the health as they were.
pub proof fn law_battles_wear_bases(s: GameStateView, m: MeasurementsView)
    ensures
        collided(s, m).bases == numbers(s.bases.len() as int).filter(
            |k: int|
                count(k, |c: int| s.bases[c].player_id == s.bases[k].player_id) >= blows(
                    s,
                    m,
                    s.bases[k].player_id,
                ).len(),
        ).map_values(
            |k: int|
                (BaseView {
                    x: s.bases[k].x,
                    y: s.bases[k].y,
                    player_id: s.bases[k].player_id,
                    health: s.bases[k].health - base_damage(s, m, k),
                    size: s.bases[k].size,
                    last_emit_time: s.bases[k].last_emit_time,
                }),
        ),
{
    let b1 = bounced(s.balloons, m.between_balloons);
    let b2 = past_emitters(b1, s.emitters, m.to_emitters);
    let n = s.balloons.len() as int;
    let r = s.bases.len() as int;
    let gone = felled(b2, s.bases, m.motions, n);
    let cs = battered_bases(s, m);
    lemma_razed_keeps(cs, gone);
    let p = kept(cs, gone);
    let q = |k: int|
        count(k, |c: int| s.bases[c].player_id == s.bases[k].player_id) >= blows(
            s,
            m,
            s.bases[k].player_id,
        ).len();
    let all = numbers(r);
    assert forall|i: int| 0 <= i < all.len() implies p(#[trigger] all[i]) == q(all[i]) by {
        let id = s.bases[i].player_id;
        assert(cs[i].player_id == id);
        let own = |c: int| s.bases[c].player_id == s.bases[i].player_id;
        lemma_count(i, own);
        lemma_count(i, owned(cs, id));
        lemma_count_agrees(i, own, owned(cs, id));
        lemma_blows(s, m, id, n, 0);
        assert(felled(b2, s.bases, m.motions, n) + felled_by(b2, s.bases, m.motions, n, 0)
            =~= gone);
        assert(blows_until(s, m, id, n, 0) =~= blows(s, m, id));
    }
    lemma_filter_agree(all, p, q);
    lemma_numbers_filter(r, q);
    let told = |k: int|
        BaseView {
            x: s.bases[k].x,
            y: s.bases[k].y,
            player_id: s.bases[k].player_id,
            health: s.bases[k].health - base_damage(s, m, k),
            size: s.bases[k].size,
            last_emit_time: s.bases[k].last_emit_time,
        };
    assert forall|x: int| 0 <= x < all.filter(q).len() implies cs[#[trigger] all.filter(q)[x]]
        == told(all.filter(q)[x]) by {
        lemma_base_damage(s, m, all.filter(q)[x], n);
    }
    assert(all.filter(q).map_values(|k: int| cs[k]) =~= all.filter(q).map_values(told));
}

/// Base `k` is touched, and by as many balloons as it has health.
pub open spec fn base_falls(s: GameStateView, m: MeasurementsView, k: int) -> bool {
    base_damage(s, m, k) > 0 && base_damage(s, m, k) >= s.bases[k].health
}

/// Who has a base that falls is out, and nobody else. When one base or none is left the game is
/// over; the owner of the one wins. The rest of the room is as it was.
pub proof fn law_battles_decide(s: GameStateView, m: MeasurementsView)
    ensures
        collided(s, m).players == s.players.filter(
            |p: PlayerView|
                !exists|k: int|
                    0 <= k < s.bases.len() && #[trigger] base_falls(s, m, k)
                        && s.bases[k].player_id == p.id,
        ),
        collided(s, m).game_over <==> s.game_over || collided(s, m).bases.len() == 0 || collided(
            s,
            m,
        ).bases.len() == 1,
        collided(s, m).bases.len() == 1 ==> collided(s, m).winner_player_id == Some(
            collided(s, m).bases[0].player_id,
        ),
        collided(s, m).bases.len() != 1 ==> collided(s, m).winner_player_id == s.winner_player_id,
        collided(s, m).grid == s.grid,
        collided(s, m).last_update == s.last_update,
        collided(s, m).host_id == s.host_id,
        collided(s, m).game_started == s.game_started,
{
    law_out_with_the_base(s, m);
    let b1 = bounced(s.balloons, m.between_balloons);
    let b2 = past_emitters(b1, s.emitters, m.to_emitters);
    let n = s.balloons.len() as int;
    let p = |p: PlayerView| !loses_base(s, m, p.id);
    let q = |p: PlayerView|
        !exists|k: int|
            0 <= k < s.bases.len() && #[trigger] base_falls(s, m, k) && s.bases[k].player_id
                == p.id;
    assert forall|i: int| 0 <= i < s.players.len() implies p(#[trigger] s.players[i]) == q(
        s.players[i],
    ) by {
        let id = s.players[i].id;
        if loses_base(s, m, id) {
            let k = choose|k: int|
                0 <= k < s.bases.len() && #[trigger] base_down(b2, s.bases, m.motions, k, n)
                    && s.bases[k].player_id == id;
            lemma_base_damage(s, m, k, n);
            assert(base_falls(s, m, k));
        }
        if !q(s.players[i]) {
            let k = choose|k: int|
                0 <= k < s.bases.len() && #[trigger] base_falls(s, m, k) && s.bases[k].player_id
                    == id;
            lemma_base_damage(s, m, k, n);
            assert(base_down(b2, s.bases, m.motions, k, n));
        }
    }
    lemma_filter_agree(s.players, p, q);
}

} // verus!
