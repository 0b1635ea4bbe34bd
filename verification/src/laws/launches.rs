//! Launches: how many, from where, and how often.

use super::battle::lemma_tally_agree;
use super::contact::{count, lemma_count};
use super::numbers::law_half_numbers;
use crate::seqs::{lemma_tally_bounds, tally};
use crate::single::halves_of;
use crate::state::{BalloonView, BaseView, EmitterView, GameStateView};
use crate::update::launches::{
    bases_due, elapsed_time, emitted, emitters_due, from_bases, from_emitters, is_due, launched,
    launches_due, BALLOON_HEALTH, BALLOON_RADIUS, EMIT_INTERVAL, LaunchView,
};
use vstd::arithmetic::power2::pow2;
use vstd::prelude::*;

verus! {

/// A balloon as one of the emitters that are due launches it, with one of the launches.
pub open spec fn flies_from_emitter(
    b: BalloonView,
    es: Seq<EmitterView>,
    now: int,
    ls: Seq<LaunchView>,
) -> bool {
    exists|k: int, l: int|
        {
            &&& 0 <= k < es.len() && 0 <= l < ls.len()
            &&& is_due(now, es[k].last_emit_time)
            &&& b == #[trigger] launched(ls[l], es[k].x, es[k].y, es[k].player_id)
        }
}

/// A balloon as one of the bases that are due launches it, with one of the launches.
pub open spec fn flies_from_base(
    b: BalloonView,
    cs: Seq<BaseView>,
    now: int,
    ls: Seq<LaunchView>,
) -> bool {
    exists|k: int, l: int|
        {
            &&& 0 <= k < cs.len() && 0 <= l < ls.len()
            &&& is_due(now, cs[k].last_emit_time)
            &&& b == #[trigger] launched(
                ls[l],
                halves_of(2 * cs[k].x),
                halves_of(2 * cs[k].y),
                cs[k].player_id,
            )
        }
}

proof fn lemma_from_emitters(es: Seq<EmitterView>, now: int, ls: Seq<LaunchView>, n: int)
    requires
        0 <= n <= es.len(),
        emitters_due(es, now, n) <= ls.len(),
    ensures
        from_emitters(es, now, ls, n).len() == emitters_due(es, now, n),
        forall|i: int|
            0 <= i < from_emitters(es, now, ls, n).len() ==> flies_from_emitter(
                #[trigger] from_emitters(es, now, ls, n)[i],
                es,
                now,
                ls,
            ),
    decreases n,
{
    if n > 0 {
        lemma_from_emitters(es, now, ls, n - 1);
        let before = from_emitters(es, now, ls, n - 1);
        let e = es[n - 1];
        if is_due(now, e.last_emit_time) {
            let l = before.len() as int;
            assert(flies_from_emitter(
                launched(ls[l], es[n - 1].x, es[n - 1].y, es[n - 1].player_id),
                es,
                now,
                ls,
            ));
            assert forall|i: int| 0 <= i < from_emitters(es, now, ls, n).len() implies
                flies_from_emitter(#[trigger] from_emitters(es, now, ls, n)[i], es, now, ls) by {
                if i < l {
                    assert(from_emitters(es, now, ls, n)[i] == before[i]);
                }
            }
        }
    }
}

proof fn lemma_from_bases(cs: Seq<BaseView>, now: int, ls: Seq<LaunchView>, n: int)
    requires
        0 <= n <= cs.len(),
        bases_due(cs, now, n) <= ls.len(),
    ensures
        from_bases(cs, now, ls, n).len() == bases_due(cs, now, n),
        forall|i: int|
            0 <= i < from_bases(cs, now, ls, n).len() ==> flies_from_base(
                #[trigger] from_bases(cs, now, ls, n)[i],
                cs,
                now,
                ls,
            ),
    decreases n,
{
    if n > 0 {
        lemma_from_bases(cs, now, ls, n - 1);
        let before = from_bases(cs, now, ls, n - 1);
        let c = cs[n - 1];
        if is_due(now, c.last_emit_time) {
            let l = before.len() as int;
            assert(flies_from_base(
                launched(
                    ls[l],
                    halves_of(2 * cs[n - 1].x),
                    halves_of(2 * cs[n - 1].y),
                    cs[n - 1].player_id,
                ),
                cs,
                now,
                ls,
            ));
            assert forall|i: int| 0 <= i < from_bases(cs, now, ls, n).len() implies
                flies_from_base(#[trigger] from_bases(cs, now, ls, n)[i], cs, now, ls) by {
                if i < l {
                    assert(from_bases(cs, now, ls, n)[i] == before[i]);
                }
            }
        }
    }
}

/// As many balloons are launched as emitters and bases are due. Each starts in the middle of its
/// emitter or base and belongs to that player; the balloons that were there stay as they were.
pub proof fn law_balloons_start_at_their_source(
    s: GameStateView,
    now: int,
    ls: Seq<LaunchView>,
    i: int,
)
    requires
        ls.len() >= launches_due(s, now),
        0 <= i < emitted(s, now, ls).balloons.len(),
    ensures
        emitted(s, now, ls).balloons.len() == s.balloons.len() + launches_due(s, now),
        i < s.balloons.len() ==> emitted(s, now, ls).balloons[i] == s.balloons[i],
        i >= s.balloons.len() ==> flies_from_emitter(
            emitted(s, now, ls).balloons[i],
            s.emitters,
            now,
            ls,
        ) || flies_from_base(
            emitted(s, now, ls).balloons[i],
            s.bases,
            now,
            ls.skip(emitters_due(s.emitters, now, s.emitters.len() as int)),
        ),
        i >= s.balloons.len() ==> emitted(s, now, ls).balloons[i].health == BALLOON_HEALTH
            && emitted(s, now, ls).balloons[i].radius == BALLOON_RADIUS,
{
    let q = s.emitters.len() as int;
    let r = s.bases.len() as int;
    let ours = emitters_due(s.emitters, now, q);
    lemma_tally_bounds(|k: int| is_due(now, s.emitters[k].last_emit_time), q);
    lemma_tally_bounds(|k: int| is_due(now, s.bases[k].last_emit_time), r);
    lemma_from_emitters(s.emitters, now, ls, q);
    lemma_from_bases(s.bases, now, ls.skip(ours), r);
    let a = from_emitters(s.emitters, now, ls, q);
    let b = from_bases(s.bases, now, ls.skip(ours), r);
    let t = emitted(s, now, ls).balloons;
    if i >= s.balloons.len() {
        if i < s.balloons.len() + a.len() {
            assert(t[i] == a[i - s.balloons.len()]);
        } else {
            assert(t[i] == b[i - s.balloons.len() - a.len()]);
        }
    }
}

proof fn lemma_tally_none(p: spec_fn(int) -> bool, n: int)
    requires
        forall|i: int| 0 <= i < n ==> !#[trigger] p(i),
    ensures
        tally(p, n) == 0,
    decreases n,
{
    if n > 0 {
        lemma_tally_none(p, n - 1);
    }
}

/// After the launches nothing is due any more, and what has launched is not due again until more
/// than the interval has passed; what was not due keeps waiting as it did.
pub proof fn law_launches_are_spaced(
    s: GameStateView,
    now: int,
    later: int,
    ls: Seq<LaunchView>,
    k: int,
)
    requires
        now <= later,
    ensures
        launches_due(emitted(s, now, ls), now) == 0,
        0 <= k < s.emitters.len() && is_due(now, s.emitters[k].last_emit_time) ==> (is_due(
            later,
            emitted(s, now, ls).emitters[k].last_emit_time,
        ) <==> later - now > EMIT_INTERVAL),
        0 <= k < s.bases.len() && is_due(now, s.bases[k].last_emit_time) ==> (is_due(
            later,
            emitted(s, now, ls).bases[k].last_emit_time,
        ) <==> later - now > EMIT_INTERVAL),
        0 <= k < s.emitters.len() && !is_due(now, s.emitters[k].last_emit_time) ==> emitted(
            s,
            now,
            ls,
        ).emitters[k] == s.emitters[k],
        0 <= k < s.bases.len() && !is_due(now, s.bases[k].last_emit_time) ==> emitted(
            s,
            now,
            ls,
        ).bases[k] == s.bases[k],
{
    let t = emitted(s, now, ls);
    lemma_tally_none(
        |k: int| is_due(now, t.emitters[k].last_emit_time),
        t.emitters.len() as int,
    );
    lemma_tally_none(|k: int| is_due(now, t.bases[k].last_emit_time), t.bases.len() as int);
}

// Each due source launches one balloon, in order.

/// Something is due when more time has passed since its last launch than two seconds can be
/// rounded to.
pub proof fn law_due_after_two_seconds(now: int, last: int)
    ensures
        is_due(now, last) <==> now - last > 2_000_000_119,
        now >= last ==> elapsed_time(now, last) == now - last,
        now <= last ==> elapsed_time(now, last) == 0,
{
}

/// How many of the first `n` emitters are due.
pub open spec fn due_emitters(s: GameStateView, now: int, n: int) -> int {
    count(n, |c: int| now - s.emitters[c].last_emit_time > 2_000_000_119)
}

/// How many of the first `n` bases are due.
pub open spec fn due_bases(s: GameStateView, now: int, n: int) -> int {
    count(n, |c: int| now - s.bases[c].last_emit_time > 2_000_000_119)
}

pub proof fn lemma_due(s: GameStateView, now: int, n: int)
    ensures
        emitters_due(s.emitters, now, n) == due_emitters(s, now, n),
        bases_due(s.bases, now, n) == due_bases(s, now, n),
        0 <= due_emitters(s, now, n),
        0 <= due_bases(s, now, n),
{
    let p = |c: int| now - s.emitters[c].last_emit_time > 2_000_000_119;
    lemma_count(n, p);
    lemma_tally_agree(p, |k: int| is_due(now, s.emitters[k].last_emit_time), n);
    let q = |c: int| now - s.bases[c].last_emit_time > 2_000_000_119;
    lemma_count(n, q);
    lemma_tally_agree(q, |k: int| is_due(now, s.bases[k].last_emit_time), n);
}

proof fn lemma_emitter_launch(
    es: Seq<EmitterView>,
    now: int,
    ls: Seq<LaunchView>,
    n: int,
    k: int,
)
    requires
        0 <= n,
    ensures
        from_emitters(es, now, ls, n).len() == emitters_due(es, now, n),
        0 <= k < n && is_due(now, es[k].last_emit_time) ==> {
            let j = emitters_due(es, now, k);
            &&& 0 <= j < emitters_due(es, now, n)
            &&& from_emitters(es, now, ls, n)[j] == launched(
                ls[j],
                es[k].x,
                es[k].y,
                es[k].player_id,
            )
        },
    decreases n,
{
    if n > 0 {
        lemma_emitter_launch(es, now, ls, n - 1, k);
        lemma_tally_bounds(|c: int| is_due(now, es[c].last_emit_time), n - 1);
    }
}

proof fn lemma_base_launch(cs: Seq<BaseView>, now: int, ls: Seq<LaunchView>, n: int, k: int)
    requires
        0 <= n,
    ensures
        from_bases(cs, now, ls, n).len() == bases_due(cs, now, n),
        0 <= k < n && is_due(now, cs[k].last_emit_time) ==> {
            let j = bases_due(cs, now, k);
            &&& 0 <= j < bases_due(cs, now, n)
            &&& from_bases(cs, now, ls, n)[j] == launched(
                ls[j],
                halves_of(2 * cs[k].x),
                halves_of(2 * cs[k].y),
                cs[k].player_id,
            )
        },
    decreases n,
{
    if n > 0 {
        lemma_base_launch(cs, now, ls, n - 1, k);
        lemma_tally_bounds(|c: int| is_due(now, cs[c].last_emit_time), n - 1);
    }
}

/// Where `j` emitters before it are due, an emitter that is due launches balloon number `j`: from
/// where it stands, for its player, with the id and the velocity of launch number `j`.
pub proof fn law_each_due_emitter_launches(
    s: GameStateView,
    now: int,
    ls: Seq<LaunchView>,
    k: int,
)
    requires
        0 <= k < s.emitters.len(),
        now - s.emitters[k].last_emit_time > 2_000_000_119,
    ensures
        0 <= due_emitters(s, now, k) < due_emitters(s, now, s.emitters.len() as int),
        ({
            let j = due_emitters(s, now, k);
            let b = emitted(s, now, ls).balloons[s.balloons.len() + j];
            &&& b.id == ls[j].id
            &&& b.x == s.emitters[k].x
            &&& b.y == s.emitters[k].y
            &&& b.vx == ls[j].vx
            &&& b.vy == ls[j].vy
            &&& b.radius == 10
            &&& b.health == 3
            &&& b.player_id == s.emitters[k].player_id
        }),
{
    let q = s.emitters.len() as int;
    lemma_due(s, now, k);
    lemma_due(s, now, q);
    lemma_emitter_launch(s.emitters, now, ls, q, k);
    let a = from_emitters(s.emitters, now, ls, q);
    let j = due_emitters(s, now, k);
    assert(emitted(s, now, ls).balloons[s.balloons.len() + j] == a[j]);
}

/// The bases follow the emitters: where `j` launches come before it, a base that is due launches
/// balloon number `j`, from its middle, for its player, with the id and the velocity of launch
/// number `j`.
pub proof fn law_each_due_base_launches(s: GameStateView, now: int, ls: Seq<LaunchView>, k: int)
    requires
        0 <= k < s.bases.len(),
        now - s.bases[k].last_emit_time > 2_000_000_119,
        0 <= s.bases[k].x < 0x1_0000,
        0 <= s.bases[k].y < 0x1_0000,
        ls.len() >= due_emitters(s, now, s.emitters.len() as int) + due_bases(
            s,
            now,
            s.bases.len() as int,
        ),
    ensures
        0 <= due_bases(s, now, k) < due_bases(s, now, s.bases.len() as int),
        ({
            let j = due_emitters(s, now, s.emitters.len() as int) + due_bases(s, now, k);
            let b = emitted(s, now, ls).balloons[s.balloons.len() + j];
            &&& b.id == ls[j].id
            &&& !b.x.is_nan() && b.x.value() == 2 * s.bases[k].x * pow2(148)
            &&& !b.y.is_nan() && b.y.value() == 2 * s.bases[k].y * pow2(148)
            &&& b.vx == ls[j].vx
            &&& b.vy == ls[j].vy
            &&& b.radius == 10
            &&& b.health == 3
            &&& b.player_id == s.bases[k].player_id
        }),
{
    let q = s.emitters.len() as int;
    let r = s.bases.len() as int;
    lemma_due(s, now, k);
    lemma_due(s, now, q);
    lemma_due(s, now, r);
    let ours = due_emitters(s, now, q);
    let rest = ls.skip(ours);
    lemma_emitter_launch(s.emitters, now, ls, q, 0);
    lemma_base_launch(s.bases, now, rest, r, k);
    law_half_numbers(2 * s.bases[k].x, halves_of(0));
    law_half_numbers(2 * s.bases[k].y, halves_of(0));
    let a = from_emitters(s.emitters, now, ls, q);
    let b = from_bases(s.bases, now, rest, r);
    let j = due_bases(s, now, k);
    assert(rest[j] == ls[ours + j]);
    assert(emitted(s, now, ls).balloons[s.balloons.len() + ours + j] == b[j]);
}

/// There are no launches but those, and what launches notes the time: nothing else in the room
/// changes.
pub proof fn law_launches_change_nothing_else(
    s: GameStateView,
    now: int,
    ls: Seq<LaunchView>,
    k: int,
)
    ensures
        launches_due(s, now) == due_emitters(s, now, s.emitters.len() as int) + due_bases(
            s,
            now,
            s.bases.len() as int,
        ),
        emitted(s, now, ls).balloons.len() == s.balloons.len() + due_emitters(
            s,
            now,
            s.emitters.len() as int,
        ) + due_bases(s, now, s.bases.len() as int),
        0 <= k < s.balloons.len() ==> emitted(s, now, ls).balloons[k] == s.balloons[k],
        emitted(s, now, ls).emitters.len() == s.emitters.len(),
        0 <= k < s.emitters.len() ==> {
            let e = emitted(s, now, ls).emitters[k];
            &&& e.id == s.emitters[k].id
            &&& e.x == s.emitters[k].x
            &&& e.y == s.emitters[k].y
            &&& e.player_id == s.emitters[k].player_id
            &&& e.health == s.emitters[k].health
            &&& e.last_emit_time == if now - s.emitters[k].last_emit_time > 2_000_000_119 {
                now
            } else {
                s.emitters[k].last_emit_time
            }
        },
        emitted(s, now, ls).bases.len() == s.bases.len(),
        0 <= k < s.bases.len() ==> {
            let c = emitted(s, now, ls).bases[k];
            &&& c.x == s.bases[k].x
            &&& c.y == s.bases[k].y
            &&& c.player_id == s.bases[k].player_id
            &&& c.health == s.bases[k].health
            &&& c.size == s.bases[k].size
            &&& c.last_emit_time == if now - s.bases[k].last_emit_time > 2_000_000_119 {
                now
            } else {
                s.bases[k].last_emit_time
            }
        },
        emitted(s, now, ls).players == s.players,
        emitted(s, now, ls).grid == s.grid,
        emitted(s, now, ls).last_update == s.last_update,
        emitted(s, now, ls).game_over == s.game_over,
        emitted(s, now, ls).winner_player_id == s.winner_player_id,
        emitted(s, now, ls).host_id == s.host_id,
        emitted(s, now, ls).game_started == s.game_started,
{
    let q = s.emitters.len() as int;
    let r = s.bases.len() as int;
    lemma_due(s, now, q);
    lemma_due(s, now, r);
    lemma_emitter_launch(s.emitters, now, ls, q, 0);
    lemma_base_launch(s.bases, now, ls.skip(due_emitters(s, now, q)), r, 0);
}

} // verus!
