//! A running game: cells, battles and launches of a whole step.

use super::canvas::{last_in, law_last_balloon_claims};
use super::contact::{count, hits_base, lemma_count_agrees};
use super::launches::{
    due_bases, due_emitters, law_each_due_base_launches, law_each_due_emitter_launches,
    law_launches_change_nothing_else, lemma_due,
};
use super::standing::{
    base_falls, blows, law_battles_decide, law_battles_wear_bases, lays_low,
};
use super::steps::{
    base_damage, differ_in_motion, emitter_damage, emitter_falls, law_battles_wear_emitters,
    law_balloons_turn_back, lemma_damage_alike, lemma_drifted, lemma_touch_alike, numbers,
};
use crate::collision::collided;
use crate::ids::is_random_id;
use crate::measure::MeasurementsView;
use crate::seqs::{lemma_filter_agree, lemma_first_where};
use crate::single::Single;
use crate::state::{BaseView, EmitterView, GameStateView, GridCellView, PlayerView};
use crate::update::cells::{cell_at, cell_holds};
use crate::update::launches::{launches_due, LaunchView, Velocity};
use crate::update::{advanced, drawn, drifted, stepped, updated};
use vstd::arithmetic::power2::pow2;
use vstd::prelude::*;

verus! {

// Cells.

/// The point lies between the edges of the cell; the left and the upper one belong to it.
pub open spec fn covers_point(c: GridCellView, x: Single, y: Single) -> bool {
    &&& !x.is_nan() && x.value() >= 2 * c.x * pow2(148) && x.value() < 2 * (c.x + c.w) * pow2(148)
    &&& !y.is_nan() && y.value() >= 2 * c.y * pow2(148) && y.value() < 2 * (c.y + c.h) * pow2(148)
}

/// Cell `k` covers the point, and no cell before it does.
pub open spec fn lies_in(grid: Seq<GridCellView>, k: int, x: Single, y: Single) -> bool {
    &&& 0 <= k < grid.len()
    &&& covers_point(grid[k], x, y)
    &&& forall|c: int| 0 <= c < k ==> !covers_point(#[trigger] grid[c], x, y)
}

/// A point is in the first cell that covers it, and in none where none does.
pub proof fn law_cell_of_a_point(grid: Seq<GridCellView>, x: Single, y: Single, k: int)
    ensures
        cell_at(grid, x, y) == Some(k) <==> lies_in(grid, k, x, y),
        cell_at(grid, x, y) is None <==> forall|c: int|
            0 <= c < grid.len() ==> !covers_point(#[trigger] grid[c], x, y),
{
    let p = |c: GridCellView| cell_holds(c, x, y);
    lemma_first_where(grid, p);
    assert forall|c: int| 0 <= c < grid.len() implies covers_point(#[trigger] grid[c], x, y) == p(
        grid[c],
    ) by {}
    match cell_at(grid, x, y) {
        Some(i) => {
            assert(p(grid[i]));
            assert(covers_point(grid[i], x, y));
            assert forall|c: int| 0 <= c < i implies !covers_point(#[trigger] grid[c], x, y) by {
                assert(!p(grid[c]));
            }
            if lies_in(grid, k, x, y) {
                if k < i {
                    assert(!p(grid[k]));
                }
            }
        },
        None => {
            assert forall|c: int| 0 <= c < grid.len() implies !covers_point(
                #[trigger] grid[c],
                x,
                y,
            ) by {
                assert(!p(grid[c]));
            }
        },
    }
}

/// Balloon `i` has moved into cell `k`.
pub open spec fn flies_in(s: GameStateView, m: MeasurementsView, k: int, i: int) -> bool {
    lies_in(s.grid, k, m.motions[i].x, m.motions[i].y)
}

proof fn lemma_last_in(s: GameStateView, now: int, m: MeasurementsView, k: int, n: int)
    requires
        0 <= n <= s.balloons.len(),
    ensures
        match last_in(s.grid, drifted(s, now, m).balloons, k, n) {
            Some(i) => 0 <= i < n && flies_in(s, m, k, i) && forall|j: int|
                i < j < n ==> !#[trigger] flies_in(s, m, k, j),
            None => forall|j: int| 0 <= j < n ==> !#[trigger] flies_in(s, m, k, j),
        },
    decreases n,
{
    if n > 0 {
        lemma_last_in(s, now, m, k, n - 1);
        law_balloons_turn_back(s.balloons, m.motions, n - 1);
        law_cell_of_a_point(s.grid, m.motions[n - 1].x, m.motions[n - 1].y, k);
    }
}

/// After a step each cell belongs to the player of the last balloon, of all that have moved, that
/// is in it; a cell that no balloon is in keeps its owner. Cells stay where they are.
pub proof fn law_steps_claim_cells(
    s: GameStateView,
    now: int,
    m: MeasurementsView,
    k: int,
    i: int,
)
    requires
        0 <= k < s.grid.len(),
    ensures
        advanced(s, now, m).grid.len() == s.grid.len(),
        advanced(s, now, m).grid[k].x == s.grid[k].x,
        advanced(s, now, m).grid[k].y == s.grid[k].y,
        advanced(s, now, m).grid[k].w == s.grid[k].w,
        advanced(s, now, m).grid[k].h == s.grid[k].h,
        (forall|j: int| 0 <= j < s.balloons.len() ==> !#[trigger] flies_in(s, m, k, j))
            ==> advanced(s, now, m).grid[k].owner == s.grid[k].owner,
        0 <= i < s.balloons.len() && flies_in(s, m, k, i) && (forall|j: int|
            i < j < s.balloons.len() ==> !#[trigger] flies_in(s, m, k, j)) ==> advanced(
            s,
            now,
            m,
        ).grid[k].owner == Some(s.balloons[i].player_id),
{
    let t = drifted(s, now, m);
    let n = s.balloons.len() as int;
    law_battles_decide(t, m);
    law_last_balloon_claims(s.grid, t.balloons, n, k);
    lemma_last_in(s, now, m, k, n);
    assert((GridCellView { owner: None, ..s.grid[k] }) == (GridCellView {
        owner: None,
        ..t.grid[k]
    }));
    match last_in(s.grid, t.balloons, k, n) {
        Some(l) => {
            law_balloons_turn_back(s.balloons, m.motions, l);
            assert(flies_in(s, m, k, l));
        },
        None => {},
    }
}

// Battles.

/// To emitters, bases, players and the outcome of the game a step does what its battle does; it
/// notes the time, and leaves the host and the start of the game alone.
pub proof fn law_steps_settle_battles(s: GameStateView, now: int, m: MeasurementsView)
    ensures
        advanced(s, now, m).emitters == collided(s, m).emitters,
        advanced(s, now, m).bases == collided(s, m).bases,
        advanced(s, now, m).players == collided(s, m).players,
        advanced(s, now, m).game_over == collided(s, m).game_over,
        advanced(s, now, m).winner_player_id == collided(s, m).winner_player_id,
        advanced(s, now, m).last_update == now,
        advanced(s, now, m).host_id == s.host_id,
        advanced(s, now, m).game_started == s.game_started,
{
    let t = drifted(s, now, m);
    lemma_drifted(s, now, m);
    law_battles_decide(s, m);
    law_battles_decide(t, m);
    lemma_emitters_alike(s, t, m);
    lemma_bases_alike(s, t, m);
    let p = |p: PlayerView|
        !exists|k: int|
            0 <= k < s.bases.len() && #[trigger] base_falls(s, m, k) && s.bases[k].player_id
                == p.id;
    let q = |p: PlayerView|
        !exists|k: int|
            0 <= k < t.bases.len() && #[trigger] base_falls(t, m, k) && t.bases[k].player_id
                == p.id;
    assert forall|i: int| 0 <= i < s.players.len() implies p(#[trigger] s.players[i]) == q(
        s.players[i],
    ) by {
        let id = s.players[i].id;
        if !p(s.players[i]) {
            let k = choose|k: int|
                0 <= k < s.bases.len() && #[trigger] base_falls(s, m, k) && s.bases[k].player_id
                    == id;
            lemma_damage_alike(s, t, m, 0, k);
            assert(base_falls(t, m, k));
        }
        if !q(s.players[i]) {
            let k = choose|k: int|
                0 <= k < t.bases.len() && #[trigger] base_falls(t, m, k) && t.bases[k].player_id
                    == id;
            lemma_damage_alike(s, t, m, 0, k);
            assert(base_falls(s, m, k));
        }
    }
    lemma_filter_agree(s.players, p, q);
}

proof fn lemma_emitters_alike(s: GameStateView, t: GameStateView, m: MeasurementsView)
    requires
        differ_in_motion(s, t),
    ensures
        collided(s, m).emitters == collided(t, m).emitters,
{
    law_battles_wear_emitters(s, m);
    law_battles_wear_emitters(t, m);
    let es = s.emitters;
    let of_s = Seq::new(
        s.emitters.len(),
        |k: int|
            EmitterView {
                id: s.emitters[k].id,
                x: s.emitters[k].x,
                y: s.emitters[k].y,
                player_id: s.emitters[k].player_id,
                last_emit_time: s.emitters[k].last_emit_time,
                health: s.emitters[k].health - emitter_damage(s, m, k),
            },
    );
    let of_t = Seq::new(
        t.emitters.len(),
        |k: int|
            EmitterView {
                id: t.emitters[k].id,
                x: t.emitters[k].x,
                y: t.emitters[k].y,
                player_id: t.emitters[k].player_id,
                last_emit_time: t.emitters[k].last_emit_time,
                health: t.emitters[k].health - emitter_damage(t, m, k),
            },
    );
    assert forall|k: int| 0 <= k < es.len() implies of_s[k] == #[trigger] of_t[k] by {
        lemma_damage_alike(s, t, m, 0, k);
    }
    assert(of_s =~= of_t);
    let p = |e: EmitterView|
        !exists|k: int|
            0 <= k < s.emitters.len() && #[trigger] emitter_falls(s, m, k) && s.emitters[k].id
                == e.id;
    let q = |e: EmitterView|
        !exists|k: int|
            0 <= k < t.emitters.len() && #[trigger] emitter_falls(t, m, k) && t.emitters[k].id
                == e.id;
    assert forall|i: int| 0 <= i < of_s.len() implies p(#[trigger] of_s[i]) == q(of_s[i]) by {
        let id = of_s[i].id;
        if !p(of_s[i]) {
            let k = choose|k: int|
                0 <= k < s.emitters.len() && #[trigger] emitter_falls(s, m, k) && s.emitters[k].id
                    == id;
            lemma_damage_alike(s, t, m, 0, k);
            assert(emitter_falls(t, m, k));
        }
        if !q(of_s[i]) {
            let k = choose|k: int|
                0 <= k < t.emitters.len() && #[trigger] emitter_falls(t, m, k) && t.emitters[k].id
                    == id;
            lemma_damage_alike(s, t, m, 0, k);
            assert(emitter_falls(s, m, k));
        }
    }
    lemma_filter_agree(of_s, p, q);
}

proof fn lemma_lays_low_alike(
    s: GameStateView,
    t: GameStateView,
    m: MeasurementsView,
    i: int,
    k: int,
)
    requires
        differ_in_motion(s, t),
        0 <= i < s.balloons.len(),
    ensures
        lays_low(s, m, i, k) == lays_low(t, m, i, k),
{
    lemma_touch_alike(s, t, m, i, 0, k);
    let p = |b: int| hits_base(s, m, b, k);
    let q = |b: int| hits_base(t, m, b, k);
    assert forall|b: int| 0 <= b < i + 1 implies #[trigger] p(b) == q(b) by {
        lemma_touch_alike(s, t, m, b, 0, k);
    }
    lemma_count_agrees(i + 1, p, q);
}

proof fn lemma_bases_alike(s: GameStateView, t: GameStateView, m: MeasurementsView)
    requires
        differ_in_motion(s, t),
    ensures
        collided(s, m).bases == collided(t, m).bases,
{
    law_battles_wear_bases(s, m);
    law_battles_wear_bases(t, m);
    let all = numbers(s.bases.len() as int);
    let p = |k: int|
        count(k, |c: int| s.bases[c].player_id == s.bases[k].player_id) >= blows(
            s,
            m,
            s.bases[k].player_id,
        ).len();
    let q = |k: int|
        count(k, |c: int| t.bases[c].player_id == t.bases[k].player_id) >= blows(
            t,
            m,
            t.bases[k].player_id,
        ).len();
    assert forall|i: int| 0 <= i < all.len() implies p(#[trigger] all[i]) == q(all[i]) by {
        let id = s.bases[i].player_id;
        lemma_count_agrees(
            i,
            |c: int| s.bases[c].player_id == s.bases[i].player_id,
            |c: int| t.bases[c].player_id == t.bases[i].player_id,
        );
        assert forall|b: (int, int)| blows(s, m, id).contains(b) == #[trigger] blows(
            t,
            m,
            id,
        ).contains(b) by {
            if 0 <= b.0 < s.balloons.len() {
                lemma_lays_low_alike(s, t, m, b.0, b.1);
            }
        }
        assert(blows(s, m, id) =~= blows(t, m, id));
    }
    lemma_filter_agree(all, p, q);
    let f = |k: int|
        BaseView {
            x: s.bases[k].x,
            y: s.bases[k].y,
            player_id: s.bases[k].player_id,
            health: s.bases[k].health - base_damage(s, m, k),
            size: s.bases[k].size,
            last_emit_time: s.bases[k].last_emit_time,
        };
    let g = |k: int|
        BaseView {
            x: t.bases[k].x,
            y: t.bases[k].y,
            player_id: t.bases[k].player_id,
            health: t.bases[k].health - base_damage(t, m, k),
            size: t.bases[k].size,
            last_emit_time: t.bases[k].last_emit_time,
        };
    let left = all.filter(p);
    assert forall|x: int| 0 <= x < left.len() implies f(#[trigger] left[x]) == g(left[x]) by {
        lemma_damage_alike(s, t, m, 0, left[x]);
    }
    assert(left.map_values(f) =~= left.map_values(g));
}

// The whole step.

/// Before the game has started a step does nothing. After that it does what motion and battles do,
/// and then launches, from what they have left: a balloon for each emitter that is due and then for
/// each base, in their order, each with a random id and the next of the velocities. Those that are
/// due note the time.
pub proof fn law_steps(
    s: GameStateView,
    t: GameStateView,
    now: int,
    m: MeasurementsView,
    vs: Seq<Velocity>,
    k: int,
)
    requires
        stepped(s, t, now, m, vs),
    ensures
        !s.game_started ==> t == s,
        s.game_started ==> {
            let a = advanced(s, now, m);
            let q = a.emitters.len() as int;
            let r = a.bases.len() as int;
            &&& t.players == a.players
            &&& t.grid == a.grid
            &&& t.last_update == a.last_update
            &&& t.game_over == a.game_over
            &&& t.winner_player_id == a.winner_player_id
            &&& t.host_id == a.host_id
            &&& t.game_started
            &&& t.balloons.len() == a.balloons.len() + due_emitters(a, now, q) + due_bases(
                a,
                now,
                r,
            )
            &&& 0 <= k < a.balloons.len() ==> t.balloons[k] == a.balloons[k]
            &&& t.emitters.len() == q
            &&& 0 <= k < q ==> t.emitters[k] == if now - a.emitters[k].last_emit_time
                > 2_000_000_119 {
                (EmitterView { last_emit_time: now, ..a.emitters[k] })
            } else {
                a.emitters[k]
            }
            &&& t.bases.len() == r
            &&& 0 <= k < r ==> t.bases[k] == if now - a.bases[k].last_emit_time > 2_000_000_119 {
                (BaseView { last_emit_time: now, ..a.bases[k] })
            } else {
                a.bases[k]
            }
        },
{
    if s.game_started {
        let a = advanced(s, now, m);
        let ls = choose|ls: Seq<LaunchView>|
            {
                &&& drawn(ls, vs, launches_due(a, now))
                &&& t == #[trigger] updated(s, now, m, ls)
            };
        law_launches_change_nothing_else(a, now, ls, k);
        law_steps_settle_battles(s, now, m);
    }
}

/// An emitter that the battle has left and that is due launches a balloon in the step: for its
/// player, from where it stands, with a random id and the velocity that is next in turn.
pub proof fn law_steps_launch_from_emitters(
    s: GameStateView,
    t: GameStateView,
    now: int,
    m: MeasurementsView,
    vs: Seq<Velocity>,
    k: int,
)
    requires
        stepped(s, t, now, m, vs),
        s.game_started,
        0 <= k < advanced(s, now, m).emitters.len(),
        now - advanced(s, now, m).emitters[k].last_emit_time > 2_000_000_119,
    ensures
        ({
            let a = advanced(s, now, m);
            let e = a.emitters[k];
            let j = due_emitters(a, now, k);
            let b = t.balloons[a.balloons.len() + j];
            &&& 0 <= j < vs.len()
            &&& is_random_id(b.id)
            &&& b.x == e.x && b.y == e.y
            &&& b.vx == vs[j].vx && b.vy == vs[j].vy
            &&& b.radius == 10 && b.health == 3
            &&& b.player_id == e.player_id
        }),
{
    let a = advanced(s, now, m);
    let ls = choose|ls: Seq<LaunchView>|
        {
            &&& drawn(ls, vs, launches_due(a, now))
            &&& t == #[trigger] updated(s, now, m, ls)
        };
    law_each_due_emitter_launches(a, now, ls, k);
    law_launches_change_nothing_else(a, now, ls, k);
    lemma_due(a, now, a.bases.len() as int);
    let j = due_emitters(a, now, k);
    assert(ls[j].vx == vs[j].vx);
}

/// A base that the battle has left and that is due launches a balloon in the step, from its
/// middle, after those of the emitters.
pub proof fn law_steps_launch_from_bases(
    s: GameStateView,
    t: GameStateView,
    now: int,
    m: MeasurementsView,
    vs: Seq<Velocity>,
    k: int,
)
    requires
        stepped(s, t, now, m, vs),
        s.game_started,
        0 <= k < advanced(s, now, m).bases.len(),
        now - advanced(s, now, m).bases[k].last_emit_time > 2_000_000_119,
        0 <= advanced(s, now, m).bases[k].x < 0x1_0000,
        0 <= advanced(s, now, m).bases[k].y < 0x1_0000,
    ensures
        ({
            let a = advanced(s, now, m);
            let c = a.bases[k];
            let j = due_emitters(a, now, a.emitters.len() as int) + due_bases(a, now, k);
            let b = t.balloons[a.balloons.len() + j];
            &&& 0 <= j < vs.len()
            &&& is_random_id(b.id)
            &&& !b.x.is_nan() && b.x.value() == 2 * c.x * pow2(148)
            &&& !b.y.is_nan() && b.y.value() == 2 * c.y * pow2(148)
            &&& b.vx == vs[j].vx && b.vy == vs[j].vy
            &&& b.radius == 10 && b.health == 3
            &&& b.player_id == c.player_id
        }),
{
    let a = advanced(s, now, m);
    let ls = choose|ls: Seq<LaunchView>|
        {
            &&& drawn(ls, vs, launches_due(a, now))
            &&& t == #[trigger] updated(s, now, m, ls)
        };
    law_launches_change_nothing_else(a, now, ls, k);
    lemma_due(a, now, a.emitters.len() as int);
    law_each_due_base_launches(a, now, ls, k);
    let j = due_emitters(a, now, a.emitters.len() as int) + due_bases(a, now, k);
    assert(ls[j].vx == vs[j].vx);
}

/// A random id is the text of a version 4 UUID: hyphens in four places, lower case hexadecimal
/// digits in the others, and the version and variant where they belong.
pub proof fn law_random_ids(id: Seq<char>, i: int)
    requires
        is_random_id(id),
    ensures
        id.len() == 36,
        id[8] == '-' && id[13] == '-' && id[18] == '-' && id[23] == '-',
        0 <= i < 36 && i != 8 && i != 13 && i != 18 && i != 23 ==> ('0' <= id[i] && id[i] <= '9')
            || ('a' <= id[i] && id[i] <= 'f'),
        id[14] == '4',
        id[19] == '8' || id[19] == '9' || id[19] == 'a' || id[19] == 'b',
{
}

} // verus!
