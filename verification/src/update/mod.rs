//! One step of a running game: balloons move, claim cells, collide, and new ones are launched.

pub mod cells;
pub mod launches;
pub mod motion;

use self::cells::{claim_cells, claimed};
use self::launches::{
    count_due, emit_balloons, emitted, launches_due, lemma_launches_bounded, Launch, LaunchView,
    Velocity,
};
use self::motion::{all_moved, move_balloons};
use crate::collision::{collided, endures, handle_collisions, lemma_collided_shrinks};
use crate::ids::{fresh_id, is_random_id};
use crate::measure::{is_table, Measurements, MeasurementsView};
use crate::seqs::views;
use crate::single::Single;
use crate::state::{GameState, GameStateView};
use vstd::prelude::*;

verus! {

/// The room with its balloons moved and its cells claimed.
pub open spec fn drifted(s: GameStateView, now: int, m: MeasurementsView) -> GameStateView {
    let bs = all_moved(s.balloons, m.motions);
    GameStateView {
        last_update: now,
        balloons: bs,
        grid: claimed(s.grid, bs, bs.len() as int),
        ..s
    }
}

/// The room after a step, but for the launches.
pub open spec fn advanced(s: GameStateView, now: int, m: MeasurementsView) -> GameStateView {
    collided(drifted(s, now, m), m)
}

/// A launch for each of the first velocities, with random ids.
pub open spec fn drawn(ls: Seq<LaunchView>, vs: Seq<Velocity>, n: int) -> bool {
    &&& ls.len() == n <= vs.len()
    &&& forall|k: int|
        0 <= k < n ==> (#[trigger] ls[k]).vx == vs[k].vx && ls[k].vy == vs[k].vy && is_random_id(
            ls[k].id,
        )
}

/// The room after a step of a running game.
pub open spec fn updated(
    s: GameStateView,
    now: int,
    m: MeasurementsView,
    ls: Seq<LaunchView>,
) -> GameStateView {
    emitted(advanced(s, now, m), now, ls)
}

/// What a step needs, once the game has started: all measurements, healths that do not run below
/// what they can hold, and a velocity for everything that could launch a balloon.
pub open spec fn can_step(
    s: GameStateView,
    now: int,
    m: MeasurementsView,
    vs: Seq<Velocity>,
) -> bool {
    s.game_started ==> {
        &&& m.covers(s)
        &&& endures(drifted(s, now, m), m)
        &&& vs.len() >= s.emitters.len() + s.bases.len()
    }
}

/// A room and measurements with which a step can be made at any time: everything has health, and
/// there is less in the room than a health can count.
pub open spec fn is_ready(s: GameStateView, m: MeasurementsView, vs: Seq<Velocity>) -> bool {
    &&& m.covers(s)
    &&& forall|i: int| 0 <= i < s.balloons.len() ==> (#[trigger] s.balloons[i]).health > 0
    &&& forall|i: int| 0 <= i < s.emitters.len() ==> (#[trigger] s.emitters[i]).health > 0
    &&& forall|i: int| 0 <= i < s.bases.len() ==> (#[trigger] s.bases[i]).health > 0
    &&& s.balloons.len() + s.emitters.len() + s.bases.len() <= i32::MAX
    &&& vs.len() >= s.emitters.len() + s.bases.len()
}

fn has_shape(d: &Vec<Vec<Single>>, rows: usize, cols: usize) -> (r: bool)
    ensures
        r == is_table(views(d@), rows as int, cols as int),
{
    if d.len() != rows {
        return false;
    }
    let mut i: usize = 0;
    while i < rows
        invariant
            i <= rows,
            d@.len() == rows,
            forall|j: int| 0 <= j < i ==> (#[trigger] views(d@)[j]).len() == cols,
        decreases rows - i,
    {
        assert(views(d@)[i as int] == d@[i as int]@);
        if d[i].len() != cols {
            return false;
        }
        i = i + 1;
    }
    true
}

/// Whether a step can be made with these measurements and velocities.
pub fn ready(game_state: &GameState, measured: &Measurements, velocities: &Vec<Velocity>) -> (r:
    bool)
    ensures
        r == is_ready(game_state@, measured@, velocities@),
{
    let ghost s = game_state@;
    let n = game_state.balloons.len();
    let q = game_state.emitters.len();
    let c = game_state.bases.len();
    if measured.motions.len() != n || !has_shape(&measured.between_balloons, n, n) || !has_shape(
        &measured.to_emitters,
        n,
        q,
    ) {
        return false;
    }
    let limit: usize = 0x7fff_ffff;
    if n > limit || q > limit - n || c > limit - n - q || velocities.len() < q + c {
        return false;
    }
    let mut i: usize = 0;
    while i < n
        invariant
            i <= n,
            s == game_state@,
            n == game_state.balloons@.len(),
            forall|j: int| 0 <= j < i ==> (#[trigger] s.balloons[j]).health > 0,
        decreases n - i,
    {
        assert(s.balloons[i as int] == game_state.balloons@[i as int]@);
        if game_state.balloons[i].health <= 0 {
            return false;
        }
        i = i + 1;
    }
    let mut i: usize = 0;
    while i < q
        invariant
            i <= q,
            s == game_state@,
            q == game_state.emitters@.len(),
            forall|j: int| 0 <= j < i ==> (#[trigger] s.emitters[j]).health > 0,
        decreases q - i,
    {
        assert(s.emitters[i as int] == game_state.emitters@[i as int]@);
        if game_state.emitters[i].health <= 0 {
            return false;
        }
        i = i + 1;
    }
    let mut i: usize = 0;
    while i < c
        invariant
            i <= c,
            s == game_state@,
            c == game_state.bases@.len(),
            forall|j: int| 0 <= j < i ==> (#[trigger] s.bases[j]).health > 0,
        decreases c - i,
    {
        assert(s.bases[i as int] == game_state.bases@[i as int]@);
        if game_state.bases[i].health <= 0 {
            return false;
        }
        i = i + 1;
    }
    true
}

/// `t` is the room `s` after a step at `now`: unchanged before the game has started; then updated,
/// with random ids for the balloons launched.
pub open spec fn stepped(
    s: GameStateView,
    t: GameStateView,
    now: int,
    m: MeasurementsView,
    vs: Seq<Velocity>,
) -> bool {
    if s.game_started {
        exists|ls: Seq<LaunchView>|
            {
                &&& drawn(ls, vs, launches_due(advanced(s, now, m), now))
                &&& t == #[trigger] updated(s, now, m, ls)
            }
    } else {
        t == s
    }
}

fn draw_launches(velocities: &Vec<Velocity>, n: usize) -> (r: Vec<Launch>)
    requires
        n <= velocities@.len(),
    ensures
        drawn(views(r@), velocities@, n as int),
{
    let mut r: Vec<Launch> = Vec::new();
    let mut k: usize = 0;
    while k < n
        invariant
            k <= n <= velocities@.len(),
            drawn(views(r@), velocities@, k as int),
        decreases n - k,
    {
        let ghost before = views(r@);
        let v = velocities[k];
        r.push(Launch { id: fresh_id(), vx: v.vx, vy: v.vy });
        proof {
            assert forall|j: int| 0 <= j < k + 1 implies (#[trigger] views(r@)[j]).vx
                == velocities@[j].vx && views(r@)[j].vy == velocities@[j].vy && is_random_id(
                views(r@)[j].id,
            ) by {
                if j < k {
                    assert(views(r@)[j] == before[j]);
                }
            }
        }
        k = k + 1;
    }
    r
}

/// A step of the game up to its launches: motion, cells, collisions.
pub fn advance_game_state(game_state: &mut GameState, now: u64, measured: &Measurements)
    requires
        measured@.covers(old(game_state)@),
        endures(drifted(old(game_state)@, now as int, measured@), measured@),
    ensures
        final(game_state)@ == advanced(old(game_state)@, now as int, measured@),
{
    let ghost s = game_state@;
    game_state.last_update = now;
    move_balloons(&mut game_state.balloons, &measured.motions);
    claim_cells(&mut game_state.grid, &game_state.balloons);
    assert(game_state@ =~= drifted(s, now as int, measured@));
    handle_collisions(game_state, measured);
}

/// One step of the game at `now`: nothing before the game has started; then balloons move, claim
/// the cells that they are in and collide, and each emitter and base whose time has come launches
/// a balloon with the next of the velocities.
pub fn update_game_state(
    game_state: &mut GameState,
    now: u64,
    measured: &Measurements,
    velocities: &Vec<Velocity>,
)
    requires
        can_step(old(game_state)@, now as int, measured@, velocities@),
    ensures
        stepped(
            old(game_state)@,
            final(game_state)@,
            now as int,
            measured@,
            velocities@,
        ),
{
    if !game_state.game_started {
        return;
    }
    let ghost s = game_state@;
    proof {
        lemma_collided_shrinks(drifted(game_state@, now as int, measured@), measured@);
    }
    advance_game_state(game_state, now, measured);
    proof {
        lemma_launches_bounded(game_state@, now as int);
        assert(launches_due(game_state@, now as int) <= velocities.len());
    }
    let n = count_due(game_state, now);
    let launches = draw_launches(velocities, n);
    emit_balloons(game_state, now, &launches);
    assert(game_state@ == updated(s, now as int, measured@, views(launches@)));
}

} // verus!
