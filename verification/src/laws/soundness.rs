//! What holds of every room, however it came about.

use super::battle::{
    law_balloons_left_have_health, law_bases_left_have_health, law_emitters_left_have_health,
    law_out_with_the_base, one_base_each,
};
use super::canvas::{law_last_balloon_claims, lies_alike};
use super::launches::law_balloons_start_at_their_source;
use crate::collision::balloons::bounced;
use crate::collision::bases::touches_base;
use crate::collision::emitters::{past_emitters, touches_emitter};
use crate::collision::{
    battered, battered_bases, battered_emitters, collided, lemma_battered, lemma_collided_shrinks,
};
use crate::emitters::{placed, EMITTER_HEALTH};
use crate::lobby::{corner, departed, joined, new_base, started, BASE_HEALTH, BASE_SIZE};
use crate::measure::MeasurementsView;
use crate::seqs::lemma_tally_bounds;
use crate::state::{
    fresh_grid, fresh_state, BalloonView, BaseView, EmitterView, GameStateView, GridCellView,
};
use crate::update::launches::{
    emitted, launches_due, BALLOON_HEALTH, BALLOON_RADIUS, LaunchView, Velocity,
};
use crate::update::{advanced, can_step, drawn, drifted, is_ready, stepped, updated};
use vstd::prelude::*;

verus! {

pub open spec fn sound_balloon(b: BalloonView) -> bool {
    b.radius == BALLOON_RADIUS && 0 < b.health <= BALLOON_HEALTH
}

pub open spec fn sound_emitter(e: EmitterView) -> bool {
    0 < e.health <= EMITTER_HEALTH
}

pub open spec fn sound_base(c: BaseView) -> bool {
    &&& c.size == BASE_SIZE
    &&& 0 < c.health <= BASE_HEALTH
    &&& exists|n: int| 0 <= n < 4 && (c.x, c.y) == #[trigger] corner(n)
}

/// The grid lies as it was laid out, everything on the canvas has health and no more than it
/// started with, bases stand in the corners, and no player has two.
pub open spec fn is_sound(s: GameStateView) -> bool {
    &&& lies_alike(fresh_grid(), s.grid)
    &&& forall|i: int| 0 <= i < s.balloons.len() ==> sound_balloon(#[trigger] s.balloons[i])
    &&& forall|i: int| 0 <= i < s.emitters.len() ==> sound_emitter(#[trigger] s.emitters[i])
    &&& forall|i: int| 0 <= i < s.bases.len() ==> sound_base(#[trigger] s.bases[i])
    &&& one_base_each(s.bases)
}

/// A fresh room is sound.
pub proof fn law_fresh_room_is_sound(now: int)
    ensures
        is_sound(fresh_state(now)),
{
}

/// Joining under a new id keeps a room sound.
pub proof fn law_joining_keeps_sound(s: GameStateView, id: Seq<char>, now: int)
    requires
        is_sound(s),
        forall|i: int| 0 <= i < s.bases.len() ==> (#[trigger] s.bases[i]).player_id != id,
    ensures
        is_sound(joined(s, id, now)),
{
    let t = joined(s, id, now);
    let n = s.players.len() as int % 4;
    assert(corner(n) == corner(s.players.len() as int));
    assert(sound_base(new_base(s, id, now)));
    assert forall|i: int| 0 <= i < t.bases.len() implies sound_base(#[trigger] t.bases[i]) by {
        if i < s.bases.len() {
            assert(t.bases[i] == s.bases[i]);
        }
    }
    assert forall|i: int, j: int| 0 <= i < j < t.bases.len() implies (
    #[trigger] t.bases[i]).player_id != (#[trigger] t.bases[j]).player_id by {
        assert(t.bases[i] == s.bases[i]);
        if j < s.bases.len() {
            assert(t.bases[j] == s.bases[j]);
        }
    }
}

/// Leaving and starting keep a room sound.
pub proof fn law_leaving_and_starting_keep_sound(s: GameStateView, id: Seq<char>)
    requires
        is_sound(s),
    ensures
        is_sound(departed(s, id)),
        is_sound(started(s, id)),
{
}

/// Placing an emitter keeps a room sound.
pub proof fn law_placing_keeps_sound(
    s: GameStateView,
    x: crate::single::Single,
    y: crate::single::Single,
    player_id: Seq<char>,
    id: Seq<char>,
    now: int,
)
    requires
        is_sound(s),
    ensures
        is_sound(placed(s, x, y, player_id, id, now)),
{
    let t = placed(s, x, y, player_id, id, now);
    assert forall|i: int| 0 <= i < t.emitters.len() implies sound_emitter(
        #[trigger] t.emitters[i],
    ) by {
        if i < s.emitters.len() {
            assert(t.emitters[i] == s.emitters[i]);
        }
    }
}

proof fn lemma_drifted_sound(s: GameStateView, now: int, m: MeasurementsView)
    requires
        is_sound(s),
    ensures
        is_sound(drifted(s, now, m)),
{
    let t = drifted(s, now, m);
    assert(s.grid.len() == fresh_grid().len());
    law_last_balloon_claims(s.grid, t.balloons, t.balloons.len() as int, 0);
    assert forall|k: int| 0 <= k < t.grid.len() implies (GridCellView {
        owner: None,
        ..#[trigger] fresh_grid()[k]
    }) == (GridCellView { owner: None, ..t.grid[k] }) by {
        assert((GridCellView { owner: None, ..s.grid[k] }) == (GridCellView {
            owner: None,
            ..t.grid[k]
        }));
    }
    assert forall|i: int| 0 <= i < t.balloons.len() implies sound_balloon(
        #[trigger] t.balloons[i],
    ) by {
        assert(sound_balloon(s.balloons[i]));
    }
}

proof fn lemma_collided_sound(s: GameStateView, m: MeasurementsView)
    requires
        is_sound(s),
    ensures
        is_sound(collided(s, m)),
{
    let t = collided(s, m);
    assert forall|i: int| 0 <= i < t.balloons.len() implies sound_balloon(
        #[trigger] t.balloons[i],
    ) by {
        let b = t.balloons[i];
        assert(t.balloons.contains(b));
        law_balloons_left_have_health(s, m, b);
        let k = choose|k: int|
            0 <= k < s.balloons.len() && b == #[trigger] battered(s, m)[k]
                && b.health <= s.balloons[k].health && b.id == s.balloons[k].id && b.player_id
                == s.balloons[k].player_id && b.radius == s.balloons[k].radius;
        assert(sound_balloon(s.balloons[k]));
    }
    assert forall|k: int| 0 <= k < s.emitters.len() implies (#[trigger] s.emitters[k]).health
        > 0 by {
        assert(sound_emitter(s.emitters[k]));
    }
    assert forall|i: int| 0 <= i < t.emitters.len() implies sound_emitter(
        #[trigger] t.emitters[i],
    ) by {
        let e = t.emitters[i];
        assert(t.emitters.contains(e));
        law_emitters_left_have_health(s, m, e);
        let k = choose|k: int|
            0 <= k < s.emitters.len() && e == #[trigger] battered_emitters(
                s,
                m,
            )[k] && e.health <= s.emitters[k].health && e.id == s.emitters[k].id;
        assert(sound_emitter(s.emitters[k]));
    }
    assert forall|k: int| 0 <= k < s.bases.len() implies (#[trigger] s.bases[k]).health > 0 by {
        assert(sound_base(s.bases[k]));
    }
    assert forall|i: int| 0 <= i < t.bases.len() implies sound_base(#[trigger] t.bases[i]) by {
        let c = t.bases[i];
        assert(t.bases.contains(c));
        law_bases_left_have_health(s, m, c);
        let k = choose|k: int|
            0 <= k < s.bases.len() && c == #[trigger] battered_bases(s, m)[k]
                && c.health <= s.bases[k].health;
        assert(sound_base(s.bases[k]));
    }
    law_out_with_the_base(s, m);
}

proof fn lemma_emitted_sound(s: GameStateView, now: int, ls: Seq<LaunchView>)
    requires
        is_sound(s),
        ls.len() >= launches_due(s, now),
    ensures
        is_sound(emitted(s, now, ls)),
{
    let t = emitted(s, now, ls);
    assert forall|i: int| 0 <= i < t.balloons.len() implies sound_balloon(
        #[trigger] t.balloons[i],
    ) by {
        law_balloons_start_at_their_source(s, now, ls, i);
        if i < s.balloons.len() {
            assert(sound_balloon(s.balloons[i]));
        }
    }
    assert forall|i: int| 0 <= i < t.emitters.len() implies sound_emitter(
        #[trigger] t.emitters[i],
    ) by {
        assert(sound_emitter(s.emitters[i]));
    }
    assert forall|i: int| 0 <= i < t.bases.len() implies sound_base(#[trigger] t.bases[i]) by {
        assert(sound_base(s.bases[i]));
    }
    assert forall|i: int, j: int| 0 <= i < j < t.bases.len() implies (
    #[trigger] t.bases[i]).player_id != (#[trigger] t.bases[j]).player_id by {
        assert(s.bases[i].player_id != s.bases[j].player_id);
    }
}

/// A step keeps a room sound. It never takes back that the game has started or is over, does not
/// touch the host, and brings nobody into the room.
pub proof fn law_steps_keep_sound(
    s: GameStateView,
    t: GameStateView,
    now: int,
    m: MeasurementsView,
    vs: Seq<Velocity>,
)
    requires
        is_sound(s),
        stepped(s, t, now, m, vs),
    ensures
        is_sound(t),
        t.game_started == s.game_started,
        s.game_over ==> t.game_over,
        t.host_id == s.host_id,
        t.players.len() <= s.players.len(),
        t.bases.len() <= s.bases.len(),
        t.emitters.len() <= s.emitters.len(),
{
    if s.game_started {
        let ls = choose|ls: Seq<LaunchView>|
            {
                &&& drawn(ls, vs, launches_due(advanced(s, now, m), now))
                &&& t == #[trigger] updated(s, now, m, ls)
            };
        lemma_drifted_sound(s, now, m);
        lemma_collided_sound(drifted(s, now, m), m);
        lemma_collided_shrinks(drifted(s, now, m), m);
        lemma_emitted_sound(advanced(s, now, m), now, ls);
    }
}

/// A room that is ready can make a step at any time.
pub proof fn law_ready_rooms_can_step(s: GameStateView, now: int, m: MeasurementsView, vs: Seq<Velocity>)
    requires
        is_ready(s, m, vs),
    ensures
        can_step(s, now, m, vs),
{
    let t = drifted(s, now, m);
    let b1 = bounced(t.balloons, m.between_balloons);
    let b2 = past_emitters(b1, t.emitters, m.to_emitters);
    let n = s.balloons.len() as int;
    assert forall|i: int| 0 <= i < t.balloons.len() implies (#[trigger] battered(t, m)[i]).health
        >= i32::MIN by {
        lemma_battered(t, m, i);
        assert(s.balloons[i].health > 0);
    }
    assert forall|k: int| 0 <= k < t.emitters.len() implies (#[trigger] battered_emitters(
        t,
        m,
    )[k]).health >= i32::MIN by {
        lemma_tally_bounds(
            |i: int| touches_emitter(b1[i], t.emitters[k], m.to_emitters[i][k]),
            n,
        );
        assert(s.emitters[k].health > 0);
    }
    assert forall|k: int| 0 <= k < t.bases.len() implies (#[trigger] battered_bases(
        t,
        m,
    )[k]).health >= i32::MIN by {
        lemma_tally_bounds(
            |i: int| touches_base(b2[i], t.bases[k], m.motions[i].extent),
            n,
        );
        assert(s.bases[k].health > 0);
    }
}

/// A sound room of any size that a health can count can always make a step, given measurements of
/// everything in it and enough velocities.
pub proof fn law_sound_rooms_are_ready(s: GameStateView, m: MeasurementsView, vs: Seq<Velocity>)
    requires
        is_sound(s),
        m.covers(s),
        s.balloons.len() + s.emitters.len() + s.bases.len() <= i32::MAX,
        vs.len() >= s.emitters.len() + s.bases.len(),
    ensures
        is_ready(s, m, vs),
{
    assert forall|i: int| 0 <= i < s.balloons.len() implies (#[trigger] s.balloons[i]).health
        > 0 by {
        assert(sound_balloon(s.balloons[i]));
    }
    assert forall|i: int| 0 <= i < s.emitters.len() implies (#[trigger] s.emitters[i]).health
        > 0 by {
        assert(sound_emitter(s.emitters[i]));
    }
    assert forall|i: int| 0 <= i < s.bases.len() implies (#[trigger] s.bases[i]).health > 0 by {
        assert(sound_base(s.bases[i]));
    }
}

/// What readiness is: a motion for each balloon, its distances from all balloons and from all
/// emitters, health in everything, no more of it than a health can count, and a velocity for each
/// emitter and base.
pub proof fn law_readiness(s: GameStateView, m: MeasurementsView, vs: Seq<Velocity>)
    ensures
        is_ready(s, m, vs) <==> {
            &&& m.motions.len() == s.balloons.len()
            &&& m.between_balloons.len() == s.balloons.len()
            &&& forall|i: int|
                0 <= i < s.balloons.len() ==> (#[trigger] m.between_balloons[i]).len()
                    == s.balloons.len()
            &&& m.to_emitters.len() == s.balloons.len()
            &&& forall|i: int|
                0 <= i < s.balloons.len() ==> (#[trigger] m.to_emitters[i]).len()
                    == s.emitters.len()
            &&& forall|i: int| 0 <= i < s.balloons.len() ==> (#[trigger] s.balloons[i]).health > 0
            &&& forall|k: int| 0 <= k < s.emitters.len() ==> (#[trigger] s.emitters[k]).health > 0
            &&& forall|k: int| 0 <= k < s.bases.len() ==> (#[trigger] s.bases[k]).health > 0
            &&& s.balloons.len() + s.emitters.len() + s.bases.len() <= 0x7fff_ffff
            &&& vs.len() >= s.emitters.len() + s.bases.len()
        },
{
}

} // verus!
