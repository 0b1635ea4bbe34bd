//! Collisions: who touches whom, what it costs, and what is left.

pub mod balloons;
pub mod bases;
pub mod contact;
pub mod emitters;
pub mod removal;

use self::balloons::{bounced, clash, clashes, collide_balloons};
use self::emitters::{
    collide_emitters, emitters_left, emitters_met, id_down, past_emitters, struck_emitters,
    touches_emitter,
};
use self::bases::{bases_met, collide_bases, felled, past_bases, razed, struck_bases, touches_base};
use self::removal::{drop_emitters, keep_alive, raze_bases};
use crate::measure::{Measurements, MeasurementsView};
use crate::seqs::{
    lemma_filter_agree, lemma_first_where, lemma_tally_bounds, lemma_tally_grows, views,
};
use crate::state::{BalloonView, BaseView, EmitterView, GameState, GameStateView, PlayerView};
use vstd::prelude::*;

verus! {

/// The balloons after all their collisions, the dead still among them.
pub open spec fn battered(s: GameStateView, m: MeasurementsView) -> Seq<BalloonView> {
    let b1 = bounced(s.balloons, m.between_balloons);
    let b2 = past_emitters(b1, s.emitters, m.to_emitters);
    past_bases(b2, s.bases, m.motions)
}

/// The emitters after all their collisions, those struck down still among them.
pub open spec fn battered_emitters(s: GameStateView, m: MeasurementsView) -> Seq<EmitterView> {
    struck_emitters(bounced(s.balloons, m.between_balloons), s.emitters, m.to_emitters)
}

/// The bases after all their collisions, the destroyed still among them.
pub open spec fn battered_bases(s: GameStateView, m: MeasurementsView) -> Seq<BaseView> {
    let b1 = bounced(s.balloons, m.between_balloons);
    let b2 = past_emitters(b1, s.emitters, m.to_emitters);
    struck_bases(b2, s.bases, m.motions)
}

/// No health runs below what it can hold.
pub open spec fn endures(s: GameStateView, m: MeasurementsView) -> bool {
    &&& forall|i: int|
        0 <= i < s.balloons.len() ==> (#[trigger] battered(s, m)[i]).health >= i32::MIN
    &&& forall|k: int|
        0 <= k < s.emitters.len() ==> (#[trigger] battered_emitters(s, m)[k]).health >= i32::MIN
    &&& forall|k: int|
        0 <= k < s.bases.len() ==> (#[trigger] battered_bases(s, m)[k]).health >= i32::MIN
}

/// The room once all collisions are settled.
pub open spec fn collided(s: GameStateView, m: MeasurementsView) -> GameStateView {
    let b1 = bounced(s.balloons, m.between_balloons);
    let b2 = past_emitters(b1, s.emitters, m.to_emitters);
    let gone = felled(b2, s.bases, m.motions, b2.len() as int);
    let bases = razed(battered_bases(s, m), gone);
    GameStateView {
        players: s.players.filter(|p: PlayerView| !gone.contains(p.id)),
        balloons: battered(s, m).filter(|b: BalloonView| b.health > 0),
        emitters: emitters_left(b1, s.emitters, m.to_emitters),
        bases,
        game_over: s.game_over || bases.len() <= 1,
        winner_player_id: if bases.len() == 1 {
            Some(bases[0].player_id)
        } else {
            s.winner_player_id
        },
        ..s
    }
}

proof fn lemma_razed_shrinks(cs: Seq<BaseView>, ids: Seq<Seq<char>>)
    ensures
        razed(cs, ids).len() <= cs.len(),
    decreases ids.len(),
{
    if ids.len() > 0 {
        lemma_razed_shrinks(cs, ids.drop_last());
        let before = razed(cs, ids.drop_last());
        lemma_first_where(before, |c: BaseView| c.player_id == ids.last());
    }
}

/// Collisions add nothing to a room.
pub proof fn lemma_collided_shrinks(s: GameStateView, m: MeasurementsView)
    ensures
        collided(s, m).players.len() <= s.players.len(),
        collided(s, m).balloons.len() <= s.balloons.len(),
        collided(s, m).emitters.len() <= s.emitters.len(),
        collided(s, m).bases.len() <= s.bases.len(),
{
    broadcast use Seq::lemma_filter_len;

    let b1 = bounced(s.balloons, m.between_balloons);
    let b2 = past_emitters(b1, s.emitters, m.to_emitters);
    lemma_razed_shrinks(battered_bases(s, m), felled(b2, s.bases, m.motions, b2.len() as int));
}

/// What collisions do to balloon `i`.
pub proof fn lemma_battered(s: GameStateView, m: MeasurementsView, i: int)
    requires
        0 <= i < s.balloons.len(),
    ensures
        ({
            let b1 = bounced(s.balloons, m.between_balloons);
            let b2 = past_emitters(b1, s.emitters, m.to_emitters);
            let n = s.balloons.len() as int;
            let cost = clashes(s.balloons, m.between_balloons, i, n) + emitters_met(
                b1,
                s.emitters,
                m.to_emitters,
                i,
                s.emitters.len() as int,
            ) + bases_met(b2, s.bases, m.motions, i, s.bases.len() as int);
            &&& battered(s, m).len() == n
            &&& battered(s, m)[i].health == s.balloons[i].health - cost
            &&& 0 <= cost <= n + s.emitters.len() + s.bases.len()
            &&& battered(s, m)[i].id == s.balloons[i].id
            &&& battered(s, m)[i].player_id == s.balloons[i].player_id
            &&& battered(s, m)[i].radius == s.balloons[i].radius
            &&& battered(s, m)[i].x == s.balloons[i].x
            &&& battered(s, m)[i].y == s.balloons[i].y
        }),
{
    let b1 = bounced(s.balloons, m.between_balloons);
    let b2 = past_emitters(b1, s.emitters, m.to_emitters);
    let n = s.balloons.len() as int;
    lemma_tally_bounds(|c: int| clash(s.balloons, m.between_balloons, i, c), n);
    lemma_tally_bounds(
        |k: int| touches_emitter(b1[i], s.emitters[k], m.to_emitters[i][k]),
        s.emitters.len() as int,
    );
    lemma_tally_bounds(
        |k: int| touches_base(b2[i], s.bases[k], m.motions[i].extent),
        s.bases.len() as int,
    );
}

/// Settles the collisions of balloons with balloons, emitters and bases. What has lost its last
/// health is removed, a player goes with the base, and when at most one base is left the game is
/// over.
pub fn handle_collisions(game_state: &mut GameState, measured: &Measurements)
    requires
        measured@.covers(old(game_state)@),
        endures(old(game_state)@, measured@),
    ensures
        final(game_state)@ == collided(old(game_state)@, measured@),
{
    let ghost s = game_state@;
    let ghost m = measured@;
    let ghost b1 = bounced(s.balloons, m.between_balloons);
    let ghost b2 = past_emitters(b1, s.emitters, m.to_emitters);
    let ghost n = s.balloons.len() as int;
    proof {
        assert forall|i: int| 0 <= i < n implies (#[trigger] b2[i]).health >= i32::MIN by {
            assert(battered(s, m)[i].health >= i32::MIN);
            lemma_tally_grows(
                |k: int| touches_base(b2[i], s.bases[k], m.motions[i].extent),
                0,
                s.bases.len() as int,
            );
        }
        assert forall|i: int| 0 <= i < n implies (#[trigger] b1[i]).health >= i32::MIN by {
            assert(b2[i].health >= i32::MIN);
            lemma_tally_grows(
                |k: int| touches_emitter(b1[i], s.emitters[k], m.to_emitters[i][k]),
                0,
                s.emitters.len() as int,
            );
        }
        assert forall|k: int| 0 <= k < s.emitters.len() implies (#[trigger] struck_emitters(
            b1,
            s.emitters,
            m.to_emitters,
        )[k]).health >= i32::MIN by {
            assert(battered_emitters(s, m)[k].health >= i32::MIN);
        }
        assert forall|k: int| 0 <= k < s.bases.len() implies (#[trigger] struck_bases(
            b2,
            s.bases,
            m.motions,
        )[k]).health >= i32::MIN by {
            assert(battered_bases(s, m)[k].health >= i32::MIN);
        }
    }
    collide_balloons(&mut game_state.balloons, &measured.between_balloons);
    let emitters_to_remove = collide_emitters(
        &mut game_state.balloons,
        &mut game_state.emitters,
        &measured.to_emitters,
    );
    let bases_to_remove = collide_bases(
        &mut game_state.balloons,
        &mut game_state.bases,
        &measured.motions,
    );
    keep_alive(&mut game_state.balloons);
    drop_emitters(&mut game_state.emitters, &emitters_to_remove);
    proof {
        lemma_filter_agree(
            battered_emitters(s, m),
            |e: EmitterView| !views(emitters_to_remove@).contains(e.id),
            |e: EmitterView| !id_down(b1, s.emitters, m.to_emitters, e.id),
        );
    }
    raze_bases(&mut game_state.players, &mut game_state.bases, &bases_to_remove);
    if game_state.bases.len() <= 1 {
        game_state.game_over = true;
        if game_state.bases.len() > 0 {
            game_state.winner_player_id = Some(game_state.bases[0].player_id.clone());
        }
    }
    assert(game_state@ =~= collided(s, m));
}

} // verus!
