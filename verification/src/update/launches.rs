//! Launching balloons from emitters and bases.

use crate::seqs::{lemma_tally_bounds, lemma_tally_grows, tally, views};
use crate::single::{halves_of, Single};
use crate::state::{
    Balloon, BalloonView, Base, BaseView, Emitter, EmitterView, GameState, GameStateView,
};
use vstd::prelude::*;

verus! {

pub const BALLOON_RADIUS: u16 = 10;

pub const BALLOON_HEALTH: i32 = 3;

/// The longest time, in nanoseconds, that single precision seconds still count as two seconds.
pub const EMIT_INTERVAL: u64 = 2_000_000_119;

/// The id and the velocity of a balloon that is about to be launched.
#[derive(Debug)]
pub struct Launch {
    pub id: String,
    pub vx: Single,
    pub vy: Single,
}

pub struct LaunchView {
    pub id: Seq<char>,
    pub vx: Single,
    pub vy: Single,
}

impl View for Launch {
    type V = LaunchView;

    open spec fn view(&self) -> LaunchView {
        LaunchView { id: self.id@, vx: self.vx, vy: self.vy }
    }
}

/// A velocity drawn for a launch.
#[derive(Clone, Copy, Debug)]
pub struct Velocity {
    pub vx: Single,
    pub vy: Single,
}

/// The time from `last` to `now`; none where `last` is the later.
pub open spec fn elapsed_time(now: int, last: int) -> int {
    if now > last {
        now - last
    } else {
        0
    }
}

/// The time from `last` to `now`, in nanoseconds.
pub fn elapsed(now: u64, last: u64) -> (r: u64)
    ensures
        r == elapsed_time(now as int, last as int),
{
    if now > last {
        now - last
    } else {
        0
    }
}

/// Something that last launched a balloon at `last` launches one at `now`.
pub open spec fn is_due(now: int, last: int) -> bool {
    elapsed_time(now, last) > EMIT_INTERVAL
}

fn due(now: u64, last: u64) -> (r: bool)
    ensures
        r == is_due(now as int, last as int),
{
    elapsed(now, last) > EMIT_INTERVAL
}

/// A balloon of that player as it is launched from `(x, y)`.
pub open spec fn launched(l: LaunchView, x: Single, y: Single, player_id: Seq<char>) -> BalloonView {
    BalloonView {
        id: l.id,
        x,
        y,
        vx: l.vx,
        vy: l.vy,
        radius: BALLOON_RADIUS as int,
        health: BALLOON_HEALTH as int,
        player_id,
    }
}

fn launch(l: &Launch, x: Single, y: Single, player_id: &String) -> (r: Balloon)
    ensures
        r@ == launched(l@, x, y, player_id@),
{
    Balloon {
        id: l.id.clone(),
        x,
        y,
        vx: l.vx,
        vy: l.vy,
        radius: BALLOON_RADIUS,
        health: BALLOON_HEALTH,
        player_id: player_id.clone(),
    }
}

/// How many of the first `n` emitters launch at `now`.
pub open spec fn emitters_due(es: Seq<EmitterView>, now: int, n: int) -> int {
    tally(|k: int| is_due(now, es[k].last_emit_time), n)
}

/// How many of the first `n` bases launch at `now`.
pub open spec fn bases_due(cs: Seq<BaseView>, now: int, n: int) -> int {
    tally(|k: int| is_due(now, cs[k].last_emit_time), n)
}

/// How many balloons are launched at `now`.
pub open spec fn launches_due(s: GameStateView, now: int) -> int {
    emitters_due(s.emitters, now, s.emitters.len() as int) + bases_due(
        s.bases,
        now,
        s.bases.len() as int,
    )
}

/// The balloons that the first `n` emitters launch; each takes the next of `ls`.
pub open spec fn from_emitters(
    es: Seq<EmitterView>,
    now: int,
    ls: Seq<LaunchView>,
    n: int,
) -> Seq<BalloonView>
    decreases n,
{
    if n <= 0 {
        Seq::empty()
    } else {
        let e = es[n - 1];
        let before = from_emitters(es, now, ls, n - 1);
        if is_due(now, e.last_emit_time) {
            before.push(launched(ls[before.len() as int], e.x, e.y, e.player_id))
        } else {
            before
        }
    }
}

/// The balloons that the first `n` bases launch, from their middle; each takes the next of `ls`.
pub open spec fn from_bases(
    cs: Seq<BaseView>,
    now: int,
    ls: Seq<LaunchView>,
    n: int,
) -> Seq<BalloonView>
    decreases n,
{
    if n <= 0 {
        Seq::empty()
    } else {
        let c = cs[n - 1];
        let before = from_bases(cs, now, ls, n - 1);
        if is_due(now, c.last_emit_time) {
            before.push(
                launched(
                    ls[before.len() as int],
                    halves_of(2 * c.x),
                    halves_of(2 * c.y),
                    c.player_id,
                ),
            )
        } else {
            before
        }
    }
}

/// The emitters after their launches: those that launched note the time.
pub open spec fn emitters_after(es: Seq<EmitterView>, now: int) -> Seq<EmitterView> {
    es.map_values(
        |e: EmitterView|
            if is_due(now, e.last_emit_time) {
                EmitterView { last_emit_time: now, ..e }
            } else {
                e
            },
    )
}

/// The bases after their launches: those that launched note the time.
pub open spec fn bases_after(cs: Seq<BaseView>, now: int) -> Seq<BaseView> {
    cs.map_values(
        |c: BaseView|
            if is_due(now, c.last_emit_time) {
                BaseView { last_emit_time: now, ..c }
            } else {
                c
            },
    )
}

/// The room after all launches that are due: the emitters come first, then the bases.
pub open spec fn emitted(s: GameStateView, now: int, ls: Seq<LaunchView>) -> GameStateView {
    let ours = emitters_due(s.emitters, now, s.emitters.len() as int);
    GameStateView {
        balloons: s.balloons + from_emitters(s.emitters, now, ls, s.emitters.len() as int)
            + from_bases(s.bases, now, ls.skip(ours), s.bases.len() as int),
        emitters: emitters_after(s.emitters, now),
        bases: bases_after(s.bases, now),
        ..s
    }
}

/// No more is launched than there are emitters and bases.
pub proof fn lemma_launches_bounded(s: GameStateView, now: int)
    ensures
        0 <= launches_due(s, now) <= s.emitters.len() + s.bases.len(),
{
    lemma_tally_bounds(
        |k: int| is_due(now, s.emitters[k].last_emit_time),
        s.emitters.len() as int,
    );
    lemma_tally_bounds(|k: int| is_due(now, s.bases[k].last_emit_time), s.bases.len() as int);
}

/// Counts the balloons that are launched at `now`.
pub(crate) fn count_due(game_state: &GameState, now: u64) -> (r: usize)
    requires
        launches_due(game_state@, now as int) <= usize::MAX,
    ensures
        r == launches_due(game_state@, now as int),
{
    let ghost es = game_state@.emitters;
    let ghost cs = game_state@.bases;
    let mut n: usize = 0;
    let mut k: usize = 0;
    while k < game_state.emitters.len()
        invariant
            k <= es.len(),
            es == views(game_state.emitters@),
            n == emitters_due(es, now as int, k as int),
            n <= k,
        decreases es.len() - k,
    {
        assert(es[k as int] == game_state.emitters@[k as int]@);
        if due(now, game_state.emitters[k].last_emit_time) {
            n = n + 1;
        }
        k = k + 1;
    }
    let mut k: usize = 0;
    while k < game_state.bases.len()
        invariant
            k <= cs.len(),
            cs == views(game_state.bases@),
            emitters_due(es, now as int, es.len() as int) + bases_due(
                cs,
                now as int,
                cs.len() as int,
            ) <= usize::MAX,
            n == emitters_due(es, now as int, es.len() as int) + bases_due(
                cs,
                now as int,
                k as int,
            ),
        decreases cs.len() - k,
    {
        proof {
            assert(cs[k as int] == game_state.bases@[k as int]@);
            lemma_tally_grows(
                |c: int| is_due(now as int, cs[c].last_emit_time),
                k + 1,
                cs.len() as int,
            );
            assert(bases_due(cs, now as int, k + 1) <= bases_due(
                cs,
                now as int,
                cs.len() as int,
            ));
        }
        if due(now, game_state.bases[k].last_emit_time) {
            n = n + 1;
        }
        k = k + 1;
    }
    n
}

fn emit_from_emitters(
    balloons: &mut Vec<Balloon>,
    emitters: &mut Vec<Emitter>,
    now: u64,
    launches: &Vec<Launch>,
) -> (used: usize)
    requires
        launches@.len() >= emitters_due(
            views(old(emitters)@),
            now as int,
            old(emitters)@.len() as int,
        ),
    ensures
        used == emitters_due(views(old(emitters)@), now as int, old(emitters)@.len() as int),
        views(final(balloons)@) == views(old(balloons)@) + from_emitters(
            views(old(emitters)@),
            now as int,
            views(launches@),
            old(emitters)@.len() as int,
        ),
        views(final(emitters)@) == emitters_after(views(old(emitters)@), now as int),
{
    let ghost bs = views(balloons@);
    let ghost es = views(emitters@);
    let ghost ls = views(launches@);
    let ghost t = now as int;
    let n: usize = emitters.len();
    let mut used: usize = 0;
    let mut k: usize = 0;
    assert(views(balloons@) =~= bs + from_emitters(es, t, ls, 0));
    while k < n
        invariant
            k <= n,
            n == emitters@.len() == es.len(),
            t == now,
            ls == views(launches@),
            ls.len() >= emitters_due(es, t, n as int),
            used == emitters_due(es, t, k as int),
            used == from_emitters(es, t, ls, k as int).len(),
            views(balloons@) == bs + from_emitters(es, t, ls, k as int),
            forall|c: int|
                0 <= c < n ==> #[trigger] emitters@[c]@ == (if c < k {
                    emitters_after(es, t)[c]
                } else {
                    es[c]
                }),
        decreases n - k,
    {
        let ghost before = emitters@;
        let ghost flown = views(balloons@);
        proof {
            assert(before[k as int]@ == es[k as int]);
            lemma_tally_grows(|c: int| is_due(t, es[c].last_emit_time), k + 1, n as int);
            assert(emitters_due(es, t, k + 1) <= emitters_due(es, t, n as int));
        }
        if due(now, emitters[k].last_emit_time) {
            assert(emitters_due(es, t, k + 1) == used + 1);
            assert(used < launches.len());
            assert(ls[used as int] == launches@[used as int]@);
            balloons.push(
                launch(&launches[used], emitters[k].x, emitters[k].y, &emitters[k].player_id),
            );
            proof {
                let e = es[k as int];
                let new = launched(ls[used as int], e.x, e.y, e.player_id);
                assert(views(balloons@) =~= flown.push(new));
                assert(from_emitters(es, t, ls, k + 1) == from_emitters(es, t, ls, k as int).push(
                    new,
                ));
                assert(views(balloons@) =~= bs + from_emitters(es, t, ls, k + 1));
            }
            emitters[k].last_emit_time = now;
            used = used + 1;
        }
        assert forall|c: int| 0 <= c < n && c != k implies #[trigger] emitters@[c] == before[c] by {
        }
        k = k + 1;
    }
    assert(views(emitters@) =~= emitters_after(es, t));
    used
}

fn emit_from_bases(
    balloons: &mut Vec<Balloon>,
    bases: &mut Vec<Base>,
    now: u64,
    launches: &Vec<Launch>,
    from: usize,
)
    requires
        launches@.len() >= from + bases_due(views(old(bases)@), now as int, old(bases)@.len() as int),
    ensures
        views(final(balloons)@) == views(old(balloons)@) + from_bases(
            views(old(bases)@),
            now as int,
            views(launches@).skip(from as int),
            old(bases)@.len() as int,
        ),
        views(final(bases)@) == bases_after(views(old(bases)@), now as int),
{
    let ghost bs = views(balloons@);
    let ghost cs = views(bases@);
    let ghost ls = views(launches@).skip(from as int);
    let ghost t = now as int;
    let n: usize = bases.len();
    let mut used: usize = from;
    let mut k: usize = 0;
    proof {
        lemma_tally_grows(|c: int| is_due(t, cs[c].last_emit_time), 0, n as int);
        assert(views(balloons@) =~= bs + from_bases(cs, t, ls, 0));
    }
    while k < n
        invariant
            k <= n,
            n == bases@.len() == cs.len(),
            t == now,
            from <= launches@.len(),
            ls == views(launches@).skip(from as int),
            launches@.len() >= from + bases_due(cs, t, n as int),
            used == from + bases_due(cs, t, k as int),
            used == from + from_bases(cs, t, ls, k as int).len(),
            views(balloons@) == bs + from_bases(cs, t, ls, k as int),
            forall|c: int|
                0 <= c < n ==> #[trigger] bases@[c]@ == (if c < k {
                    bases_after(cs, t)[c]
                } else {
                    cs[c]
                }),
        decreases n - k,
    {
        let ghost before = bases@;
        let ghost flown = views(balloons@);
        proof {
            assert(before[k as int]@ == cs[k as int]);
            lemma_tally_grows(|c: int| is_due(t, cs[c].last_emit_time), k + 1, n as int);
            assert(bases_due(cs, t, k + 1) <= bases_due(cs, t, n as int));
        }
        if due(now, bases[k].last_emit_time) {
            assert(bases_due(cs, t, k + 1) == used - from + 1);
            assert(used < launches.len());
            assert(ls[used - from] == launches@[used as int]@);
            balloons.push(
                launch(
                    &launches[used],
                    Single::halves(2 * bases[k].x as i32),
                    Single::halves(2 * bases[k].y as i32),
                    &bases[k].player_id,
                ),
            );
            proof {
                let c = cs[k as int];
                let new = launched(
                    ls[used - from],
                    halves_of(2 * c.x),
                    halves_of(2 * c.y),
                    c.player_id,
                );
                assert(views(balloons@) =~= flown.push(new));
                assert(from_bases(cs, t, ls, k + 1) == from_bases(cs, t, ls, k as int).push(new));
                assert(views(balloons@) =~= bs + from_bases(cs, t, ls, k + 1));
            }
            bases[k].last_emit_time = now;
            used = used + 1;
        }
        assert forall|c: int| 0 <= c < n && c != k implies #[trigger] bases@[c] == before[c] by {
        }
        k = k + 1;
    }
    assert(views(bases@) =~= bases_after(cs, t));
}

/// Launches the balloons that are due at `now`, with the ids and velocities in `launches`.
pub fn emit_balloons(game_state: &mut GameState, now: u64, launches: &Vec<Launch>)
    requires
        launches@.len() >= launches_due(old(game_state)@, now as int),
    ensures
        final(game_state)@ == emitted(old(game_state)@, now as int, views(launches@)),
{
    let ghost s = game_state@;
    proof {
        lemma_tally_grows(
            |k: int| is_due(now as int, s.bases[k].last_emit_time),
            0,
            s.bases.len() as int,
        );
    }
    let used = emit_from_emitters(
        &mut game_state.balloons,
        &mut game_state.emitters,
        now,
        launches,
    );
    emit_from_bases(&mut game_state.balloons, &mut game_state.bases, now, launches, used);
    assert(game_state@ =~= emitted(s, now as int, views(launches@)));
}

} // verus!
