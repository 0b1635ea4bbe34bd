//! Taking away what collisions have destroyed.

use super::bases::{razed, without_base};
use crate::seqs::{
    first_where, has_string, lemma_filter_agree, lemma_filter_all, lemma_filter_twice,
    lemma_first_where, lemma_sift_ends, lemma_sift_step, views,
};
use crate::state::{Balloon, BalloonView, Base, BaseView, Emitter, EmitterView, Player, PlayerView};
use vstd::prelude::*;

verus! {

/// Takes away the balloons that have no health left.
pub(crate) fn keep_alive(balloons: &mut Vec<Balloon>)
    ensures
        views(final(balloons)@) == views(old(balloons)@).filter(|b: BalloonView| b.health > 0),
{
    let ghost o = views(balloons@);
    let ghost p = |b: BalloonView| b.health > 0;
    let ghost mut t: int = 0;
    proof {
        lemma_sift_ends(o, p);
    }
    let mut i: usize = 0;
    while i < balloons.len()
        invariant
            0 <= t <= o.len(),
            p == (|b: BalloonView| b.health > 0),
            i == o.take(t).filter(p).len(),
            views(balloons@) == o.take(t).filter(p) + o.skip(t),
        decreases o.len() - t,
    {
        let ghost before = views(balloons@);
        proof {
            lemma_sift_step(o, p, t, before);
            assert(before[i as int] == balloons@[i as int]@);
        }
        if balloons[i].health > 0 {
            i = i + 1;
        } else {
            balloons.remove(i);
            assert(views(balloons@) =~= before.remove(i as int));
        }
        proof {
            t = t + 1;
        }
    }
    proof {
        assert(views(balloons@).len() == i + (o.len() - t));
        assert(t == o.len());
        lemma_sift_ends(o, p);
    }
}

/// Takes away the emitters of those ids.
pub(crate) fn drop_emitters(emitters: &mut Vec<Emitter>, gone: &Vec<String>)
    ensures
        views(final(emitters)@) == views(old(emitters)@).filter(
            |e: EmitterView| !views(gone@).contains(e.id),
        ),
{
    let ghost o = views(emitters@);
    let ghost p = |e: EmitterView| !views(gone@).contains(e.id);
    let ghost mut t: int = 0;
    proof {
        lemma_sift_ends(o, p);
    }
    let mut i: usize = 0;
    while i < emitters.len()
        invariant
            0 <= t <= o.len(),
            p == (|e: EmitterView| !views(gone@).contains(e.id)),
            i == o.take(t).filter(p).len(),
            views(emitters@) == o.take(t).filter(p) + o.skip(t),
        decreases o.len() - t,
    {
        let ghost before = views(emitters@);
        proof {
            lemma_sift_step(o, p, t, before);
            assert(before[i as int] == emitters@[i as int]@);
        }
        if has_string(gone, &emitters[i].id) {
            emitters.remove(i);
            assert(views(emitters@) =~= before.remove(i as int));
        } else {
            i = i + 1;
        }
        proof {
            t = t + 1;
        }
    }
    proof {
        assert(views(emitters@).len() == i + (o.len() - t));
        assert(t == o.len());
        lemma_sift_ends(o, p);
    }
}

/// Takes the players of that id out of the list.
pub(crate) fn drop_players(players: &mut Vec<Player>, id: &String)
    ensures
        views(final(players)@) == views(old(players)@).filter(|p: PlayerView| p.id != id@),
{
    let ghost o = views(players@);
    let ghost p = |p: PlayerView| p.id != id@;
    let ghost mut t: int = 0;
    proof {
        lemma_sift_ends(o, p);
    }
    let mut i: usize = 0;
    while i < players.len()
        invariant
            0 <= t <= o.len(),
            p == (|p: PlayerView| p.id != id@),
            i == o.take(t).filter(p).len(),
            views(players@) == o.take(t).filter(p) + o.skip(t),
        decreases o.len() - t,
    {
        let ghost before = views(players@);
        proof {
            lemma_sift_step(o, p, t, before);
            assert(before[i as int] == players@[i as int]@);
        }
        if players[i].id == *id {
            players.remove(i);
            assert(views(players@) =~= before.remove(i as int));
        } else {
            i = i + 1;
        }
        proof {
            t = t + 1;
        }
    }
    proof {
        assert(views(players@).len() == i + (o.len() - t));
        assert(t == o.len());
        lemma_sift_ends(o, p);
    }
}

/// Takes away the first base of that player.
fn drop_base(bases: &mut Vec<Base>, id: &String)
    ensures
        views(final(bases)@) == without_base(views(old(bases)@), id@),
{
    let ghost o = views(bases@);
    let ghost p = |c: BaseView| c.player_id == id@;
    proof {
        lemma_first_where(o, p);
    }
    let mut k: usize = 0;
    while k < bases.len()
        invariant
            k <= bases@.len(),
            o == views(bases@),
            bases@ == old(bases)@,
            p == (|c: BaseView| c.player_id == id@),
            forall|j: int| 0 <= j < k ==> !p(o[j]),
        decreases bases@.len() - k,
    {
        assert(o[k as int] == bases@[k as int]@);
        if bases[k].player_id == *id {
            proof {
                lemma_first_where(o, p);
                assert(p(o[k as int]));
                assert(first_where(o, p) == Some(k as int));
            }
            bases.remove(k);
            assert(views(bases@) =~= o.remove(k as int));
            return;
        }
        k = k + 1;
    }
    assert(first_where(o, p) == None::<int>);
}

/// Takes away a base, and the player, for each id listed.
pub(crate) fn raze_bases(players: &mut Vec<Player>, bases: &mut Vec<Base>, gone: &Vec<String>)
    ensures
        views(final(bases)@) == razed(views(old(bases)@), views(gone@)),
        views(final(players)@) == views(old(players)@).filter(
            |p: PlayerView| !views(gone@).contains(p.id),
        ),
{
    let ghost cs = views(bases@);
    let ghost ps = views(players@);
    let ghost ids = views(gone@);
    proof {
        assert(ids.take(0) =~= Seq::<Seq<char>>::empty());
        let all = |p: PlayerView| !ids.take(0).contains(p.id);
        lemma_filter_all(ps, all);
    }
    let mut x: usize = 0;
    while x < gone.len()
        invariant
            x <= gone@.len(),
            ids == views(gone@),
            views(bases@) == razed(cs, ids.take(x as int)),
            views(players@) == ps.filter(|p: PlayerView| !ids.take(x as int).contains(p.id)),
        decreases gone@.len() - x,
    {
        drop_base(bases, &gone[x]);
        drop_players(players, &gone[x]);
        proof {
            let id = ids[x as int];
            let next = ids.take(x + 1);
            assert(next.drop_last() =~= ids.take(x as int));
            assert(next.last() == id);
            let p = |p: PlayerView| !ids.take(x as int).contains(p.id);
            let q = |p: PlayerView| p.id != id;
            lemma_filter_twice(ps, p, q);
            assert forall|i: int| 0 <= i < ps.len() implies (!next.contains(#[trigger] ps[i].id))
                == (p(ps[i]) && q(ps[i])) by {
                let a = ps[i].id;
                assert(next =~= ids.take(x as int).push(id));
                if ids.take(x as int).contains(a) {
                    let y = choose|y: int| 0 <= y < x && ids.take(x as int)[y] == a;
                    assert(next[y] == a);
                }
                assert(next[x as int] == id);
                if next.contains(a) {
                    let y = choose|y: int| 0 <= y < next.len() && next[y] == a;
                    if y < x {
                        assert(ids.take(x as int)[y] == a);
                    }
                }
            }
            lemma_filter_agree(
                ps,
                |a: PlayerView| p(a) && q(a),
                |p: PlayerView| !next.contains(p.id),
            );
        }
        x = x + 1;
    }
    assert(ids.take(gone@.len() as int) =~= ids);
}

} // verus!
