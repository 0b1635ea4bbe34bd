//! Who is in a room, who hosts it, and in which colors.

use crate::collision::balloons::bounced;
use crate::collision::bases::felled;
use crate::collision::emitters::past_emitters;
use crate::collision::collided;
use crate::lobby::{
    corner, departed, is_taken, joined, may_start, next_colors, palette, started, winning_color,
    BASE_SIZE,
};
use crate::measure::MeasurementsView;
use crate::seqs::{
    first_where, lemma_filter_agree, lemma_filter_all, lemma_filter_has, lemma_first_where,
};
use crate::state::{fresh_state, GameStateView, PlayerView, CANVAS_HEIGHT, CANVAS_WIDTH};
use vstd::prelude::*;

verus! {

/// A player of that id is in the list.
pub open spec fn lists(players: Seq<PlayerView>, id: Seq<char>) -> bool {
    exists|i: int| 0 <= i < players.len() && (#[trigger] players[i]).id == id
}

/// The host is one of the players, and only an empty room has none.
pub open spec fn is_hosted(s: GameStateView) -> bool {
    match s.host_id {
        Some(h) => lists(s.players, h),
        None => s.players.len() == 0,
    }
}

/// Who joins a room without a host is its host; a room that has a host keeps it.
pub proof fn law_first_comer_hosts(s: GameStateView, id: Seq<char>, now: int)
    ensures
        s.host_id is None ==> joined(s, id, now).host_id == Some(id),
        s.host_id is Some ==> joined(s, id, now).host_id == s.host_id,
{
}

/// A fresh room counts as hosted: nobody is in it.
pub proof fn law_fresh_room_is_hosted(now: int)
    ensures
        is_hosted(fresh_state(now)),
{
}

/// Joining keeps a room hosted.
pub proof fn law_joining_keeps_hosted(s: GameStateView, id: Seq<char>, now: int)
    requires
        is_hosted(s),
    ensures
        is_hosted(joined(s, id, now)),
{
    let t = joined(s, id, now);
    match s.host_id {
        Some(h) => {
            let i = choose|i: int| 0 <= i < s.players.len() && (#[trigger] s.players[i]).id == h;
            assert(t.players[i].id == h);
        },
        None => {
            assert(t.players[0].id == id);
        },
    }
}

/// Leaving keeps a room hosted: when the host leaves, the first player left takes over.
pub proof fn law_leaving_keeps_hosted(s: GameStateView, id: Seq<char>)
    requires
        is_hosted(s),
    ensures
        is_hosted(departed(s, id)),
        s.host_id == Some(id) && departed(s, id).players.len() > 0 ==> departed(s, id).host_id
            == Some(departed(s, id).players[0].id),
        s.host_id != Some(id) ==> departed(s, id).host_id == s.host_id,
{
    let p = |p: PlayerView| p.id != id;
    let t = departed(s, id);
    if s.host_id == Some(id) {
        if t.players.len() > 0 {
            assert(t.players[0].id == t.host_id->0);
        }
    } else {
        match s.host_id {
            Some(h) => {
                let i = choose|i: int|
                    0 <= i < s.players.len() && (#[trigger] s.players[i]).id == h;
                let a = s.players[i];
                assert(s.players.contains(a));
                lemma_filter_has(s.players, p, a);
                let j = choose|j: int| 0 <= j < t.players.len() && t.players[j] == a;
                assert(t.players[j].id == h);
            },
            None => {
                broadcast use Seq::lemma_filter_len;

            },
        }
    }
}

/// Who has left is not in the list any more; everybody else still is, and nobody is new.
pub proof fn law_leaver_is_gone(s: GameStateView, id: Seq<char>, a: PlayerView)
    ensures
        !lists(departed(s, id).players, id),
        departed(s, id).players.contains(a) == (s.players.contains(a) && a.id != id),
{
    let p = |p: PlayerView| p.id != id;
    lemma_filter_has(s.players, p, a);
    let t = departed(s, id);
    assert forall|i: int| 0 <= i < t.players.len() implies (#[trigger] t.players[i]).id != id by {
        lemma_filter_has(s.players, p, t.players[i]);
        assert(t.players.contains(t.players[i]));
    }
}

/// Leaving at once undoes joining, but for the base, which stays on the canvas.
pub proof fn law_leaving_undoes_joining(s: GameStateView, id: Seq<char>, now: int)
    requires
        is_hosted(s),
        !lists(s.players, id),
    ensures
        departed(joined(s, id, now), id) == (GameStateView {
            bases: joined(s, id, now).bases,
            ..s
        }),
{
    let p = |p: PlayerView| p.id != id;
    let t = joined(s, id, now);
    let u = departed(t, id);
    reveal(Seq::filter);
    assert(t.players.drop_last() =~= s.players);
    assert forall|i: int| 0 <= i < s.players.len() implies p(#[trigger] s.players[i]) by {}
    lemma_filter_all(s.players, p);
    assert(u.players =~= s.players);
    assert(u =~= GameStateView { bases: t.bases, ..s });
}

/// Nobody but the host starts the game, and it starts once: after that, to ask for a start changes
/// nothing.
pub proof fn law_host_starts_once(s: GameStateView, id: Seq<char>, other: Seq<char>)
    ensures
        s.host_id != Some(id) ==> started(s, id) == s && !may_start(s, id),
        s.host_id == Some(id) ==> started(s, id).game_started,
        s.game_started ==> started(s, id) == s && !may_start(s, id),
        started(started(s, id), id) == started(s, id),
        s.host_id == Some(id) ==> !may_start(started(s, id), other),
{
}

/// No two players have the same color.
pub open spec fn all_differ(players: Seq<PlayerView>) -> bool {
    forall|i: int, j: int|
        0 <= i < j < players.len() ==> (#[trigger] players[i]).color != (
        #[trigger] players[j]).color
}

/// The colors of the palette are five different ones.
proof fn lemma_palette_differs()
    ensures
        palette().len() == 5,
        forall|i: int, j: int|
            0 <= i < j < 5 ==> (#[trigger] palette()[i]).0 != (#[trigger] palette()[j]).0,
{
    reveal_strlit("#8A2BE2");
    reveal_strlit("#32CD32");
    reveal_strlit("#FF0000");
    reveal_strlit("#FFA500");
    reveal_strlit("#0000FF");
    let p = palette();
    assert(p[0].0[1] == '8' && p[1].0[1] == '3' && p[2].0[1] == 'F' && p[3].0[1] == 'F'
        && p[4].0[1] == '0');
    assert(p[2].0[3] == '0' && p[3].0[3] == 'A');
}

/// As long as fewer than five are in the room, the next player gets a color of the palette that
/// nobody has.
pub proof fn law_new_color_is_free(s: GameStateView, id: Seq<char>, now: int)
    requires
        s.players.len() < 5,
    ensures
        !is_taken(s.players, joined(s, id, now).players.last().color),
        palette().contains(next_colors(s.players)),
        all_differ(s.players) ==> all_differ(joined(s, id, now).players),
{
    let ps = s.players;
    let free = |c: (Seq<char>, Seq<char>)| !is_taken(ps, c.0);
    lemma_palette_differs();
    lemma_first_where(palette(), free);
    if forall|k: int| 0 <= k < 5 ==> !free(#[trigger] palette()[k]) {
        assert(!free(palette()[0]) && !free(palette()[1]) && !free(palette()[2]) && !free(
            palette()[3],
        ) && !free(palette()[4]));
        let a = choose|i: int| 0 <= i < ps.len() && (#[trigger] ps[i]).color == palette()[0].0;
        let b = choose|i: int| 0 <= i < ps.len() && (#[trigger] ps[i]).color == palette()[1].0;
        let c = choose|i: int| 0 <= i < ps.len() && (#[trigger] ps[i]).color == palette()[2].0;
        let d = choose|i: int| 0 <= i < ps.len() && (#[trigger] ps[i]).color == palette()[3].0;
        let e = choose|i: int| 0 <= i < ps.len() && (#[trigger] ps[i]).color == palette()[4].0;
        assert(a != b && a != c && a != d && a != e && b != c && b != d && b != e && c != d && c
            != e && d != e);
        assert(false);
    }
    let t = joined(s, id, now).players;
    assert(t.last().color == next_colors(ps).0);
    assert forall|i: int, j: int| all_differ(ps) && 0 <= i < j < t.len() implies (
    #[trigger] t[i]).color != (#[trigger] t[j]).color by {
        assert(t[i] == ps[i]);
        if j < ps.len() {
            assert(t[j] == ps[j]);
        }
    }
}

proof fn lemma_filter_differs(players: Seq<PlayerView>, p: spec_fn(PlayerView) -> bool)
    requires
        all_differ(players),
    ensures
        all_differ(players.filter(p)),
    decreases players.len(),
{
    reveal(Seq::filter);
    if players.len() > 0 {
        let rest = players.drop_last();
        assert forall|i: int, j: int| 0 <= i < j < rest.len() implies (#[trigger] rest[i]).color
            != (#[trigger] rest[j]).color by {
            assert(rest[i] == players[i] && rest[j] == players[j]);
        }
        lemma_filter_differs(rest, p);
        let kept = rest.filter(p);
        if p(players.last()) {
            let t = kept.push(players.last());
            assert forall|i: int, j: int| 0 <= i < j < t.len() implies (#[trigger] t[i]).color
                != (#[trigger] t[j]).color by {
                assert(t[i] == kept[i]);
                if j < kept.len() {
                    assert(t[j] == kept[j]);
                } else {
                    assert(kept.contains(kept[i]));
                    lemma_filter_has(rest, p, kept[i]);
                    let k = choose|k: int| 0 <= k < rest.len() && rest[k] == kept[i];
                    assert(players[k] == kept[i]);
                    assert(players[players.len() - 1] == players.last());
                }
            }
        }
    }
}

/// Players of different colors still have different ones when some have left or have lost their
/// bases.
pub proof fn law_colors_stay_different(s: GameStateView, id: Seq<char>, m: MeasurementsView)
    requires
        all_differ(s.players),
    ensures
        all_differ(departed(s, id).players),
        all_differ(collided(s, m).players),
{
    lemma_filter_differs(s.players, |p: PlayerView| p.id != id);
    let b1 = bounced(s.balloons, m.between_balloons);
    let b2 = past_emitters(b1, s.emitters, m.to_emitters);
    let gone = felled(b2, s.bases, m.motions, b2.len() as int);
    lemma_filter_differs(s.players, |p: PlayerView| !gone.contains(p.id));
}

/// Four players who join one after another get the four corners, and every base lies whole on
/// the canvas.
pub proof fn law_corners(a: int, b: int)
    requires
        0 <= a < b < a + 4,
    ensures
        corner(a) != corner(b),
        BASE_SIZE <= 2 * corner(a).0 <= 2 * CANVAS_WIDTH - BASE_SIZE,
        BASE_SIZE <= 2 * corner(a).1 <= 2 * CANVAS_HEIGHT - BASE_SIZE,
{
}

// Who comes and who goes, in full.

/// Somebody in the list has that color.
pub open spec fn worn(players: Seq<PlayerView>, color: Seq<char>) -> bool {
    exists|i: int| 0 <= i < players.len() && color == (#[trigger] players[i]).color
}

/// Purple, green, red, orange, blue: who comes next gets the first of them that nobody has, with
/// the balloon color that goes with it, and red where all are worn.
pub proof fn law_colors_in_order(players: Seq<PlayerView>, k: int)
    ensures
        ({
            let names = seq!["#8A2BE2"@, "#32CD32"@, "#FF0000"@, "#FFA500"@, "#0000FF"@];
            let fills = seq!["#4B0082"@, "#006400"@, "#8B0000"@, "#FF8C00"@, "#00008B"@];
            &&& 0 <= k < 5 && !worn(players, names[k]) && (forall|j: int|
                0 <= j < k ==> worn(players, #[trigger] names[j])) ==> next_colors(players) == (
                names[k],
                fills[k],
            )
            &&& (forall|j: int| 0 <= j < 5 ==> worn(players, #[trigger] names[j]))
                ==> next_colors(players) == ("#FF0000"@, "#8B0000"@)
        }),
{
    let names = seq!["#8A2BE2"@, "#32CD32"@, "#FF0000"@, "#FFA500"@, "#0000FF"@];
    let free = |c: (Seq<char>, Seq<char>)| !is_taken(players, c.0);
    lemma_first_where(palette(), free);
    assert forall|c: Seq<char>| worn(players, c) == #[trigger] is_taken(players, c) by {
        if worn(players, c) {
            let i = choose|i: int| 0 <= i < players.len() && c == (#[trigger] players[i]).color;
            assert(players[i].color == c);
        }
        if is_taken(players, c) {
            let i = choose|i: int| 0 <= i < players.len() && (#[trigger] players[i]).color == c;
            assert(c == players[i].color);
        }
    }
    assert forall|j: int| 0 <= j < 5 implies names[j] == (#[trigger] palette()[j]).0 by {}
    assert forall|j: int| 0 <= j < 5 implies free(palette()[j]) == !worn(
        players,
        #[trigger] names[j],
    ) by {
        assert(is_taken(players, palette()[j].0) == worn(players, names[j]));
    }
    match first_where(palette(), free) {
        Some(i) => {
            assert(free(palette()[i]));
            assert(!worn(players, names[i]));
            if 0 <= k < 5 && k < i {
                assert(!free(palette()[k]));
                assert(worn(players, names[k]));
            }
        },
        None => {
            if 0 <= k < 5 {
                assert(!free(palette()[k]));
                assert(worn(players, names[k]));
            }
        },
    }
}

/// Who joins comes last in the list, in the next colors, and gets a base of fifty by fifty and a
/// hundred health in the next corner: bottom left, top right, top left, bottom right, and round
/// again. It launches from then on. Everybody and everything else in the room stays.
pub proof fn law_joining(s: GameStateView, id: Seq<char>, now: int)
    ensures
        joined(s, id, now).players == s.players.push(
            PlayerView {
                id,
                color: next_colors(s.players).0,
                balloon_color: next_colors(s.players).1,
            },
        ),
        joined(s, id, now).bases.len() == s.bases.len() + 1,
        forall|i: int|
            0 <= i < s.bases.len() ==> #[trigger] joined(s, id, now).bases[i] == s.bases[i],
        ({
            let c = joined(s, id, now).bases[s.bases.len() as int];
            let n = s.players.len() % 4;
            &&& c.player_id == id
            &&& c.health == 100
            &&& c.size == 50
            &&& c.last_emit_time == now
            &&& n == 0 ==> c.x == 25 && c.y == 575
            &&& n == 1 ==> c.x == 775 && c.y == 25
            &&& n == 2 ==> c.x == 25 && c.y == 25
            &&& n == 3 ==> c.x == 775 && c.y == 575
        }),
        s.host_id is None ==> joined(s, id, now).host_id == Some(id),
        s.host_id is Some ==> joined(s, id, now).host_id == s.host_id,
        joined(s, id, now).balloons == s.balloons,
        joined(s, id, now).grid == s.grid,
        joined(s, id, now).emitters == s.emitters,
        joined(s, id, now).last_update == s.last_update,
        joined(s, id, now).game_over == s.game_over,
        joined(s, id, now).winner_player_id == s.winner_player_id,
        joined(s, id, now).game_started == s.game_started,
{
}

/// Who leaves is taken out of the list, and the others stay in it in their order. Where that was
/// the host, the first player left follows, or nobody where none is left. What the player has on
/// the canvas stays, and so does everything else.
pub proof fn law_leaving(s: GameStateView, id: Seq<char>)
    ensures
        departed(s, id).players == s.players.filter(|p: PlayerView| !(p.id == id)),
        s.host_id != Some(id) ==> departed(s, id).host_id == s.host_id,
        s.host_id == Some(id) && departed(s, id).players.len() == 0 ==> departed(s, id).host_id
            is None,
        s.host_id == Some(id) && departed(s, id).players.len() > 0 ==> departed(s, id).host_id
            == Some(departed(s, id).players[0].id),
        departed(s, id).balloons == s.balloons,
        departed(s, id).grid == s.grid,
        departed(s, id).emitters == s.emitters,
        departed(s, id).bases == s.bases,
        departed(s, id).last_update == s.last_update,
        departed(s, id).game_over == s.game_over,
        departed(s, id).winner_player_id == s.winner_player_id,
        departed(s, id).game_started == s.game_started,
{
    lemma_filter_agree(
        s.players,
        |p: PlayerView| p.id != id,
        |p: PlayerView| !(p.id == id),
    );
}

/// The host of a game that has not started may start it, nobody else may, and a start changes
/// nothing but that.
pub proof fn law_starting(s: GameStateView, id: Seq<char>)
    ensures
        may_start(s, id) <==> s.host_id == Some(id) && !s.game_started,
        started(s, id).game_started <==> s.game_started || s.host_id == Some(id),
        started(s, id).players == s.players,
        started(s, id).balloons == s.balloons,
        started(s, id).grid == s.grid,
        started(s, id).emitters == s.emitters,
        started(s, id).bases == s.bases,
        started(s, id).last_update == s.last_update,
        started(s, id).game_over == s.game_over,
        started(s, id).winner_player_id == s.winner_player_id,
        started(s, id).host_id == s.host_id,
{
}

/// The winner is announced by the color that the player has in the list; a winner who is not in
/// it as unknown; and a game without a winner as a draw.
pub proof fn law_winner_by_color(s: GameStateView, k: int)
    ensures
        s.winner_player_id is None ==> winning_color(s) == "Draw"@,
        s.winner_player_id is Some && !lists(s.players, s.winner_player_id->0) ==> winning_color(s)
            == "Unknown"@,
        s.winner_player_id is Some && 0 <= k < s.players.len() && s.players[k].id
            == s.winner_player_id->0 && (forall|j: int|
            0 <= j < k ==> (#[trigger] s.players[j]).id != s.winner_player_id->0)
            ==> winning_color(s) == s.players[k].color,
{
    if s.winner_player_id is Some {
        let id = s.winner_player_id->0;
        let p = |p: PlayerView| p.id == id;
        lemma_first_where(s.players, p);
        match first_where(s.players, p) {
            Some(i) => {
                assert(p(s.players[i]));
                assert(s.players[i].id == id);
                if 0 <= k < i {
                    assert(!p(s.players[k]));
                }
            },
            None => {
                if 0 <= k < s.players.len() {
                    assert(!p(s.players[k]));
                }
            },
        }
    }
}

} // verus!
