use balloons::lobby::join;
use balloons::measure::{Extent, Measurements, Motion};
use balloons::single::Single;
use balloons::state::{init_game_state, Balloon, Emitter, GameState};
use balloons::update::launches::{elapsed, emit_balloons, Launch, Velocity};
use balloons::update::{advance_game_state, ready, update_game_state};
use std::time::Duration;

fn s(v: f32) -> Single {
    Single { bits: v.to_bits() }
}

fn f(v: Single) -> f32 {
    f32::from_bits(v.bits)
}

/// Measures a room with each balloon moved on by its velocity times `dt`.
fn measure(room: &GameState, dt: f32) -> Measurements {
    let at: Vec<(f32, f32, f32)> = room
        .balloons
        .iter()
        .map(|b| (f(b.x) + f(b.vx) * dt, f(b.y) + f(b.vy) * dt, b.radius as f32))
        .collect();
    let distance = |a: &(f32, f32, f32), x: f32, y: f32| {
        let dx = a.0 - x;
        let dy = a.1 - y;
        s((dx * dx + dy * dy).sqrt())
    };
    Measurements {
        motions: at
            .iter()
            .map(|&(x, y, r)| Motion {
                x: s(x),
                y: s(y),
                extent: Extent { left: s(x - r), right: s(x + r), top: s(y - r), bottom: s(y + r) },
            })
            .collect(),
        between_balloons: at
            .iter()
            .map(|a| at.iter().map(|b| distance(a, b.0, b.1)).collect())
            .collect(),
        to_emitters: at
            .iter()
            .map(|a| room.emitters.iter().map(|e| distance(a, f(e.x), f(e.y))).collect())
            .collect(),
    }
}

fn velocities(n: usize) -> Vec<Velocity> {
    (0..n).map(|k| Velocity { vx: s(100.0 + k as f32), vy: s(-(k as f32)) }).collect()
}

fn started_room(ids: &[&str], now: u64) -> GameState {
    let mut room = init_game_state(now);
    for id in ids {
        join(&mut room, &id.to_string(), now);
    }
    room.game_started = true;
    room
}

fn emitter(id: &str, x: f32, y: f32, player: &str, last: u64) -> Emitter {
    Emitter {
        id: id.to_string(),
        x: s(x),
        y: s(y),
        player_id: player.to_string(),
        last_emit_time: last,
        health: 3,
    }
}

fn update(room: &mut GameState, now: u64) {
    let dt = Duration::from_nanos(elapsed(now, room.last_update)).as_secs_f32();
    let m = measure(room, dt);
    let v = velocities(room.emitters.len() + room.bases.len());
    assert!(ready(room, &m, &v));
    update_game_state(room, now, &m, &v);
}

#[test]
fn nothing_moves_before_the_start() {
    let mut room = started_room(&["a", "b"], 0);
    room.game_started = false;
    update(&mut room, 9_000_000_000);
    assert!(room.balloons.is_empty());
    assert_eq!(room.last_update, 0);
    assert_eq!(room.bases[0].last_emit_time, 0);
}

#[test]
fn bases_launch_after_two_seconds_of_single_precision() {
    for nanos in [
        0u64,
        1_999_999_999,
        2_000_000_000,
        2_000_000_001,
        2_000_000_118,
        2_000_000_119,
        2_000_000_120,
        2_000_000_121,
        2_000_000_238,
        2_000_000_239,
        2_000_001_000,
        2_500_000_000,
        2_999_999_999,
        3_000_000_000,
        60_000_000_000,
        1 << 60,
    ] {
        let due = Duration::from_nanos(nanos).as_secs_f32() > 2.0;
        let mut room = started_room(&["a", "b"], 500);
        update(&mut room, 500 + nanos);
        assert_eq!(room.balloons.len(), if due { 2 } else { 0 }, "{}", nanos);
        let noted = if due { 500 + nanos } else { 500 };
        assert_eq!(room.bases[1].last_emit_time, noted);
    }
}

#[test]
fn the_interval_is_exact_to_the_nanosecond() {
    for nanos in 1_999_999_000..2_000_001_000u64 {
        let due = Duration::from_nanos(nanos).as_secs_f32() > 2.0;
        assert_eq!(due, nanos > balloons::update::launches::EMIT_INTERVAL, "{}", nanos);
    }
}

#[test]
fn time_that_runs_backwards_counts_as_none() {
    assert_eq!(elapsed(5, 7), 0);
    assert_eq!(elapsed(7, 5), 2);
    let mut room = started_room(&["a", "b"], 5_000_000_000);
    update(&mut room, 1_000);
    assert!(room.balloons.is_empty());
    assert_eq!(room.last_update, 1_000);
}

#[test]
fn emitters_launch_before_bases() {
    let mut room = started_room(&["a", "b"], 0);
    room.emitters.push(emitter("e", 300.0, 315.0, "b", 0));
    room.emitters.push(emitter("late", 500.0, 315.0, "b", 2_000_000_000));
    room.bases[0].last_emit_time = 2_000_000_000;
    update(&mut room, 3_000_000_000);
    let new: Vec<(f32, f32, &str, f32, f32)> = room
        .balloons
        .iter()
        .map(|b| (f(b.x), f(b.y), b.player_id.as_str(), f(b.vx), f(b.vy)))
        .collect();
    assert_eq!(new, vec![(300.0, 315.0, "b", 100.0, 0.0), (775.0, 25.0, "b", 101.0, -1.0)]);
    for b in &room.balloons {
        assert_eq!((b.radius, b.health), (10, 3));
        assert_eq!(b.id.len(), 36);
        assert_eq!(b.id.as_bytes()[14], b'4');
    }
    assert_ne!(room.balloons[0].id, room.balloons[1].id);
    assert_eq!(room.emitters[0].last_emit_time, 3_000_000_000);
    assert_eq!(room.emitters[1].last_emit_time, 2_000_000_000);
    assert_eq!(room.bases[0].last_emit_time, 2_000_000_000);
    assert_eq!(room.bases[1].last_emit_time, 3_000_000_000);
    update(&mut room, 3_000_000_000);
    assert_eq!(room.balloons.len(), 2);
}

#[test]
fn launches_take_ids_and_velocities_in_turn() {
    let mut room = started_room(&["a", "b", "c"], 0);
    room.bases[1].last_emit_time = 8_000_000_000;
    let launches = vec![
        Launch { id: "one".to_string(), vx: s(1.0), vy: s(2.0) },
        Launch { id: "two".to_string(), vx: s(3.0), vy: s(4.0) },
    ];
    emit_balloons(&mut room, 9_000_000_000, &launches);
    let new: Vec<(&str, f32, f32, f32, f32, &str)> = room
        .balloons
        .iter()
        .map(|b| (b.id.as_str(), f(b.x), f(b.y), f(b.vx), f(b.vy), b.player_id.as_str()))
        .collect();
    assert_eq!(
        new,
        vec![("one", 25.0, 575.0, 1.0, 2.0, "a"), ("two", 25.0, 25.0, 3.0, 4.0, "c")]
    );
}

#[test]
fn a_step_moves_claims_and_collides() {
    let mut room = started_room(&["a", "b"], 0);
    room.balloons.push(Balloon {
        id: "1".to_string(),
        x: s(100.0),
        y: s(100.0),
        vx: s(50.0),
        vy: s(20.0),
        radius: 10,
        health: 3,
        player_id: "a".to_string(),
    });
    let m = measure(&room, 0.5);
    advance_game_state(&mut room, 77, &m);
    assert_eq!(room.last_update, 77);
    let b = &room.balloons[0];
    assert_eq!((f(b.x), f(b.y), b.health), (125.0, 110.0, 3));
    let owned: Vec<usize> =
        (0..400).filter(|&k| room.grid[k].owner.as_deref() == Some("a")).collect();
    assert_eq!(owned, vec![3 * 20 + 3]);
}

#[test]
fn a_game_plays_to_its_end() {
    let mut room = started_room(&["a", "b"], 0);
    room.bases[1].health = 2;
    for k in 0..2 {
        room.balloons.push(Balloon {
            id: k.to_string(),
            x: s(700.0),
            y: s(25.0),
            vx: s(100.0),
            vy: s(0.0),
            radius: 10,
            health: 3,
            player_id: "a".to_string(),
        });
    }
    let mut now = 0;
    let mut steps = 0;
    while !room.game_over {
        now += 16_000_000;
        steps += 1;
        update(&mut room, now);
        assert!(steps < 100);
    }
    assert_eq!(room.winner_player_id.as_deref(), Some("a"));
    assert_eq!(room.players.len(), 1);
    assert!(room.game_started);
}

#[test]
fn a_step_needs_measurements_of_everything() {
    let mut room = started_room(&["a", "b"], 0);
    room.emitters.push(emitter("e", 300.0, 315.0, "b", 0));
    room.balloons.push(Balloon {
        id: "1".to_string(),
        x: s(100.0),
        y: s(100.0),
        vx: s(50.0),
        vy: s(20.0),
        radius: 10,
        health: 3,
        player_id: "a".to_string(),
    });
    let v = velocities(3);
    assert!(ready(&room, &measure(&room, 0.0), &v));
    assert!(!ready(&room, &measure(&room, 0.0), &velocities(2)));
    let mut m = measure(&room, 0.0);
    m.motions.clear();
    assert!(!ready(&room, &m, &v));
    let mut m = measure(&room, 0.0);
    m.between_balloons[0].clear();
    assert!(!ready(&room, &m, &v));
    let mut m = measure(&room, 0.0);
    m.to_emitters[0].clear();
    assert!(!ready(&room, &m, &v));
    let m = measure(&room, 0.0);
    room.balloons[0].health = 0;
    assert!(!ready(&room, &m, &v));
    room.balloons[0].health = 1;
    room.emitters[0].health = 0;
    assert!(!ready(&room, &m, &v));
    room.emitters[0].health = 1;
    room.bases[0].health = -1;
    assert!(!ready(&room, &m, &v));
}
