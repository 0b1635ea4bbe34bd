use balloons::collision::handle_collisions;
use balloons::lobby::join;
use balloons::measure::{Extent, Measurements, Motion};
use balloons::single::Single;
use balloons::state::{init_game_state, Balloon, Emitter, GameState};

fn s(v: f32) -> Single {
    Single { bits: v.to_bits() }
}

fn f(v: Single) -> f32 {
    f32::from_bits(v.bits)
}

fn distance(x1: f32, y1: f32, x2: f32, y2: f32) -> f32 {
    let dx = x1 - x2;
    let dy = y1 - y2;
    (dx * dx + dy * dy).sqrt()
}

/// Measures a room with its balloons where they are.
fn measure(room: &GameState) -> Measurements {
    let at: Vec<(f32, f32, f32)> =
        room.balloons.iter().map(|b| (f(b.x), f(b.y), b.radius as f32)).collect();
    Measurements {
        motions: at
            .iter()
            .map(|&(x, y, r)| Motion {
                x: s(x),
                y: s(y),
                extent: Extent { left: s(x - r), right: s(x + r), top: s(y - r), bottom: s(y + r) },
            })
            .collect(),
        between_balloons: at
            .iter()
            .map(|a| at.iter().map(|b| s(distance(a.0, a.1, b.0, b.1))).collect())
            .collect(),
        to_emitters: at
            .iter()
            .map(|a| {
                room.emitters.iter().map(|e| s(distance(a.0, a.1, f(e.x), f(e.y)))).collect()
            })
            .collect(),
    }
}

fn balloon(id: &str, x: f32, y: f32, v: (f32, f32), health: i32, player: &str) -> Balloon {
    Balloon {
        id: id.to_string(),
        x: s(x),
        y: s(y),
        vx: s(v.0),
        vy: s(v.1),
        radius: 10,
        health,
        player_id: player.to_string(),
    }
}

fn emitter(id: &str, x: f32, y: f32, health: i32, player: &str) -> Emitter {
    Emitter {
        id: id.to_string(),
        x: s(x),
        y: s(y),
        player_id: player.to_string(),
        last_emit_time: 0,
        health,
    }
}

fn room_of(ids: &[&str]) -> GameState {
    let mut room = init_game_state(0);
    for id in ids {
        join(&mut room, &id.to_string(), 0);
    }
    room.game_started = true;
    room
}

fn collide(room: &mut GameState) {
    let m = measure(room);
    handle_collisions(room, &m);
}

#[test]
fn balloons_of_two_players_bounce() {
    let mut room = room_of(&["a", "b"]);
    room.balloons.push(balloon("1", 300.0, 300.0, (1.0, 2.0), 3, "a"));
    room.balloons.push(balloon("2", 315.0, 300.0, (3.0, 4.0), 2, "b"));
    room.balloons.push(balloon("3", 500.0, 300.0, (5.0, 6.0), 3, "b"));
    collide(&mut room);
    let v: Vec<(f32, f32, i32)> =
        room.balloons.iter().map(|b| (f(b.vx), f(b.vy), b.health)).collect();
    assert_eq!(v, vec![(3.0, 4.0, 2), (1.0, 2.0, 1), (5.0, 6.0, 3)]);
    assert_eq!(f(room.balloons[0].x), 300.0);
    assert!(!room.game_over);
}

#[test]
fn velocities_are_exchanged_pair_after_pair() {
    let mut room = room_of(&["a", "b", "c"]);
    room.balloons.push(balloon("1", 300.0, 300.0, (1.0, 0.0), 3, "a"));
    room.balloons.push(balloon("2", 305.0, 300.0, (2.0, 0.0), 3, "b"));
    room.balloons.push(balloon("3", 310.0, 300.0, (3.0, 0.0), 3, "c"));
    collide(&mut room);
    let v: Vec<(f32, i32)> = room.balloons.iter().map(|b| (f(b.vx), b.health)).collect();
    assert_eq!(v, vec![(3.0, 1), (2.0, 1), (1.0, 1)]);
}

#[test]
fn nothing_harms_what_belongs_to_the_same_player() {
    let mut room = room_of(&["a", "b"]);
    room.balloons.push(balloon("1", 25.0, 575.0, (1.0, 2.0), 3, "a"));
    room.balloons.push(balloon("2", 26.0, 575.0, (3.0, 4.0), 3, "a"));
    room.emitters.push(emitter("e", 25.0, 575.0, 3, "a"));
    collide(&mut room);
    assert_eq!(room.balloons.iter().map(|b| b.health).collect::<Vec<_>>(), vec![3, 3]);
    assert_eq!(f(room.balloons[0].vx), 1.0);
    assert_eq!(room.emitters[0].health, 3);
    assert_eq!(room.bases[0].health, 100);
}

#[test]
fn dead_balloons_are_removed() {
    let mut room = room_of(&["a", "b"]);
    room.balloons.push(balloon("1", 300.0, 300.0, (1.0, 2.0), 1, "a"));
    room.balloons.push(balloon("2", 315.0, 300.0, (3.0, 4.0), 2, "b"));
    collide(&mut room);
    assert_eq!(room.balloons.len(), 1);
    assert_eq!(room.balloons[0].id, "2");
}

#[test]
fn emitters_wear_down_with_the_balloons() {
    let mut room = room_of(&["a", "b"]);
    room.balloons.push(balloon("1", 300.0, 300.0, (1.0, 2.0), 3, "a"));
    room.balloons.push(balloon("2", 324.0, 300.0, (1.0, 2.0), 3, "a"));
    room.emitters.push(emitter("x", 300.0, 310.0, 3, "b"));
    room.emitters.push(emitter("y", 300.0, 300.0, 2, "b"));
    room.emitters.push(emitter("z", 600.0, 300.0, 1, "b"));
    collide(&mut room);
    let left: Vec<(&str, i32)> =
        room.emitters.iter().map(|e| (e.id.as_str(), e.health)).collect();
    // The second balloon reaches the one at (300, 300) too, but not the one below it.
    assert_eq!(left, vec![("x", 2), ("z", 1)]);
    assert_eq!(room.balloons.iter().map(|b| b.health).collect::<Vec<_>>(), vec![1, 2]);
}

#[test]
fn emitters_of_one_id_fall_together() {
    let mut room = room_of(&["a", "b"]);
    room.balloons.push(balloon("1", 300.0, 300.0, (1.0, 2.0), 3, "a"));
    room.emitters.push(emitter("x", 600.0, 300.0, 3, "b"));
    room.emitters.push(emitter("x", 300.0, 300.0, 1, "b"));
    collide(&mut room);
    assert!(room.emitters.is_empty());
}

#[test]
fn the_last_base_wins() {
    let mut room = room_of(&["a", "b"]);
    room.bases[0].health = 1;
    room.balloons.push(balloon("1", 25.0, 575.0, (1.0, 2.0), 3, "b"));
    collide(&mut room);
    assert!(room.game_over);
    assert_eq!(room.winner_player_id.as_deref(), Some("b"));
    assert_eq!(room.players.len(), 1);
    assert_eq!(room.bases.len(), 1);
    assert_eq!(room.bases[0].player_id, "b");
    assert_eq!(room.host_id.as_deref(), Some("a"));
    assert_eq!(room.balloons[0].health, 2);
}

#[test]
fn no_base_left_is_a_draw() {
    let mut room = room_of(&["a", "b"]);
    room.bases[0].health = 1;
    room.bases[1].health = 1;
    room.balloons.push(balloon("1", 25.0, 575.0, (1.0, 2.0), 3, "b"));
    room.balloons.push(balloon("2", 775.0, 25.0, (1.0, 2.0), 3, "a"));
    collide(&mut room);
    assert!(room.game_over);
    assert_eq!(room.winner_player_id, None);
    assert!(room.players.is_empty() && room.bases.is_empty());
}

#[test]
fn a_base_felled_by_many_blows_is_removed_once() {
    let mut room = room_of(&["a", "b", "c"]);
    room.bases[0].health = 1;
    for k in 0..4 {
        room.balloons.push(balloon(&k.to_string(), 25.0, 575.0, (1.0, 2.0), 3, "b"));
    }
    collide(&mut room);
    assert_eq!(room.bases.len(), 2);
    assert!(!room.game_over);
    assert_eq!(room.players.iter().map(|p| p.id.as_str()).collect::<Vec<_>>(), vec!["b", "c"]);
}

#[test]
fn every_blow_to_a_fallen_base_takes_one_of_the_player() {
    let mut room = room_of(&["a", "b", "a", "c"]);
    room.bases[2].health = 1;
    room.balloons.push(balloon("1", 25.0, 25.0, (1.0, 2.0), 3, "b"));
    collide(&mut room);
    // The first base of the player goes, though it is the other one that has fallen.
    let left: Vec<(&str, i32)> =
        room.bases.iter().map(|b| (b.player_id.as_str(), b.health)).collect();
    assert_eq!(left, vec![("b", 100), ("a", 0), ("c", 100)]);
    assert!(room.players.iter().all(|p| p.id != "a"));
}

#[test]
fn a_single_base_ends_the_game_at_once() {
    let mut room = room_of(&["a"]);
    collide(&mut room);
    assert!(room.game_over);
    assert_eq!(room.winner_player_id.as_deref(), Some("a"));
}

#[test]
fn health_may_run_down_to_the_least() {
    let mut room = room_of(&["a", "b"]);
    room.balloons.push(balloon("1", 300.0, 300.0, (1.0, 2.0), i32::MIN + 1, "a"));
    room.balloons.push(balloon("2", 315.0, 300.0, (3.0, 4.0), 2, "b"));
    collide(&mut room);
    assert_eq!(room.balloons.len(), 1);
}

// The same battle in plain single precision.

#[derive(Clone, Debug, PartialEq)]
struct Ball {
    id: String,
    x: f32,
    y: f32,
    vx: f32,
    vy: f32,
    radius: f32,
    health: i32,
    player: String,
}

#[derive(Clone, Debug, PartialEq)]
struct Source {
    id: String,
    x: f32,
    y: f32,
    health: i32,
    player: String,
}

fn plain_battle(
    balls: &mut Vec<Ball>,
    emitters: &mut Vec<Source>,
    bases: &mut Vec<Source>,
    players: &mut Vec<String>,
) {
    let mut emitters_gone: Vec<String> = Vec::new();
    let mut bases_gone: Vec<String> = Vec::new();
    for i in 0..balls.len() {
        for j in (i + 1)..balls.len() {
            let (left, right) = balls.split_at_mut(j);
            let (a, b) = (&mut left[i], &mut right[0]);
            if a.player != b.player && distance(a.x, a.y, b.x, b.y) < a.radius + b.radius {
                a.health -= 1;
                b.health -= 1;
                std::mem::swap(&mut a.vx, &mut b.vx);
                std::mem::swap(&mut a.vy, &mut b.vy);
            }
        }
    }
    for a in balls.iter_mut() {
        for e in emitters.iter_mut() {
            if a.player != e.player && distance(a.x, a.y, e.x, e.y) < a.radius + 15.0 {
                a.health -= 1;
                e.health -= 1;
                if e.health <= 0 {
                    emitters_gone.push(e.id.clone());
                }
            }
        }
    }
    for a in balls.iter_mut() {
        for c in bases.iter_mut() {
            let half = 50.0f32 / 2.0;
            if a.player != c.player
                && a.x + a.radius > c.x - half
                && a.x - a.radius < c.x + half
                && a.y + a.radius > c.y - half
                && a.y - a.radius < c.y + half
            {
                a.health -= 1;
                c.health -= 1;
                if c.health <= 0 {
                    bases_gone.push(c.player.clone());
                }
            }
        }
    }
    balls.retain(|a| a.health > 0);
    emitters.retain(|e| !emitters_gone.contains(&e.id));
    for id in bases_gone {
        if let Some(k) = bases.iter().position(|c| c.player == id) {
            bases.remove(k);
        }
        players.retain(|p| *p != id);
    }
}

#[test]
fn battles_come_out_as_in_plain_single_precision() {
    let mut seed: u32 = 2024;
    let mut next = |n: u32| {
        seed = seed.wrapping_mul(1664525).wrapping_add(1013904223);
        (seed >> 8) % n
    };
    for round in 0..60 {
        let names = ["a", "b", "c", "d"];
        let mut room = room_of(&names);
        for b in room.bases.iter_mut() {
            b.health = 1 + next(6) as i32;
        }
        for k in 0..(5 + round % 25) {
            let x = next(80_000) as f32 / 100.0;
            let y = next(60_000) as f32 / 100.0;
            let (x, y) = match next(3) {
                0 => (x / 10.0, y / 10.0),
                1 => (700.0 + x / 8.0, y / 6.0),
                _ => (x, y),
            };
            let v = (next(400) as f32 - 200.0, next(400) as f32 - 200.0);
            let who = names[next(4) as usize];
            room.balloons.push(balloon(&k.to_string(), x, y, v, 1 + next(3) as i32, who));
        }
        for k in 0..6 {
            let x = 20.0 + 40.0 * next(20) as f32;
            let y = 15.0 + 30.0 * next(20) as f32;
            let who = names[next(4) as usize];
            room.emitters.push(emitter(&format!("e{}", k % 5), x, y, 1 + next(3) as i32, who));
        }
        let mut balls: Vec<Ball> = room.balloons.iter().map(ball).collect();
        let mut emitters: Vec<Source> = room.emitters.iter().map(source).collect();
        let mut bases: Vec<Source> = room
            .bases
            .iter()
            .map(|b| Source {
                id: String::new(),
                x: b.x as f32,
                y: b.y as f32,
                health: b.health,
                player: b.player_id.clone(),
            })
            .collect();
        let mut players: Vec<String> = room.players.iter().map(|p| p.id.clone()).collect();
        plain_battle(&mut balls, &mut emitters, &mut bases, &mut players);
        collide(&mut room);
        assert_eq!(room.balloons.iter().map(ball).collect::<Vec<_>>(), balls);
        assert_eq!(room.emitters.iter().map(source).collect::<Vec<_>>(), emitters);
        let left: Vec<(String, i32)> =
            room.bases.iter().map(|b| (b.player_id.clone(), b.health)).collect();
        assert_eq!(left, bases.iter().map(|b| (b.player.clone(), b.health)).collect::<Vec<_>>());
        assert_eq!(room.players.iter().map(|p| p.id.clone()).collect::<Vec<_>>(), players);
        assert_eq!(room.game_over, bases.len() <= 1);
    }
}

fn ball(b: &Balloon) -> Ball {
    Ball {
        id: b.id.clone(),
        x: f(b.x),
        y: f(b.y),
        vx: f(b.vx),
        vy: f(b.vy),
        radius: b.radius as f32,
        health: b.health,
        player: b.player_id.clone(),
    }
}

fn source(e: &Emitter) -> Source {
    Source {
        id: e.id.clone(),
        x: f(e.x),
        y: f(e.y),
        health: e.health,
        player: e.player_id.clone(),
    }
}
