use balloons::measure::{Extent, Measurements, Motion};
use balloons::messages::{ClientMessage, ServerMessage};
use balloons::server::{game_loop, AppState, Turn};
use balloons::session::{websocket_handler, Effect, Event, Stage};
use balloons::single::Single;
use balloons::state::GameState;
use balloons::update::launches::{elapsed, Velocity};
use balloons::update::ready;
use std::time::Duration;

fn s(v: f32) -> Single {
    Single { bits: v.to_bits() }
}

fn f(v: Single) -> f32 {
    f32::from_bits(v.bits)
}

fn measure(room: &GameState, now: u64) -> Measurements {
    let dt = Duration::from_nanos(elapsed(now, room.last_update)).as_secs_f32();
    let at: Vec<(f32, f32, f32)> = room
        .balloons
        .iter()
        .map(|b| (f(b.x) + f(b.vx) * dt, f(b.y) + f(b.vy) * dt, b.radius as f32))
        .collect();
    let distance = |a: &(f32, f32, f32), x: f32, y: f32| {
        let dx = a.0 - x;
        let dy = a.1 - y;
        s((dx * dx + dy * dy).sqrt())
    };
    Measurements {
        motions: at
            .iter()
            .map(|&(x, y, r)| Motion {
                x: s(x),
                y: s(y),
                extent: Extent { left: s(x - r), right: s(x + r), top: s(y - r), bottom: s(y + r) },
            })
            .collect(),
        between_balloons: at
            .iter()
            .map(|a| at.iter().map(|b| distance(a, b.0, b.1)).collect())
            .collect(),
        to_emitters: at
            .iter()
            .map(|a| room.emitters.iter().map(|e| distance(a, f(e.x), f(e.y))).collect())
            .collect(),
    }
}

fn enter(app: &mut AppState, room: &str, client: u64, now: u64) -> (Stage, String) {
    let event = Event::Message(ClientMessage::JoinRoom { room_id: room.to_string() });
    let (stage, _) = websocket_handler(app, Stage::Waiting, &event, client, now);
    let id = match &stage {
        Stage::Joined { player_id, .. } => player_id.clone(),
        _ => panic!("not joined"),
    };
    (stage, id)
}

fn turn(app: &mut AppState, room: &str, now: u64, next: &mut dyn FnMut(u32) -> u32) -> Turn {
    let room_id = room.to_string();
    let (m, v) = {
        let room = app.room(&room_id).unwrap();
        let m = measure(room, now);
        let v: Vec<Velocity> = (0..room.emitters.len() + room.bases.len())
            .map(|_| {
                let angle = next(6283) as f32 / 1000.0;
                let speed = 100.0 + next(100) as f32;
                Velocity { vx: s(angle.cos() * speed), vy: s(angle.sin() * speed) }
            })
            .collect();
        assert!(ready(room, &m, &v));
        (m, v)
    };
    game_loop(app, &room_id, now, &m, &v)
}

fn assert_sound(room: &GameState) {
    assert_eq!(room.grid.len(), 400);
    for (n, c) in room.grid.iter().enumerate() {
        let at = (40 * (n as u16 / 20), 30 * (n as u16 % 20), 40, 30);
        assert_eq!((c.x, c.y, c.w, c.h), at);
    }
    assert!(room.balloons.iter().all(|b| b.radius == 10 && b.health > 0 && b.health <= 3));
    assert!(room.emitters.iter().all(|e| e.health > 0 && e.health <= 3));
    for (n, b) in room.bases.iter().enumerate() {
        assert!(b.size == 50 && b.health > 0 && b.health <= 100);
        assert!((b.x == 25 || b.x == 775) && (b.y == 25 || b.y == 575));
        assert!(room.bases[..n].iter().all(|c| c.player_id != b.player_id));
    }
}

#[test]
fn a_room_stays_sound_in_play() {
    let mut seed: u32 = 77;
    let mut next = move |n: u32| {
        seed = seed.wrapping_mul(1664525).wrapping_add(1013904223);
        (seed >> 8) % n
    };
    let mut app = AppState::new();
    let mut players: Vec<(Stage, String)> = Vec::new();
    for client in 0..4 {
        players.push(enter(&mut app, "r", client, 0));
    }
    let host = players.remove(0);
    let (stage, effects) =
        websocket_handler(&mut app, host.0, &Event::Message(ClientMessage::StartGame), 0, 0);
    players.insert(0, (stage, host.1));
    assert!(matches!(effects[0], Effect::RunGame(_)));

    let mut now = 0;
    let mut most = 0;
    let mut placed = 0;
    for step in 0..1200 {
        now += 16_000_000;
        let t = turn(&mut app, "r", now, &mut next);
        assert!(t.goes_on && t.verdict.is_none());
        let room = app.room(&"r".to_string()).unwrap();
        assert_sound(room);
        assert!(room.game_started);
        most = most.max(room.balloons.len());
        if room.game_over {
            break;
        }
        if step % 50 == 49 {
            let who = (step / 50) % 4;
            let (stage, id) = players.remove(who);
            let own = app.room(&"r".to_string()).unwrap().grid.iter().find_map(|c| {
                if c.owner.as_deref() == Some(id.as_str()) {
                    Some((c.x as f32 + 3.0, c.y as f32 + 3.0))
                } else {
                    None
                }
            });
            let before = app.room(&"r".to_string()).unwrap().emitters.len();
            let (x, y) = own.unwrap_or((1.0, 1.0));
            let event = Event::Message(ClientMessage::PlaceEmitter { x: s(x), y: s(y) });
            let (stage, effects) =
                websocket_handler(&mut app, stage, &event, who as u64, now);
            assert!(effects.is_empty());
            players.insert(who, (stage, id));
            let after = app.room(&"r".to_string()).unwrap().emitters.len();
            if own.is_some() {
                assert_eq!(after, before + 1);
                placed += 1;
            }
            assert_sound(app.room(&"r".to_string()).unwrap());
        }
    }
    assert!(most > 10);
    assert!(placed > 3);
}

#[test]
fn coming_and_going_leaves_the_room_as_it_was() {
    let mut app = AppState::new();
    let (_, first) = enter(&mut app, "r", 1, 0);
    let (_, second) = enter(&mut app, "r", 2, 0);
    let (stage, third) = enter(&mut app, "r", 3, 0);
    assert_eq!(app.clients_of(&"r".to_string()), Some(vec![1, 2, 3]));
    let (_, effects) = websocket_handler(&mut app, stage, &Event::Ended, 3, 0);
    let room = app.room(&"r".to_string()).unwrap();
    let ids: Vec<&String> = room.players.iter().map(|p| &p.id).collect();
    assert_eq!(ids, vec![&first, &second]);
    assert_eq!(room.host_id, Some(first));
    assert_eq!(app.clients_of(&"r".to_string()), Some(vec![1, 2]));
    assert!(room.bases.iter().any(|b| b.player_id == third));
    match &effects[0] {
        Effect::Announce(b) => assert_eq!(b.to, vec![1, 2]),
        _ => panic!("not announced"),
    }
}

#[test]
fn a_game_that_is_over_stays_over() {
    let mut next = |_: u32| 0;
    let mut app = AppState::new();
    let (one, _) = enter(&mut app, "r", 1, 0);
    websocket_handler(&mut app, one, &Event::Message(ClientMessage::StartGame), 1, 0);
    let t = turn(&mut app, "r", 5, &mut next);
    assert!(t.goes_on);
    let (two, _) = enter(&mut app, "r", 2, 6);
    let room = app.room(&"r".to_string()).unwrap();
    assert!(room.game_over && room.game_started);
    assert_eq!(room.bases.len(), 2);
    let t = turn(&mut app, "r", 7, &mut next);
    assert!(!t.goes_on);
    match &t.verdict.unwrap().message {
        ServerMessage::GameOver { winner_color } => assert_eq!(winner_color, "#8A2BE2"),
        _ => panic!("no verdict"),
    }
    let event = Event::Message(ClientMessage::StartGame);
    let (_, effects) = websocket_handler(&mut app, two, &event, 2, 8);
    assert!(effects.is_empty());
}
