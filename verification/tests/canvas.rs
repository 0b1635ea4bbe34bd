use balloons::collision::contact::{check_collision, circle_collision, rect_collision};
use balloons::emitters::{add_emitter, find_spot, place_emitter};
use balloons::lobby::join;
use balloons::measure::{Extent, Motion};
use balloons::single::Single;
use balloons::state::{init_game_state, Balloon, Base, GameState};
use balloons::update::cells::{claim_cells, find_cell};
use balloons::update::motion::move_balloons;

fn s(v: f32) -> Single {
    Single { bits: v.to_bits() }
}

fn f(v: Single) -> f32 {
    f32::from_bits(v.bits)
}

fn balloon(id: &str, x: f32, y: f32, player: &str) -> Balloon {
    Balloon {
        id: id.to_string(),
        x: s(x),
        y: s(y),
        vx: s(3.0),
        vy: s(-4.0),
        radius: 10,
        health: 3,
        player_id: player.to_string(),
    }
}

fn motion(x: f32, y: f32) -> Motion {
    Motion {
        x: s(x),
        y: s(y),
        extent: Extent {
            left: s(x - 10.0),
            right: s(x + 10.0),
            top: s(y - 10.0),
            bottom: s(y + 10.0),
        },
    }
}

fn owner_at(room: &GameState, x: f32, y: f32) -> Option<String> {
    let k = find_cell(&room.grid, s(x), s(y)).unwrap();
    room.grid[k].owner.clone()
}

#[test]
fn a_fresh_room_has_a_grid_and_nothing_else() {
    let room = init_game_state(7);
    assert!(room.players.is_empty() && room.balloons.is_empty());
    assert!(room.emitters.is_empty() && room.bases.is_empty());
    assert_eq!(room.last_update, 7);
    assert!(!room.game_over && !room.game_started);
    assert!(room.winner_player_id.is_none() && room.host_id.is_none());
    assert_eq!(room.grid.len(), 400);
    let row_size = 800.0 / 20 as f32;
    let col_size = 600.0 / 20 as f32;
    for i in 0..20 {
        for j in 0..20 {
            let c = &room.grid[i * 20 + j];
            assert_eq!(c.x as f32, i as f32 * row_size);
            assert_eq!(c.y as f32, j as f32 * col_size);
            assert_eq!(c.w as f32, row_size);
            assert_eq!(c.h as f32, col_size);
            assert!(c.owner.is_none());
        }
    }
}

#[test]
fn cells_hold_their_left_and_upper_edges() {
    let room = init_game_state(0);
    let at = |x: f32, y: f32| find_cell(&room.grid, s(x), s(y));
    assert_eq!(at(0.0, 0.0), Some(0));
    assert_eq!(at(-0.0, -0.0), Some(0));
    assert_eq!(at(39.999996, 29.999998), Some(0));
    assert_eq!(at(40.0, 0.0), Some(20));
    assert_eq!(at(0.0, 30.0), Some(1));
    assert_eq!(at(799.99994, 599.99994), Some(399));
    assert_eq!(at(800.0, 10.0), None);
    assert_eq!(at(10.0, 600.0), None);
    assert_eq!(at(-0.00001, 10.0), None);
    assert_eq!(at(f32::NAN, 10.0), None);
    assert_eq!(at(10.0, f32::NAN), None);
    assert_eq!(at(f32::INFINITY, 10.0), None);
    assert_eq!(at(10.0, f32::NEG_INFINITY), None);
}

#[test]
fn every_point_of_the_canvas_is_in_one_cell() {
    let room = init_game_state(0);
    let mut x: f32 = -5.0;
    while x < 806.0 {
        let mut y: f32 = -5.0;
        while y < 606.0 {
            let holding: Vec<usize> = (0..400)
                .filter(|&k| {
                    let c = &room.grid[k];
                    let (cx, cy) = (c.x as f32, c.y as f32);
                    x >= cx && x < cx + c.w as f32 && y >= cy && y < cy + c.h as f32
                })
                .collect();
            let on = x >= 0.0 && x < 800.0 && y >= 0.0 && y < 600.0;
            assert_eq!(holding.len(), if on { 1 } else { 0 });
            assert_eq!(find_cell(&room.grid, s(x), s(y)), holding.first().copied());
            y += 12.37;
        }
        x += 17.29;
    }
}

#[test]
fn the_last_balloon_in_a_cell_claims_it() {
    let mut room = init_game_state(0);
    room.grid[3].owner = Some("old".to_string());
    room.balloons.push(balloon("1", 50.0, 10.0, "a"));
    room.balloons.push(balloon("2", 55.0, 12.0, "b"));
    room.balloons.push(balloon("3", 900.0, 12.0, "a"));
    room.balloons.push(balloon("4", 100.0, 100.0, "a"));
    claim_cells(&mut room.grid, &room.balloons);
    assert_eq!(owner_at(&room, 41.0, 1.0), Some("b".to_string()));
    assert_eq!(owner_at(&room, 101.0, 101.0), Some("a".to_string()));
    assert_eq!(owner_at(&room, 1.0, 100.0), Some("old".to_string()));
    assert_eq!(room.grid.iter().filter(|c| c.owner.is_some()).count(), 3);
}

#[test]
fn balloons_turn_back_at_the_edges() {
    let mut v = vec![
        balloon("in", 1.0, 1.0, "a"),
        balloon("left", 1.0, 1.0, "a"),
        balloon("right", 1.0, 1.0, "a"),
        balloon("top", 1.0, 1.0, "a"),
        balloon("bottom", 1.0, 1.0, "a"),
        balloon("touching", 1.0, 1.0, "a"),
    ];
    let motions = vec![
        motion(400.0, 300.0),
        motion(9.5, 300.0),
        motion(790.5, 300.0),
        motion(400.0, 9.0),
        motion(400.0, 591.0),
        motion(10.0, 590.0),
    ];
    move_balloons(&mut v, &motions);
    let vel: Vec<(f32, f32)> = v.iter().map(|b| (f(b.vx), f(b.vy))).collect();
    assert_eq!(
        vel,
        vec![(3.0, -4.0), (-3.0, -4.0), (-3.0, -4.0), (3.0, 4.0), (3.0, 4.0), (3.0, -4.0)]
    );
    assert_eq!((f(v[1].x), f(v[1].y)), (9.5, 300.0));
    assert_eq!(v[1].health, 3);
}

#[test]
fn circles_collide_closer_than_their_radii() {
    assert!(circle_collision(s(24.999998), 10, 15));
    assert!(!circle_collision(s(25.0), 10, 15));
    assert!(!circle_collision(s(f32::NAN), 10, 15));
    let a = balloon("a", 0.0, 0.0, "a");
    let b = balloon("b", 12.0, 16.0, "b");
    let d = ((12.0f32 * 12.0) + (16.0f32 * 16.0)).sqrt();
    assert!(!check_collision(&a, &b, s(d)));
    assert!(check_collision(&a, &b, s(19.999998)));
}

#[test]
fn squares_collide_with_bases_that_they_reach_into() {
    let base = Base {
        x: 25,
        y: 575,
        player_id: "a".to_string(),
        health: 100,
        size: 50,
        last_emit_time: 0,
    };
    for (x, y) in [
        (25.0f32, 575.0f32),
        (60.0, 575.0),
        (59.99, 575.0),
        (25.0, 540.0),
        (25.0, 540.01),
        (70.0, 500.0),
        (f32::NAN, 575.0),
    ] {
        let hit = x + 10.0 > 0.0 && x - 10.0 < 50.0 && y + 10.0 > 550.0 && y - 10.0 < 600.0;
        assert_eq!(rect_collision(&motion(x, y).extent, &base), hit, "{} {}", x, y);
    }
}

fn started_room() -> GameState {
    let mut room = init_game_state(0);
    join(&mut room, &"a".to_string(), 0);
    join(&mut room, &"b".to_string(), 0);
    room.game_started = true;
    room.grid[21].owner = Some("a".to_string());
    room
}

#[test]
fn an_emitter_is_placed_in_the_middle_of_an_own_cell() {
    let mut room = started_room();
    place_emitter(&mut room, s(41.0), s(59.0), &"a".to_string(), 99);
    assert_eq!(room.emitters.len(), 1);
    let e = &room.emitters[0];
    assert_eq!((f(e.x), f(e.y)), (60.0, 45.0));
    assert_eq!(e.player_id, "a");
    assert_eq!((e.health, e.last_emit_time), (3, 99));
    assert_eq!(find_cell(&room.grid, e.x, e.y), Some(21));
}

#[test]
fn emitter_ids_are_random_uuids() {
    let mut room = started_room();
    for _ in 0..20 {
        place_emitter(&mut room, s(41.0), s(59.0), &"a".to_string(), 0);
    }
    for e in &room.emitters {
        let c: Vec<char> = e.id.chars().collect();
        assert_eq!(c.len(), 36);
        for (i, ch) in c.iter().enumerate() {
            if [8, 13, 18, 23].contains(&i) {
                assert_eq!(*ch, '-');
            } else {
                assert!(ch.is_ascii_digit() || ('a'..='f').contains(ch));
            }
        }
        assert_eq!(c[14], '4');
        assert!(['8', '9', 'a', 'b'].contains(&c[19]));
    }
    assert_ne!(room.emitters[0].id, room.emitters[1].id);
}

#[test]
fn no_emitter_without_a_started_game_and_an_own_cell() {
    let a = "a".to_string();
    let b = "b".to_string();
    let mut room = started_room();
    place_emitter(&mut room, s(41.0), s(59.0), &b, 0);
    place_emitter(&mut room, s(1.0), s(1.0), &a, 0);
    place_emitter(&mut room, s(-1.0), s(1.0), &a, 0);
    place_emitter(&mut room, s(f32::NAN), s(1.0), &a, 0);
    assert!(room.emitters.is_empty());
    assert_eq!(find_spot(&room, s(41.0), s(59.0), &a), Some(21));
    assert_eq!(find_spot(&room, s(41.0), s(59.0), &b), None);
    room.game_started = false;
    place_emitter(&mut room, s(41.0), s(59.0), &a, 0);
    assert!(room.emitters.is_empty());
    assert_eq!(find_spot(&room, s(41.0), s(59.0), &a), None);
}

#[test]
fn an_emitter_gets_the_id_it_is_given() {
    let mut room = started_room();
    add_emitter(&mut room, 399, &"b".to_string(), "some id".to_string(), 5);
    let e = &room.emitters[0];
    assert_eq!(e.id, "some id");
    assert_eq!((f(e.x), f(e.y)), (780.0, 585.0));
    assert_eq!(e.last_emit_time, 5);
}
