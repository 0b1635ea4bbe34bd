use balloons::lobby::{is_host, join, leave, pick_colors, start, winner_color};
use balloons::state::{init_game_state, GameState};

fn room_of(ids: &[&str]) -> GameState {
    let mut room = init_game_state(0);
    for id in ids {
        join(&mut room, &id.to_string(), 11);
    }
    room
}

fn ids(room: &GameState) -> Vec<&str> {
    room.players.iter().map(|p| p.id.as_str()).collect()
}

#[test]
fn players_get_colors_in_order() {
    let room = room_of(&["1", "2", "3", "4", "5", "6", "7"]);
    let colors: Vec<(&str, &str)> = room
        .players
        .iter()
        .map(|p| (p.color.as_str(), p.balloon_color.as_str()))
        .collect();
    assert_eq!(
        colors,
        vec![
            ("#8A2BE2", "#4B0082"),
            ("#32CD32", "#006400"),
            ("#FF0000", "#8B0000"),
            ("#FFA500", "#FF8C00"),
            ("#0000FF", "#00008B"),
            ("#FF0000", "#8B0000"),
            ("#FF0000", "#8B0000"),
        ]
    );
}

#[test]
fn a_color_that_comes_free_is_given_again() {
    let mut room = room_of(&["1", "2", "3"]);
    leave(&mut room, &"2".to_string());
    assert_eq!(pick_colors(&room.players).0, "#32CD32");
    join(&mut room, &"4".to_string(), 0);
    assert_eq!(room.players[2].color, "#32CD32");
    assert_eq!(room.players[2].balloon_color, "#006400");
}

#[test]
fn the_first_five_players_have_different_colors() {
    let mut room = room_of(&["1", "2", "3", "4", "5"]);
    for i in 0..5 {
        for j in 0..i {
            assert_ne!(room.players[i].color, room.players[j].color);
        }
    }
    leave(&mut room, &"3".to_string());
    join(&mut room, &"6".to_string(), 0);
    for i in 0..5 {
        for j in 0..i {
            assert_ne!(room.players[i].color, room.players[j].color);
        }
    }
}

#[test]
fn bases_stand_in_the_corners() {
    let room = room_of(&["1", "2", "3", "4", "5"]);
    let at: Vec<(u16, u16)> = room.bases.iter().map(|b| (b.x, b.y)).collect();
    assert_eq!(at, vec![(25, 575), (775, 25), (25, 25), (775, 575), (25, 575)]);
    for (b, p) in room.bases.iter().zip(&room.players) {
        assert_eq!(b.player_id, p.id);
        assert_eq!((b.health, b.size, b.last_emit_time), (100, 50, 11));
    }
}

#[test]
fn the_first_comer_is_host() {
    let room = room_of(&["1", "2"]);
    assert_eq!(room.host_id.as_deref(), Some("1"));
    assert!(is_host(&room, &"1".to_string()));
    assert!(!is_host(&room, &"2".to_string()));
    assert!(!is_host(&init_game_state(0), &"1".to_string()));
}

#[test]
fn the_host_is_followed_by_the_first_player_left() {
    let mut room = room_of(&["1", "2", "3"]);
    leave(&mut room, &"1".to_string());
    assert_eq!(ids(&room), vec!["2", "3"]);
    assert_eq!(room.host_id.as_deref(), Some("2"));
    leave(&mut room, &"3".to_string());
    assert_eq!(room.host_id.as_deref(), Some("2"));
    leave(&mut room, &"2".to_string());
    assert_eq!(room.host_id, None);
    assert!(room.players.is_empty());
    assert_eq!(room.bases.len(), 3);
    join(&mut room, &"4".to_string(), 0);
    assert_eq!(room.host_id.as_deref(), Some("4"));
}

#[test]
fn leaving_undoes_joining_but_for_the_base() {
    let mut room = room_of(&["1", "2"]);
    join(&mut room, &"3".to_string(), 0);
    leave(&mut room, &"3".to_string());
    assert_eq!(ids(&room), vec!["1", "2"]);
    assert_eq!(room.host_id.as_deref(), Some("1"));
    assert_eq!(room.bases.len(), 3);
    leave(&mut room, &"nobody".to_string());
    assert_eq!(ids(&room), vec!["1", "2"]);
}

#[test]
fn only_the_host_starts_the_game_and_once() {
    let mut room = room_of(&["1", "2"]);
    assert!(!start(&mut room, &"2".to_string()));
    assert!(!room.game_started);
    assert!(start(&mut room, &"1".to_string()));
    assert!(room.game_started);
    assert!(!start(&mut room, &"1".to_string()));
    assert!(!start(&mut room, &"2".to_string()));
    assert!(room.game_started);
}

#[test]
fn the_winner_is_told_by_color() {
    let mut room = room_of(&["1", "2"]);
    assert_eq!(winner_color(&room), "Draw");
    room.winner_player_id = Some("2".to_string());
    assert_eq!(winner_color(&room), "#32CD32");
    room.winner_player_id = Some("9".to_string());
    assert_eq!(winner_color(&room), "Unknown");
}
