use balloons::measure::Measurements;
use balloons::messages::{Broadcast, ClientMessage, ServerMessage};
use balloons::server::{
    broadcast_game_over, broadcast_game_state, broadcast_player_list, game_loop,
    handle_client_message, AppState,
};
use balloons::session::{websocket_handler, Effect, Event, Stage};
use balloons::single::Single;
use balloons::update::launches::Velocity;

fn s(v: f32) -> Single {
    Single { bits: v.to_bits() }
}

fn nothing() -> Measurements {
    Measurements { motions: vec![], between_balloons: vec![], to_emitters: vec![] }
}

fn velocities() -> Vec<Velocity> {
    vec![Velocity { vx: s(1.0), vy: s(2.0) }; 4]
}

fn join_event(room: &str) -> Event {
    Event::Message(ClientMessage::JoinRoom { room_id: room.to_string() })
}

/// Lets a client join a room and gives back its stage and player id.
fn enter(app: &mut AppState, room: &str, client: u64) -> (Stage, String) {
    let (stage, _) = websocket_handler(app, Stage::Waiting, &join_event(room), client, 10);
    let id = match &stage {
        Stage::Joined { player_id, .. } => player_id.clone(),
        _ => panic!("not joined"),
    };
    (stage, id)
}

fn names(b: &Broadcast) -> (Vec<String>, Option<String>, Vec<u64>) {
    match &b.message {
        ServerMessage::PlayerList { players, host_id } => {
            (players.iter().map(|p| p.id.clone()).collect(), host_id.clone(), b.to.clone())
        }
        _ => panic!("no player list"),
    }
}

#[test]
fn a_client_joins_with_its_first_message() {
    let mut app = AppState::new();
    let (stage, effects) =
        websocket_handler(&mut app, Stage::Waiting, &join_event("r"), 5, 10);
    let (room_id, player_id) = match stage {
        Stage::Joined { room_id, player_id } => (room_id, player_id),
        _ => panic!("not joined"),
    };
    assert_eq!(room_id, "r");
    assert_eq!(player_id.len(), 36);
    assert_eq!(effects.len(), 2);
    match &effects[0] {
        Effect::Tell(ServerMessage::JoinedRoom { room_id, player_id: p }) => {
            assert_eq!(room_id, "r");
            assert_eq!(*p, player_id);
        }
        _ => panic!("not told"),
    }
    match &effects[1] {
        Effect::Announce(b) => {
            assert_eq!(names(b), (vec![player_id.clone()], Some(player_id.clone()), vec![5]))
        }
        _ => panic!("not announced"),
    }
    let room = app.room(&"r".to_string()).unwrap();
    assert_eq!(room.players.len(), 1);
    assert_eq!(room.players[0].color, "#8A2BE2");
    assert_eq!(room.bases[0].last_emit_time, 10);
    assert_eq!(room.last_update, 10);
    assert_eq!(app.clients_of(&"r".to_string()), Some(vec![5]));
}

#[test]
fn the_first_message_has_to_ask_for_a_room() {
    for event in [
        Event::Message(ClientMessage::StartGame),
        Event::Message(ClientMessage::PlaceEmitter { x: s(1.0), y: s(1.0) }),
        Event::Garbled,
    ] {
        let mut app = AppState::new();
        let (stage, effects) = websocket_handler(&mut app, Stage::Waiting, &event, 1, 0);
        assert!(matches!(stage, Stage::Done));
        assert_eq!(effects.len(), 1);
        assert!(matches!(effects[0], Effect::Close));
        assert!(app.room(&"r".to_string()).is_none());
    }
    for event in [Event::Other, Event::Ended] {
        let mut app = AppState::new();
        let (stage, effects) = websocket_handler(&mut app, Stage::Waiting, &event, 1, 0);
        assert!(matches!(stage, Stage::Done));
        assert!(effects.is_empty());
    }
}

#[test]
fn what_is_no_message_is_passed_over_in_a_room() {
    let mut app = AppState::new();
    let (mut stage, _) = enter(&mut app, "r", 1);
    for event in [Event::Garbled, Event::Other, join_event("elsewhere")] {
        let (next, effects) = websocket_handler(&mut app, stage, &event, 1, 0);
        assert!(matches!(next, Stage::Joined { .. }));
        assert!(effects.is_empty());
        stage = next;
    }
    assert!(app.room(&"elsewhere".to_string()).is_none());
    let (stage, effects) = websocket_handler(&mut app, Stage::Done, &join_event("r"), 1, 0);
    assert!(matches!(stage, Stage::Done) && effects.is_empty());
}

#[test]
fn a_player_leaves_when_the_connection_ends() {
    let mut app = AppState::new();
    let (one, first) = enter(&mut app, "r", 1);
    let (two, second) = enter(&mut app, "r", 2);
    let (stage, effects) = websocket_handler(&mut app, one, &Event::Ended, 1, 0);
    assert!(matches!(stage, Stage::Done));
    assert_eq!(effects.len(), 1);
    match &effects[0] {
        Effect::Announce(b) => {
            assert_eq!(names(b), (vec![second.clone()], Some(second.clone()), vec![2]))
        }
        _ => panic!("not announced"),
    }
    let room = app.room(&"r".to_string()).unwrap();
    assert!(room.players.iter().all(|p| p.id != first));
    assert_eq!(room.bases.len(), 2);
    let (_, effects) = websocket_handler(&mut app, two, &Event::Ended, 2, 0);
    match &effects[0] {
        Effect::Announce(b) => assert_eq!(names(b), (vec![], None, vec![])),
        _ => panic!("not announced"),
    }
    assert_eq!(app.clients_of(&"r".to_string()), Some(vec![]));
}

#[test]
fn the_host_starts_the_game_of_the_room() {
    let mut app = AppState::new();
    let (one, _) = enter(&mut app, "r", 1);
    let (two, _) = enter(&mut app, "r", 2);
    let start = Event::Message(ClientMessage::StartGame);
    let (_, effects) = websocket_handler(&mut app, two, &start, 2, 0);
    assert!(effects.is_empty());
    assert!(!app.room(&"r".to_string()).unwrap().game_started);
    let (one, effects) = websocket_handler(&mut app, one, &start, 1, 0);
    assert_eq!(effects.len(), 2);
    assert!(matches!(&effects[0], Effect::RunGame(r) if r == "r"));
    match &effects[1] {
        Effect::Announce(Broadcast { message: ServerMessage::GameState(g), to }) => {
            assert!(g.game_started);
            assert_eq!(g.players.len(), 2);
            assert_eq!(*to, vec![1, 2]);
        }
        _ => panic!("not announced"),
    }
    let (_, effects) = websocket_handler(&mut app, one, &start, 1, 0);
    assert!(effects.is_empty());
}

#[test]
fn messages_to_unknown_rooms_change_nothing() {
    let mut app = AppState::new();
    for m in [
        ClientMessage::StartGame,
        ClientMessage::PlaceEmitter { x: s(1.0), y: s(1.0) },
        ClientMessage::JoinRoom { room_id: "r".to_string() },
    ] {
        let r = handle_client_message(&mut app, &m, &"r".to_string(), &"p".to_string(), 0);
        assert!(!r.starts && r.news.is_none());
    }
    assert!(app.room(&"r".to_string()).is_none());
}

#[test]
fn rooms_are_apart() {
    let mut app = AppState::new();
    let (one, first) = enter(&mut app, "r", 1);
    let (_, second) = enter(&mut app, "q", 2);
    websocket_handler(&mut app, one, &Event::Message(ClientMessage::StartGame), 1, 0);
    assert!(app.room(&"r".to_string()).unwrap().game_started);
    let q = app.room(&"q".to_string()).unwrap();
    assert!(!q.game_started);
    assert_eq!(q.players.len(), 1);
    assert_eq!(q.host_id, Some(second));
    assert_eq!(app.room(&"r".to_string()).unwrap().host_id, Some(first));
    assert_eq!(app.clients_of(&"q".to_string()), Some(vec![2]));
    assert_eq!(app.clients_of(&"none".to_string()), None);
}

#[test]
fn clients_come_and_go() {
    let mut app = AppState::new();
    let r = "r".to_string();
    app.unregister_client(&r, 1);
    assert_eq!(app.clients_of(&r), None);
    app.register_client(&r, 1);
    app.register_client(&r, 2);
    app.register_client(&r, 1);
    assert_eq!(app.clients_of(&r), Some(vec![1, 2, 1]));
    app.unregister_client(&r, 1);
    assert_eq!(app.clients_of(&r), Some(vec![2]));
    app.leave_room(&r, &"p".to_string());
    assert!(app.room(&r).is_none());
}

#[test]
fn broadcasts_need_a_room_and_clients() {
    let mut app = AppState::new();
    let r = "r".to_string();
    assert!(broadcast_game_state(&app, &r).is_none());
    assert!(broadcast_player_list(&app, &r).is_none());
    assert!(broadcast_game_over(&app, &r, "red".to_string()).is_none());
    app.register_client(&r, 3);
    assert!(broadcast_game_state(&app, &r).is_none());
    assert!(broadcast_player_list(&app, &r).is_none());
    let b = broadcast_game_over(&app, &r, "red".to_string()).unwrap();
    assert_eq!(b.to, vec![3]);
    assert!(matches!(&b.message, ServerMessage::GameOver { winner_color } if winner_color == "red"));
    app.join_room(&r, &"p".to_string(), 0);
    assert_eq!(broadcast_game_state(&app, &r).unwrap().to, vec![3]);
    assert_eq!(
        names(&broadcast_player_list(&app, &r).unwrap()),
        (vec!["p".to_string()], Some("p".to_string()), vec![3])
    );
    app.join_room(&"silent".to_string(), &"p".to_string(), 0);
    assert!(broadcast_game_state(&app, &"silent".to_string()).is_none());
}

#[test]
fn the_loop_ends_without_a_room() {
    let mut app = AppState::new();
    let turn = game_loop(&mut app, &"r".to_string(), 0, &nothing(), &velocities());
    assert!(!turn.goes_on && turn.news.is_none() && turn.verdict.is_none());
}

#[test]
fn the_loop_steps_until_the_game_is_over() {
    let mut app = AppState::new();
    let r = "r".to_string();
    app.register_client(&r, 1);
    app.join_room(&r, &"p".to_string(), 0);
    app.join_room(&r, &"q".to_string(), 0);
    let host = "p".to_string();
    let started = handle_client_message(&mut app, &ClientMessage::StartGame, &r, &host, 0);
    assert!(started.starts && started.news.is_some());

    let turn = game_loop(&mut app, &r, 5, &nothing(), &velocities());
    assert!(turn.goes_on && turn.verdict.is_none());
    match &turn.news.unwrap().message {
        ServerMessage::GameState(g) => {
            assert_eq!(g.last_update, 5);
            assert!(!g.game_over);
        }
        _ => panic!("no state"),
    }
}

#[test]
fn a_lone_player_wins_at_once() {
    let mut app = AppState::new();
    let r = "r".to_string();
    app.register_client(&r, 1);
    app.join_room(&r, &"p".to_string(), 0);
    let host = "p".to_string();
    handle_client_message(&mut app, &ClientMessage::StartGame, &r, &host, 0);
    let turn = game_loop(&mut app, &r, 5, &nothing(), &velocities());
    assert!(turn.goes_on && turn.verdict.is_none());
    assert!(app.room(&r).unwrap().game_over);
    let turn = game_loop(&mut app, &r, 9, &nothing(), &velocities());
    assert!(!turn.goes_on && turn.news.is_some());
    assert_eq!(app.room(&r).unwrap().last_update, 5);
    let verdict = turn.verdict.unwrap();
    assert_eq!(verdict.to, vec![1]);
    match &verdict.message {
        ServerMessage::GameOver { winner_color } => assert_eq!(winner_color, "#8A2BE2"),
        _ => panic!("no verdict"),
    }
}
