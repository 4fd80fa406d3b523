use dungeon::game::board::{Board, ParseError};
use dungeon::game::curio::Curio;
use dungeon::game::hall::Hall;
use dungeon::game::player::{ActionError, Command, Outcome, Player, MAX_HP};

fn no_curios(_n: u64) -> Vec<Curio> {
    Vec::new()
}

fn one_chest(n: u64) -> Vec<Curio> {
    let mut v = Vec::new();
    let mut i = 0;
    while i < n {
        v.push(Curio::Chest(10));
        i += 1;
    }
    v
}

const TWO_ROOM_DOC: &str = r#"{
    "rooms": [ { "name": "A", "curios": 0 },
               { "name": "B", "curios": 1, "wumpus": true } ],
    "halls": [ [0, 1] ]
}"#;

#[test]
fn build_two_room_world() {
    let board = Board::build_board(TWO_ROOM_DOC, one_chest).unwrap();
    assert_eq!(board.rooms.len(), 2);
    assert_eq!(board.rooms[0].name, "A");
    assert_eq!(board.rooms[1].name, "B");
    assert_eq!(board.rooms[0].wumpus, false);
    assert_eq!(board.rooms[1].wumpus, true);
    assert_eq!(board.rooms[0].contents.len(), 0);
    assert_eq!(board.rooms[1].contents, vec![Curio::Chest(10)]);
    // The one declared hall is registered on both of its rooms, and each
    // end answers `other` with the opposite end.
    assert_eq!(board.rooms[0].halls, vec![Hall::new(0, 1)]);
    assert_eq!(board.rooms[1].halls, vec![Hall::new(0, 1)]);
    assert_eq!(board.rooms[0].halls[0].other(0), 1);
    assert_eq!(board.rooms[1].halls[0].other(1), 0);
}

#[test]
fn spawn_is_first_room() {
    let board = Board::build_board(TWO_ROOM_DOC, no_curios).unwrap();
    assert_eq!(board.spawn_location(), 0);
}

#[test]
fn go_shoot_scenario() {
    let mut board = Board::build_board(TWO_ROOM_DOC, one_chest).unwrap();
    let mut player = Player::new(board.spawn_location());
    assert_eq!(player.hp, MAX_HP);
    assert_eq!(player.gold, 0);
    assert!(!player.is_won());

    // Case-insensitive move into B drains the chest.
    let r = player.act(&mut board, Command::Go("b".to_string()));
    assert_eq!(
        r,
        Ok(Outcome::Moved { room: 1, drained: vec![Curio::Chest(10)] })
    );
    assert_eq!(player.location, 1);
    assert_eq!(player.gold, 10);
    assert_eq!(player.hp, MAX_HP);
    assert_eq!(board.rooms[1].contents.len(), 0);

    // Re-entering B later applies no further effects.
    let r = player.act(&mut board, Command::Go("A".to_string()));
    assert_eq!(r, Ok(Outcome::Moved { room: 0, drained: vec![] }));
    let r = player.act(&mut board, Command::Go("B".to_string()));
    assert_eq!(r, Ok(Outcome::Moved { room: 1, drained: vec![] }));
    assert_eq!(player.gold, 10);

    // Shooting A from B resolves the neighbour but misses.
    let r = player.act(&mut board, Command::Shoot("a".to_string()));
    assert_eq!(r, Ok(Outcome::Miss { room: 0 }));
    assert!(!player.is_won());

    // Back in A, shooting B hits the wumpus and wins.
    let r = player.act(&mut board, Command::Go("a".to_string()));
    assert_eq!(r, Ok(Outcome::Moved { room: 0, drained: vec![] }));
    let r = player.act(&mut board, Command::Shoot("B".to_string()));
    assert_eq!(r, Ok(Outcome::Hit { room: 1 }));
    assert!(player.is_won());
    assert_eq!(board.rooms[1].wumpus, false);

    // A repeated shot at the same room is a miss and the win stands.
    let r = player.act(&mut board, Command::Shoot("B".to_string()));
    assert_eq!(r, Ok(Outcome::Miss { room: 1 }));
    assert!(player.is_won());
}

#[test]
fn unknown_room_changes_nothing() {
    let mut board = Board::build_board(TWO_ROOM_DOC, one_chest).unwrap();
    let mut player = Player::new(board.spawn_location());
    let r = player.act(&mut board, Command::Go("cellar".to_string()));
    assert_eq!(r, Err(ActionError::NoSuchRoom));
    let r = player.act(&mut board, Command::Shoot("cellar".to_string()));
    assert_eq!(r, Err(ActionError::NoSuchRoom));
    assert_eq!(player.location, 0);
    assert_eq!(player.hp, MAX_HP);
    assert_eq!(player.gold, 0);
    assert!(!player.is_won());
    assert_eq!(board.rooms[1].contents.len(), 1);
}

#[test]
fn use_curio_effects() {
    let mut player = Player::new(0);

    // A chest only pays out.
    player.use_curio(Curio::Chest(7));
    assert_eq!(player.gold, 7);
    assert_eq!(player.hp, 25);

    // Spikes only wound.
    player.use_curio(Curio::SpikeTrap(9));
    assert_eq!(player.hp, 16);
    assert_eq!(player.gold, 7);

    // Food heals by min(h, 25 - hp); the cap holds.
    player.use_curio(Curio::Food(4));
    assert_eq!(player.hp, 20);
    player.use_curio(Curio::Food(100));
    assert_eq!(player.hp, 25);

    // An iron maiden wounds first, then opens on its content.
    player.use_curio(Curio::IronMaiden(Box::new(Curio::Chest(3)), 6));
    assert_eq!(player.hp, 19);
    assert_eq!(player.gold, 10);

    // A fallen adventurer only passes its content on.
    player.use_curio(Curio::FallenAdventurer(Box::new(Curio::Food(2))));
    assert_eq!(player.hp, 21);
    assert_eq!(player.gold, 10);

    // hp has no floor: damage may drive it below zero.
    player.use_curio(Curio::SpikeTrap(100));
    assert_eq!(player.hp, -79);
}

#[test]
fn drain_is_reverse_of_insertion() {
    let doc = r#"{"rooms":[{"name":"A","curios":0},{"name":"B","curios":3}],"halls":[[0,1]]}"#;
    let gen = |n: u64| {
        let mut v = Vec::new();
        let mut i: i32 = 0;
        while (i as u64) < n {
            v.push(Curio::Chest(i + 1));
            i += 1;
        }
        v
    };
    let mut board = Board::build_board(doc, gen).unwrap();
    let mut player = Player::new(board.spawn_location());
    let r = player.act(&mut board, Command::Go("B".to_string()));
    // Contents were [Chest(1), Chest(2), Chest(3)]; the drain pops the most
    // recently added first.
    assert_eq!(
        r,
        Ok(Outcome::Moved {
            room: 1,
            drained: vec![Curio::Chest(3), Curio::Chest(2), Curio::Chest(1)]
        })
    );
    assert_eq!(player.gold, 6);
}

#[test]
fn parse_errors_name_the_fault() {
    assert_eq!(
        Board::build_board("not json", no_curios).unwrap_err(),
        ParseError::Document
    );
    assert_eq!(
        Board::build_board(r#"{"halls":[]}"#, no_curios).unwrap_err(),
        ParseError::Rooms
    );
    assert_eq!(
        Board::build_board(r#"{"rooms":[{"curios":1}],"halls":[]}"#, no_curios).unwrap_err(),
        ParseError::RoomName
    );
    assert_eq!(
        Board::build_board(r#"{"rooms":[{"name":"A"}],"halls":[]}"#, no_curios).unwrap_err(),
        ParseError::RoomCurios
    );
    assert_eq!(
        Board::build_board(r#"{"rooms":[{"name":"A","curios":0}]}"#, no_curios).unwrap_err(),
        ParseError::Halls
    );
    assert_eq!(
        Board::build_board(
            r#"{"rooms":[{"name":"A","curios":0}],"halls":[[0]]}"#,
            no_curios
        )
        .unwrap_err(),
        ParseError::HallShape
    );
    assert_eq!(
        Board::build_board(
            r#"{"rooms":[{"name":"A","curios":0}],"halls":[[0,"A"]]}"#,
            no_curios
        )
        .unwrap_err(),
        ParseError::HallEndpoint
    );
    assert_eq!(
        Board::build_board(
            r#"{"rooms":[{"name":"A","curios":0}],"halls":[[0,5]]}"#,
            no_curios
        )
        .unwrap_err(),
        ParseError::HallIndex
    );
}

#[test]
fn wumpus_defaults_to_false_on_bad_type() {
    let doc = r#"{"rooms":[{"name":"A","curios":0,"wumpus":3}],"halls":[]}"#;
    let board = Board::build_board(doc, no_curios).unwrap();
    assert_eq!(board.rooms[0].wumpus, false);
}

#[test]
fn neighbors_listing() {
    let mut board = Board::build_board(TWO_ROOM_DOC, one_chest).unwrap();
    assert_eq!(
        board.rooms[0].neighbors_string(&board, 0),
        "\n- to B contains Chest(10). Wumpus is in the room.\n"
    );
    assert_eq!(board.rooms[1].neighbors_string(&board, 1), "\n- to A.\n");
    board.rooms[1].contents.push(Curio::SpikeTrap(-3));
    assert_eq!(
        board.rooms[0].neighbors_string(&board, 0),
        "\n- to B contains Chest(10), SpikeTrap(-3). Wumpus is in the room.\n"
    );
}

#[test]
fn take_content_is_idempotent_when_empty() {
    let mut board = Board::build_board(TWO_ROOM_DOC, one_chest).unwrap();
    assert_eq!(board.rooms[1].take_content(), Some(Curio::Chest(10)));
    assert_eq!(board.rooms[1].take_content(), None);
    assert_eq!(board.rooms[1].take_content(), None);
}

#[test]
fn kill_wumpus_is_idempotent() {
    let mut board = Board::build_board(TWO_ROOM_DOC, no_curios).unwrap();
    board.rooms[1].kill_wumpus();
    assert_eq!(board.rooms[1].wumpus, false);
    board.rooms[1].kill_wumpus();
    assert_eq!(board.rooms[1].wumpus, false);
}

#[test]
fn message_holds_its_fields() {
    let m = dungeon::msg::Message::new("ana".to_string(), "hello".to_string());
    assert_eq!(m.user, "ana");
    assert_eq!(m.text, "hello");
}

#[test]
fn try_act_refuses_overflowing_drain() {
    let mut board = Board::build_board(TWO_ROOM_DOC, one_chest).unwrap();
    let mut player = Player::new(board.spawn_location());
    player.gold = i32::MAX;
    // The chest in B would push gold past i32::MAX; the checked entry point
    // refuses and leaves everything in place.
    let r = player.try_act(&mut board, Command::Go("B".to_string()));
    assert_eq!(r, None);
    assert_eq!(player.location, 0);
    assert_eq!(player.gold, i32::MAX);
    assert_eq!(board.rooms[1].contents.len(), 1);
    // A shot is never refused.
    let r = player.try_act(&mut board, Command::Shoot("B".to_string()));
    assert_eq!(r, Some(Ok(Outcome::Hit { room: 1 })));
}
