use gamerooms::delta::{DeltaError, GameStateDelta};
use gamerooms::message::GameState;

fn started_game() -> GameState {
    let mut game = GameState::default();
    game.players.push("alice".to_string());
    game.players.push("bob".to_string());
    game.started = true;
    game
}

#[test]
fn delta_of_equal_snapshots_is_empty() {
    let game = started_game();
    let delta = game.create_delta_towards(&game.clone());
    assert!(delta.players.is_none());
    assert!(delta.board.is_none());
    assert!(delta.winner.is_none());
    assert!(delta.turn.is_none());
    assert!(delta.started.is_none());
}

#[test]
fn delta_names_only_what_changed() {
    let before = started_game();
    let mut after = before.clone();
    after.place_node(1, 2, &"bob".to_string());
    after.turn = 1;
    let delta = before.create_delta_towards(&after);
    assert!(delta.players.is_none());
    assert_eq!(
        delta.board,
        Some(vec![vec![-1, -1, -1], vec![-1, -1, 1], vec![-1, -1, -1]])
    );
    assert_eq!(delta.winner, None);
    assert_eq!(delta.turn, Some(1));
    assert_eq!(delta.started, None);
}

#[test]
fn delta_round_trip() {
    let start = GameState::default();
    let mut end = started_game();
    end.place_node(0, 0, &"alice".to_string());
    end.place_node(1, 1, &"alice".to_string());
    end.place_node(2, 2, &"alice".to_string());
    end.turn = 1;
    assert_eq!(end.winner, Some(0));

    let mut patched = start.clone();
    patched.apply_patch(start.create_delta_towards(&end));
    assert_eq!(patched.players, end.players);
    assert_eq!(patched.board, end.board);
    assert_eq!(patched.winner, end.winner);
    assert_eq!(patched.turn, end.turn);
    assert_eq!(patched.started, end.started);

    // And back again: a winner that is taken away is a change too.
    let mut back = end.clone();
    back.apply_patch(end.create_delta_towards(&start));
    assert_eq!(back.players.len(), 0);
    assert_eq!(back.board, start.board);
    assert_eq!(back.winner, None);
    assert_eq!(back.turn, 0);
    assert_eq!(back.started, false);
}

#[test]
fn empty_patch_changes_nothing() {
    let mut game = started_game();
    game.apply_patch(GameStateDelta {
        players: None,
        board: None,
        winner: None,
        turn: None,
        started: None,
    });
    assert_eq!(game.players, vec!["alice".to_string(), "bob".to_string()]);
    assert_eq!(game.turn, 0);
    assert!(game.started);
}

#[test]
fn delta_encoding_is_exact() {
    let delta = GameStateDelta {
        players: None,
        board: None,
        winner: Some(Some(1)),
        turn: Some(1),
        started: None,
    };
    // One byte says whether a field is there; a winner says it twice.
    assert_eq!(delta.to_bytes(), Ok(vec![0, 0, 1, 1, 1, 1, 1, 0]));

    let names = GameStateDelta {
        players: Some(vec!["al".to_string()]),
        board: None,
        winner: None,
        turn: None,
        started: Some(true),
    };
    assert_eq!(
        names.to_bytes(),
        Ok(vec![1, 1, 0, 0, 0, 0, 0, 0, 0, 2, 0, 0, 0, 0, 0, 0, 0, b'a', b'l', 0, 0, 0, 1, 1])
    );
}

#[test]
fn delta_decoding_is_exact() {
    let delta = GameStateDelta::from_bytes(&[0, 0, 1, 0, 1, 7, 1, 0]).unwrap();
    assert_eq!(delta.players, None);
    assert_eq!(delta.board, None);
    assert_eq!(delta.winner, Some(None));
    assert_eq!(delta.turn, Some(7));
    assert_eq!(delta.started, Some(false));
}

#[test]
fn delta_survives_the_wire() {
    let before = GameState::default();
    let mut after = started_game();
    after.place_node(2, 0, &"bob".to_string());
    let bytes = before.create_delta_towards(&after).to_bytes().unwrap();
    let mut replica = GameState::default();
    replica.apply_patch(GameStateDelta::from_bytes(&bytes).unwrap());
    assert_eq!(replica.players, after.players);
    assert_eq!(replica.board, after.board);
    assert_eq!(replica.started, true);
}

#[test]
fn garbled_delta_is_refused() {
    assert_eq!(GameStateDelta::from_bytes(&[]).err(), Some(DeltaError::Decode));
    assert_eq!(GameStateDelta::from_bytes(&[7]).err(), Some(DeltaError::Decode));
    // A bool that is neither 0 nor 1.
    assert_eq!(
        GameStateDelta::from_bytes(&[0, 0, 0, 0, 1, 2]).err(),
        Some(DeltaError::Decode)
    );
    // A name that is cut short.
    assert_eq!(
        GameStateDelta::from_bytes(&[1, 1, 0, 0, 0, 0, 0, 0, 0, 9, 0, 0, 0, 0, 0, 0, 0, b'x'])
            .err(),
        Some(DeltaError::Decode)
    );
}

#[test]
fn differences_are_compared_by_what_they_change() {
    let before = GameState::default();
    let mut after = started_game();
    after.place_node(0, 2, &"alice".to_string());
    let one = before.create_delta_towards(&after);
    let other = before.create_delta_towards(&after.clone());
    assert!(one.same_as(&other));
    assert!(other.same_as(&one));

    let mut moved = after.clone();
    moved.turn = 1;
    assert!(!one.same_as(&before.create_delta_towards(&moved)));
    let mut renamed = after.clone();
    renamed.players[1] = "bobby".to_string();
    assert!(!one.same_as(&before.create_delta_towards(&renamed)));
    let mut marked = after.clone();
    marked.board[2][2] = 1;
    assert!(!one.same_as(&before.create_delta_towards(&marked)));
    // No change of the winner is not the change to no winner.
    let unset = GameStateDelta {
        players: None,
        board: None,
        winner: Some(None),
        turn: None,
        started: None,
    };
    let empty =
        GameStateDelta { players: None, board: None, winner: None, turn: None, started: None };
    assert!(!unset.same_as(&empty));
    assert!(empty.same_as(&empty));
}

#[test]
fn what_goes_on_the_wire_reads_back() {
    let before = GameState::default();
    let mut after = started_game();
    after.place_node(1, 0, &"bob".to_string());
    after.turn = 1;
    let delta = before.create_delta_towards(&after);
    let bytes = delta.to_wire().unwrap();
    assert_eq!(Ok(bytes.clone()), delta.to_bytes());
    assert!(GameStateDelta::from_bytes(&bytes).unwrap().same_as(&delta));
}
