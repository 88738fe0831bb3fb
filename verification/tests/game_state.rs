use gamerooms::message::GameState;

const PLAYERS: [&str; 2] = ["player_a", "player_b"];

#[test]
fn init_game() {
    let game = GameState::default();
    assert_eq!(game.players.len(), 0);
    assert_eq!(game.board, [[-1, -1, -1], [-1, -1, -1], [-1, -1, -1]]);
    assert_eq!(game.turn, 0);
    assert_eq!(game.started, false);
    assert_eq!(game.winner, None);
}

#[test]
fn horizontal_win() {
    let mut game = GameState::default();
    game.players.extend(PLAYERS.iter().map(|s| s.to_string()));
    for row in 0..3 {
        for (i, player) in PLAYERS.iter().enumerate() {
            game.place_node(row, 0, &player.to_string());
            game.place_node(row, 1, &player.to_string());
            assert!(game.winner.is_none());
            game.place_node(row, 2, &player.to_string());
            assert_eq!(game.winner.unwrap_or(9i8), i as i8);

            game.reset_game();
        }
    }
}

#[test]
fn vertical_win() {
    let mut game = GameState::default();
    game.players.extend(PLAYERS.iter().map(|s| s.to_string()));
    for col in 0..3 {
        for (i, player) in PLAYERS.iter().enumerate() {
            game.place_node(0, col, &player.to_string());
            game.place_node(1, col, &player.to_string());
            assert!(game.winner.is_none());
            game.place_node(2, col, &player.to_string());
            assert_eq!(game.winner.unwrap_or(9i8), i as i8);

            game.reset_game();
        }
    }
}

#[test]
fn diagnal_win() {
    let mut game = GameState::default();
    game.players.extend(PLAYERS.iter().map(|s| s.to_string()));
    for (i, player) in PLAYERS.iter().enumerate() {
        game.place_node(0, 0, &player.to_string());
        game.place_node(1, 1, &player.to_string());
        assert!(game.winner.is_none());
        game.place_node(2, 2, &player.to_string());
        assert_eq!(game.winner.unwrap_or(9i8), i as i8);

        game.reset_game();

        game.place_node(2, 2, &player.to_string());
        game.place_node(1, 1, &player.to_string());
        assert!(game.winner.is_none());
        game.place_node(0, 0, &player.to_string());
        assert_eq!(game.winner.unwrap_or(9i8), i as i8);

        game.reset_game();
    }
}

#[test]
fn a_taken_cell_is_left_alone() {
    let mut game = GameState::default();
    game.players.extend(PLAYERS.iter().map(|s| s.to_string()));
    game.place_node(1, 1, &"player_a".to_string());
    game.place_node(1, 1, &"player_b".to_string());
    assert_eq!(game.board, [[-1, -1, -1], [-1, 0, -1], [-1, -1, -1]]);
    assert_eq!(game.winner, None);
    assert_eq!(game.turn, 0);
    assert_eq!(game.players.len(), 2);
    assert!(!game.started);
}

#[test]
fn a_taken_cell_asks_nothing_of_the_board_or_the_players() {
    // Nobody plays and the board is no square: the cell is taken, so neither
    // is looked at.
    let mut game = GameState::default();
    game.board = vec![vec![1], vec![-1, 0]];
    game.winner = Some(1);
    game.place_node(0, 0, &"anybody".to_string());
    game.place_node(1, 1, &"anybody".to_string());
    assert_eq!(game.board, vec![vec![1], vec![-1, 0]]);
    assert_eq!(game.winner, Some(1));
    assert!(game.players.is_empty());
}
