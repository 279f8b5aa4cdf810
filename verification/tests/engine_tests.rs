use pairs_game::board::Vec2;
use pairs_game::error::GameError;
use pairs_game::game::{Game, GameState};

fn bytes(s: &str) -> Vec<u8> {
    s.as_bytes().to_vec()
}

/// Drive a fresh engine to the guess phase on a board of the given size.
fn engine_in_guess(dims: &str) -> Game {
    let mut g = Game::new();
    assert_eq!(g.state, GameState::Welcome);
    g.set_input(bytes("\n"));
    g.update();
    assert_eq!(g.state, GameState::SetDimensions);
    g.set_input(bytes(dims));
    g.update();
    assert_eq!(g.state, GameState::Guess);
    g
}

/// The 0-indexed coordinate of a linear cell index.
fn coord_of(i: usize, width: i32) -> Vec2 {
    Vec2 { x: (i as i32) % width, y: (i as i32) / width }
}

/// The 1-indexed input line picking a 0-indexed coordinate.
fn pick(c: Vec2) -> Vec<u8> {
    format!("{},{}", c.x + 1, c.y + 1).into_bytes()
}

/// Two cells of the board sharing a card, as 0-indexed coordinates.
fn matching_pair(g: &Game, width: i32) -> (Vec2, Vec2) {
    for i in 0..g.board.cards.len() {
        for j in (i + 1)..g.board.cards.len() {
            if g.board.cards[i] == g.board.cards[j] {
                return (coord_of(i, width), coord_of(j, width));
            }
        }
    }
    panic!("no matching pair on the board");
}

/// Two cells of the board with different cards, as 0-indexed coordinates.
fn mismatched_pair(g: &Game, width: i32) -> (Vec2, Vec2) {
    for i in 0..g.board.cards.len() {
        for j in (i + 1)..g.board.cards.len() {
            if g.board.cards[i] != g.board.cards[j] {
                return (coord_of(i, width), coord_of(j, width));
            }
        }
    }
    panic!("no mismatched cells on the board");
}

#[test]
fn coordinate_parsing_on_four_by_four() {
    let g = engine_in_guess("4,4");
    assert_eq!(g.parse_coords(&bytes("1,1")), Ok(Vec2 { x: 0, y: 0 }));
    assert_eq!(
        g.parse_coords(&bytes("5,1")),
        Err(GameError::CoordinateOverflow { axis: 'x', max: 4 })
    );
    assert_eq!(
        g.parse_coords(&bytes("0,1")),
        Err(GameError::CoordinateUnderflow { axis: 'x' })
    );
    assert_eq!(
        g.parse_coords(&bytes("1,5")),
        Err(GameError::CoordinateOverflow { axis: 'y', max: 4 })
    );
}

#[test]
fn set_dimensions_failure_keeps_state_and_records_error() {
    let mut g = Game::new();
    g.set_input(bytes("\n"));
    g.update();
    assert_eq!(g.state, GameState::SetDimensions);
    g.set_input(bytes("3,3"));
    g.update();
    assert_eq!(g.state, GameState::SetDimensions);
    assert_eq!(g.error, Some(GameError::OddBoardCells));
    g.set_input(bytes(""));
    g.update();
    assert_eq!(g.error, Some(GameError::EmptyInput));
    g.set_input(bytes("2,2"));
    g.update();
    assert_eq!(g.state, GameState::Guess);
    assert_eq!(g.error, None);
}

#[test]
fn revealing_same_coordinate_twice_is_already_revealed() {
    let mut g = engine_in_guess("4,4");
    g.set_input(pick(Vec2 { x: 0, y: 0 }));
    g.update();
    assert_eq!(g.state, GameState::Guess);
    assert_eq!(g.revealed1, Some(Vec2 { x: 0, y: 0 }));
    assert_eq!(g.revealed2, None);
    g.set_input(pick(Vec2 { x: 0, y: 0 }));
    g.update();
    assert_eq!(g.error, Some(GameError::AlreadyRevealed { x: 1, y: 1 }));
    assert_eq!(g.state, GameState::Guess);
    assert_eq!(g.revealed1, Some(Vec2 { x: 0, y: 0 }));
    assert_eq!(g.revealed2, None);
}

#[test]
fn matching_guess_discovers_both_cells_and_counts_once() {
    let mut g = engine_in_guess("4,4");
    let (a, b) = matching_pair(&g, 4);
    g.set_input(pick(a));
    g.update();
    g.set_input(pick(b));
    g.update();
    assert_eq!(g.state, GameState::CorrectGuessConfirm);
    assert_eq!(g.guesses, 0);
    g.update();
    assert_eq!(g.state, GameState::Guess);
    assert_eq!(g.guesses, 1);
    assert!(g.is_discovered(a));
    assert!(g.is_discovered(b));
    assert_eq!(g.revealed1, None);
    assert_eq!(g.revealed2, None);
    assert_eq!(g.correct_pairs(), 1);
}

#[test]
fn revealing_discovered_cell_is_already_revealed() {
    let mut g = engine_in_guess("4,4");
    let (a, b) = matching_pair(&g, 4);
    g.set_input(pick(a));
    g.update();
    g.set_input(pick(b));
    g.update();
    g.update();
    g.set_input(pick(a));
    g.update();
    assert_eq!(
        g.error,
        Some(GameError::AlreadyRevealed { x: a.x + 1, y: a.y + 1 })
    );
}

#[test]
fn mismatched_guess_discovers_nothing_and_cells_stay_revealable() {
    let mut g = engine_in_guess("4,4");
    let (a, b) = mismatched_pair(&g, 4);
    g.set_input(pick(a));
    g.update();
    g.set_input(pick(b));
    g.update();
    assert_eq!(g.state, GameState::IncorrectGuessConfirm);
    g.update();
    assert_eq!(g.state, GameState::Guess);
    assert_eq!(g.guesses, 1);
    assert!(!g.is_discovered(a));
    assert!(!g.is_discovered(b));
    assert_eq!(g.revealed1, None);
    assert_eq!(g.revealed2, None);
    assert_eq!(g.correct_pairs(), 0);
    g.set_input(pick(a));
    g.update();
    assert_eq!(g.error, None);
    assert_eq!(g.revealed1, Some(a));
}

#[test]
fn unparsable_guess_keeps_state() {
    let mut g = engine_in_guess("2,2");
    g.set_input(bytes("nonsense"));
    g.update();
    assert_eq!(g.state, GameState::Guess);
    assert_eq!(g.error, Some(GameError::UnparsableInput));
}

#[test]
fn full_game_reaches_victory_and_exit() {
    let mut g = Game::new();
    assert_eq!(g.state, GameState::Welcome);
    assert!(g.is_running());
    g.set_input(bytes("anything at all"));
    g.update();
    assert_eq!(g.state, GameState::SetDimensions);
    g.set_input(bytes("2,2"));
    g.update();
    assert_eq!(g.state, GameState::Guess);
    assert_eq!(g.board.cards.len(), 4);
    let mut counts = [0usize; 2];
    for card in &g.board.cards {
        assert!((card.0 as usize) < 2);
        counts[card.0 as usize] += 1;
    }
    assert_eq!(counts, [2, 2]);

    let (a, b) = matching_pair(&g, 2);
    g.set_input(pick(a));
    g.update();
    g.set_input(pick(b));
    g.update();
    assert_eq!(g.state, GameState::CorrectGuessConfirm);
    g.update();
    assert_eq!(g.state, GameState::Guess);

    // The two remaining cells are the other pair.
    let mut rest: Vec<Vec2> = Vec::new();
    for i in 0..4 {
        let c = coord_of(i, 2);
        if !g.is_discovered(c) {
            rest.push(c);
        }
    }
    assert_eq!(rest.len(), 2);
    g.set_input(pick(rest[0]));
    g.update();
    g.set_input(pick(rest[1]));
    g.update();
    assert_eq!(g.state, GameState::CorrectGuessConfirm);
    g.update();
    assert_eq!(g.state, GameState::Victory);
    assert_eq!(g.guesses, 2);
    assert_eq!(g.correct_pairs(), 2);

    g.set_input(bytes("n"));
    g.update();
    assert_eq!(g.state, GameState::Exit);
    assert!(!g.is_running());
}

#[test]
fn victory_replay_rebuilds_board() {
    let mut g = engine_in_guess("2,2");
    let (a, b) = matching_pair(&g, 2);
    g.set_input(pick(a));
    g.update();
    g.set_input(pick(b));
    g.update();
    g.update();
    let (c, d) = matching_pair_among_hidden(&g);
    g.set_input(pick(c));
    g.update();
    g.set_input(pick(d));
    g.update();
    g.update();
    assert_eq!(g.state, GameState::Victory);

    // An answer outside the grammar stays put and records the error.
    g.set_input(bytes("maybe"));
    g.update();
    assert_eq!(g.state, GameState::Victory);
    assert_eq!(g.error, Some(GameError::UnparsableInput));

    // Yes replays: dimensions are asked again, and a new board is dealt.
    g.set_input(bytes("y"));
    g.update();
    assert_eq!(g.state, GameState::SetDimensions);
    g.set_input(bytes("4,4"));
    g.update();
    assert_eq!(g.state, GameState::Guess);
    assert_eq!(g.board.cards.len(), 16);
    assert_eq!(g.correct_pairs(), 0);
    // Guesses accumulate across games.
    assert_eq!(g.guesses, 2);
}

/// The two undiscovered cells of an almost-finished 2x2 board.
fn matching_pair_among_hidden(g: &Game) -> (Vec2, Vec2) {
    let mut rest: Vec<Vec2> = Vec::new();
    for i in 0..4 {
        let c = Vec2 { x: (i as i32) % 2, y: (i as i32) / 2 };
        if !g.is_discovered(c) {
            rest.push(c);
        }
    }
    assert_eq!(rest.len(), 2);
    (rest[0], rest[1])
}

#[test]
fn welcome_ignores_input_and_clears_nothing_else() {
    let mut g = Game::new();
    assert_eq!(g.guesses, 0);
    assert_eq!(g.error, None);
    g.set_input(bytes("2,2"));
    g.update();
    assert_eq!(g.state, GameState::SetDimensions);
    assert_eq!(g.guesses, 0);
}
