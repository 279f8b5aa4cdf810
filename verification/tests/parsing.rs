use pairs_game::board::Vec2;
use pairs_game::error::GameError;
use pairs_game::game::Game;

fn bytes(s: &str) -> Vec<u8> {
    s.as_bytes().to_vec()
}

#[test]
fn pair_accepts_comma_and_semicolon() {
    assert_eq!(Game::parse_pair(&bytes("4,4")), Ok(Vec2 { x: 4, y: 4 }));
    assert_eq!(Game::parse_pair(&bytes("4;7")), Ok(Vec2 { x: 4, y: 7 }));
    assert_eq!(Game::parse_pair(&bytes(" 12 , -3 ")), Ok(Vec2 { x: 12, y: -3 }));
    assert_eq!(Game::parse_pair(&bytes("+4,+5")), Ok(Vec2 { x: 4, y: 5 }));
}

#[test]
fn pair_takes_first_two_fields() {
    assert_eq!(Game::parse_pair(&bytes("1,2,3")), Ok(Vec2 { x: 1, y: 2 }));
    assert_eq!(Game::parse_pair(&bytes("1;2;9")), Ok(Vec2 { x: 1, y: 2 }));
}

#[test]
fn pair_rejects_empty_input() {
    assert_eq!(Game::parse_pair(&bytes("")), Err(GameError::EmptyInput));
    assert_eq!(Game::parse_pair(&bytes("   \n")), Err(GameError::EmptyInput));
}

#[test]
fn pair_rejects_wrong_shapes() {
    assert_eq!(Game::parse_pair(&bytes("4")), Err(GameError::UnparsableInput));
    assert_eq!(Game::parse_pair(&bytes("a,b")), Err(GameError::UnparsableInput));
    assert_eq!(Game::parse_pair(&bytes("4,")), Err(GameError::UnparsableInput));
    assert_eq!(Game::parse_pair(&bytes(",4")), Err(GameError::UnparsableInput));
    assert_eq!(Game::parse_pair(&bytes("1 2")), Err(GameError::UnparsableInput));
}

#[test]
fn pair_handles_i32_limits() {
    assert_eq!(
        Game::parse_pair(&bytes("2147483647,1")),
        Ok(Vec2 { x: 2147483647, y: 1 })
    );
    assert_eq!(
        Game::parse_pair(&bytes("-2147483648,1")),
        Ok(Vec2 { x: -2147483648, y: 1 })
    );
    assert_eq!(Game::parse_pair(&bytes("2147483648,1")), Err(GameError::UnparsableInput));
    assert_eq!(Game::parse_pair(&bytes("1,-2147483649")), Err(GameError::UnparsableInput));
    assert_eq!(
        Game::parse_pair(&bytes("0000000000000000007,8")),
        Ok(Vec2 { x: 7, y: 8 })
    );
}

#[test]
fn dimensions_accept_four_by_four() {
    let g = Game::new();
    assert_eq!(g.parse_dimensions(&bytes("4,4")), Ok(Vec2 { x: 4, y: 4 }));
}

#[test]
fn dimensions_reject_odd_area() {
    let g = Game::new();
    assert_eq!(g.parse_dimensions(&bytes("3,3")), Err(GameError::OddBoardCells));
}

#[test]
fn dimensions_reject_non_positive_axis() {
    let g = Game::new();
    assert_eq!(
        g.parse_dimensions(&bytes("1,0")),
        Err(GameError::CoordinateUnderflow { axis: 'y' })
    );
    assert_eq!(
        g.parse_dimensions(&bytes("0,4")),
        Err(GameError::CoordinateUnderflow { axis: 'x' })
    );
    assert_eq!(
        g.parse_dimensions(&bytes("-2,4")),
        Err(GameError::CoordinateUnderflow { axis: 'x' })
    );
}

#[test]
fn dimensions_reject_area_beyond_alphabet() {
    let g = Game::new();
    assert_eq!(
        g.parse_dimensions(&bytes("15,8")),
        Err(GameError::NotEnoughCardTypes { max: 110 })
    );
    assert_eq!(
        g.parse_dimensions(&bytes("100000,100000")),
        Err(GameError::NotEnoughCardTypes { max: 110 })
    );
    assert_eq!(g.parse_dimensions(&bytes("11,10")), Ok(Vec2 { x: 11, y: 10 }));
}

#[test]
fn yes_no_grammar() {
    let g = Game::new();
    assert_eq!(g.parse_yn(&bytes("y")), Ok(true));
    assert_eq!(g.parse_yn(&bytes("Y")), Ok(true));
    assert_eq!(g.parse_yn(&bytes("N")), Ok(false));
    assert_eq!(g.parse_yn(&bytes("n")), Ok(false));
    assert_eq!(g.parse_yn(&bytes("")), Ok(false));
    assert_eq!(g.parse_yn(&bytes(" \n")), Ok(false));
    assert_eq!(g.parse_yn(&bytes(" y \n")), Ok(true));
    assert_eq!(g.parse_yn(&bytes("maybe")), Err(GameError::UnparsableInput));
}
