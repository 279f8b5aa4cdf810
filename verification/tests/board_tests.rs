use pairs_game::board::{Board, Idx2d, Vec2};
use pairs_game::error::GameError;

#[test]
fn indexer_checked_and_unchecked_agree() {
    let idx = Idx2d::new(4, 3);
    assert_eq!(idx.of(Vec2 { x: 2, y: 1 }), Ok(6));
    assert_eq!(idx.unchecked(Vec2 { x: 2, y: 1 }), 6);
    assert_eq!(idx.of(Vec2 { x: 0, y: 0 }), Ok(0));
    assert_eq!(idx.of(Vec2 { x: 3, y: 2 }), Ok(11));
}

#[test]
fn indexer_rejects_out_of_range() {
    let idx = Idx2d::new(4, 3);
    assert_eq!(
        idx.of(Vec2 { x: -1, y: 0 }),
        Err(GameError::CoordinateUnderflow { axis: 'x' })
    );
    assert_eq!(
        idx.of(Vec2 { x: 0, y: -1 }),
        Err(GameError::CoordinateUnderflow { axis: 'y' })
    );
    assert_eq!(
        idx.of(Vec2 { x: 4, y: 0 }),
        Err(GameError::CoordinateOverflow { axis: 'x', max: 4 })
    );
    assert_eq!(
        idx.of(Vec2 { x: 0, y: 3 }),
        Err(GameError::CoordinateOverflow { axis: 'y', max: 3 })
    );
}

#[test]
fn indexer_round_trip_over_whole_board() {
    let idx = Idx2d::new(5, 4);
    let all = idx.iter_all();
    assert_eq!(all.len(), 20);
    for y in 0..4 {
        for x in 0..5 {
            let c = Vec2 { x, y };
            let i = idx.unchecked(c);
            assert_eq!(all[i], c);
        }
    }
}

#[test]
fn iter_all_is_row_major() {
    let idx = Idx2d::new(3, 2);
    let all = idx.iter_all();
    let expected = vec![
        Vec2 { x: 0, y: 0 },
        Vec2 { x: 1, y: 0 },
        Vec2 { x: 2, y: 0 },
        Vec2 { x: 0, y: 1 },
        Vec2 { x: 1, y: 1 },
        Vec2 { x: 2, y: 1 },
    ];
    assert_eq!(all, expected);
}

#[test]
fn iter_all_of_empty_indexer_is_empty() {
    let idx = Idx2d::new(0, 0);
    assert_eq!(idx.iter_all().len(), 0);
}

#[test]
fn board_uses_each_symbol_exactly_twice() {
    let board = Board::new(4, 4).unwrap();
    assert_eq!(board.cards.len(), 16);
    let mut counts = [0usize; 8];
    for card in &board.cards {
        assert!((card.0 as usize) < 8, "symbol outside the first area/2");
        counts[card.0 as usize] += 1;
    }
    for (sym, count) in counts.iter().enumerate() {
        assert_eq!(*count, 2, "symbol {} does not appear exactly twice", sym);
    }
}

#[test]
fn largest_board_pairs_every_symbol() {
    let board = Board::new(11, 10).unwrap();
    assert_eq!(board.cards.len(), 110);
    let mut counts = [0usize; 55];
    for card in &board.cards {
        assert!((card.0 as usize) < 55);
        counts[card.0 as usize] += 1;
    }
    for count in counts.iter() {
        assert_eq!(*count, 2);
    }
}

#[test]
fn default_board_is_empty() {
    let board = Board::default();
    assert_eq!(board.cards.len(), 0);
    assert_eq!(board.idx, Idx2d::new(0, 0));
}
