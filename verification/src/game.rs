//! The engine: a finite state machine driving the turn sequence, the turn
//! bookkeeping, and the readers that turn raw input lines into dimensions,
//! coordinates and yes/no answers.

use vstd::prelude::*;
use crate::board::{
    appears_exactly_twice, cards_paired, lemma_index_roundtrip, lemma_lin_bounds, pair_positions,
    Board, Card, Idx2d, Vec2, MAX_CELLS,
};
use crate::discovered::{all_true, bits_of, count_trues, DiscoveredSet};
use crate::error::GameError;
use crate::parse::{parse_pair_bytes, parse_yn_bytes, spec_parse_pair, spec_parse_yn};

verus! {

/// The states of the game, one current value at any time.
#[derive(Clone, Copy, PartialEq, Eq, Structural, Debug)]
pub enum GameState {
    /// Show the welcome screen.
    Welcome,
    /// Prompt the user to set the size of the board.
    SetDimensions,
    /// Prompt the user to pick a card to reveal.
    Guess,
    /// Provide feedback about a correct guess.
    CorrectGuessConfirm,
    /// Provide feedback about an incorrect guess.
    IncorrectGuessConfirm,
    /// Show the stats and prompt for a replay answer.
    Victory,
    /// End the game.
    Exit,
}

/// The exact result of reading a line as board dimensions: the pair
/// grammar, then both components positive, the area within the alphabet's
/// reach, and the area even.
pub open spec fn spec_parse_dimensions(s: Seq<u8>) -> Result<Vec2, GameError> {
    match spec_parse_pair(s) {
        Err(e) => Err(e),
        Ok(p) => {
            if p.x <= 0 {
                Err(GameError::CoordinateUnderflow { axis: 'x' })
            } else if p.y <= 0 {
                Err(GameError::CoordinateUnderflow { axis: 'y' })
            } else if p.x * p.y > MAX_CELLS {
                Err(GameError::NotEnoughCardTypes { max: MAX_CELLS })
            } else if (p.x * p.y) % 2 != 0 {
                Err(GameError::OddBoardCells)
            } else {
                Ok(p)
            }
        },
    }
}

/// The exact result of reading a line as a card position: the pair
/// grammar, shifted from the user's 1-indexed form to 0-indexed, then
/// bounds-checked against the indexer.
pub open spec fn spec_parse_coords(s: Seq<u8>, idx: Idx2d) -> Result<Vec2, GameError> {
    match spec_parse_pair(s) {
        Err(e) => Err(e),
        Ok(p) => {
            if p.x <= 0 {
                Err(GameError::CoordinateUnderflow { axis: 'x' })
            } else if p.y <= 0 {
                Err(GameError::CoordinateUnderflow { axis: 'y' })
            } else {
                let c = Vec2 { x: (p.x - 1) as i32, y: (p.y - 1) as i32 };
                if c.x >= idx.size_x {
                    Err(GameError::CoordinateOverflow { axis: 'x', max: idx.size_x })
                } else if c.y >= idx.size_y {
                    Err(GameError::CoordinateOverflow { axis: 'y', max: idx.size_y })
                } else {
                    Ok(c)
                }
            }
        },
    }
}

/// Matched cells come in whole pairs: two cells showing the same card are
/// either both discovered or both hidden.
pub open spec fn pairs_inv(cards: Seq<Card>, bits: Seq<bool>) -> bool {
    forall|j1: int, j2: int|
        0 <= j1 < cards.len() && 0 <= j2 < cards.len() && j1 != j2 && #[trigger] cards[j1]
            == #[trigger] cards[j2] ==> (bits[j1] <==> bits[j2])
}

/// The guess counter grows by one, staying put at the top of its range.
pub open spec fn sat_inc(g: u64) -> u64 {
    if g == u64::MAX {
        g
    } else {
        (g + 1) as u64
    }
}

/// A card matching game.
pub struct Game {
    /// The game state.
    pub state: GameState,
    /// The last user input line, as bytes.
    pub user_input: Vec<u8>,
    /// Number of guesses by the user.
    pub guesses: u64,
    /// 2D-to-1D index converter utility.
    pub idx: Idx2d,
    /// The game board.
    pub board: Board,
    /// One flag per board cell; a set flag means the cell was matched.
    pub discovered: DiscoveredSet,
    /// The first card revealed by the user during the guessing phase.
    pub revealed1: Option<Vec2>,
    /// The second card revealed by the user during the guessing phase;
    /// always filled after `revealed1`.
    pub revealed2: Option<Vec2>,
    /// An error encountered during user input parsing.
    pub error: Option<GameError>,
}

impl Game {
    /// The discovered bits.
    pub open spec fn dbits(self) -> Seq<bool> {
        bits_of(self.discovered)
    }

    /// Whether a coordinate occupies one of the two revealed slots.
    pub open spec fn is_revealed_spec(self, c: Vec2) -> bool {
        self.revealed1 == Some(c) || self.revealed2 == Some(c)
    }

    /// A revealed slot holds a valid, not yet discovered coordinate.
    pub open spec fn slot_ok(self, c: Vec2) -> bool {
        &&& self.idx.in_bounds(c)
        &&& !self.dbits()[self.idx.lin(c)]
    }

    /// Whether every cell has been discovered.
    pub open spec fn all_discovered_spec(self) -> bool {
        all_true(self.dbits())
    }

    /// The engine's invariant: the board is well formed and mirrors the
    /// engine's indexer; the discovered bitmap covers the board and flips
    /// in whole pairs; the revealed slots hold distinct valid coordinates,
    /// filled in order, and only in the states that use them.
    pub open spec fn wf(self) -> bool {
        &&& self.board.wf()
        &&& self.board.idx == self.idx
        &&& self.idx.area() <= MAX_CELLS
        &&& self.dbits().len() == self.idx.area()
        &&& pairs_inv(self.board.cards@, self.dbits())
        &&& match self.revealed1 {
            Some(c) => self.slot_ok(c),
            None => true,
        }
        &&& match self.revealed2 {
            Some(c) => self.slot_ok(c),
            None => true,
        }
        &&& self.revealed2 is Some ==> self.revealed1 is Some
        &&& self.revealed1 is Some && self.revealed2 is Some ==> self.revealed1 != self.revealed2
        &&& match self.state {
            GameState::Guess => self.revealed2 is None,
            GameState::CorrectGuessConfirm => match (self.revealed1, self.revealed2) {
                (Some(r1), Some(r2)) => self.board.cards@[self.idx.lin(r1)]
                    == self.board.cards@[self.idx.lin(r2)],
                _ => false,
            },
            GameState::IncorrectGuessConfirm => self.revealed1 is Some && self.revealed2 is Some,
            _ => self.revealed1 is None && self.revealed2 is None,
        }
    }
}

/// Fields no step may touch unless it says so: the input line, the guess
/// counter, the indexer, the board, the bitmap, and the revealed slots.
pub open spec fn same_core(pre: Game, post: Game) -> bool {
    &&& post.user_input == pre.user_input
    &&& post.guesses == pre.guesses
    &&& post.idx == pre.idx
    &&& post.board == pre.board
    &&& post.discovered == pre.discovered
    &&& post.revealed1 == pre.revealed1
    &&& post.revealed2 == pre.revealed2
}

/// A failed step: the state machine stays put and only records the error.
pub open spec fn step_fail(pre: Game, post: Game, e: GameError) -> bool {
    &&& post.state == pre.state
    &&& post.error == Some(e)
    &&& same_core(pre, post)
}

/// From `Welcome` any input moves on to `SetDimensions`.
pub open spec fn step_welcome(pre: Game, post: Game) -> bool {
    &&& post.state == GameState::SetDimensions
    &&& post.error is None
    &&& same_core(pre, post)
}

/// From `SetDimensions`, accepted dimensions rebuild the indexer, a fresh
/// well-formed board of that size, and an all-clear bitmap, and enter
/// `Guess`; a rejected line records its error and stays.
pub open spec fn step_set_dimensions(pre: Game, post: Game) -> bool {
    match spec_parse_dimensions(pre.user_input@) {
        Err(e) => step_fail(pre, post, e),
        Ok(d) => {
            &&& post.state == GameState::Guess
            &&& post.error is None
            &&& post.idx == (Idx2d { size_x: d.x, size_y: d.y })
            &&& post.board.wf()
            &&& post.board.idx == post.idx
            &&& post.dbits() == Seq::new((d.x * d.y) as nat, |i: int| false)
            &&& post.revealed1 is None
            &&& post.revealed2 is None
            &&& post.user_input == pre.user_input
            &&& post.guesses == pre.guesses
        },
    }
}

/// From `Guess`: a rejected line records its error; a coordinate already
/// revealed or discovered records `AlreadyRevealed` in 1-indexed form; the
/// first fresh pick fills the first slot and stays in `Guess`; the second
/// fills the other slot and moves to the confirm state matching whether
/// the two cards are equal.
pub open spec fn step_guess(pre: Game, post: Game) -> bool {
    match spec_parse_coords(pre.user_input@, pre.idx) {
        Err(e) => step_fail(pre, post, e),
        Ok(c) => {
            if pre.is_revealed_spec(c) || pre.dbits()[pre.idx.lin(c)] {
                step_fail(
                    pre,
                    post,
                    GameError::AlreadyRevealed { x: (c.x + 1) as i32, y: (c.y + 1) as i32 },
                )
            } else if pre.revealed1 is None {
                &&& post.state == GameState::Guess
                &&& post.error is None
                &&& post.revealed1 == Some(c)
                &&& post.revealed2 is None
                &&& post.user_input == pre.user_input
                &&& post.guesses == pre.guesses
                &&& post.idx == pre.idx
                &&& post.board == pre.board
                &&& post.discovered == pre.discovered
            } else {
                &&& match pre.revealed1 {
                    Some(r1) => post.state == if pre.board.cards@[pre.idx.lin(r1)]
                        == pre.board.cards@[pre.idx.lin(c)] {
                        GameState::CorrectGuessConfirm
                    } else {
                        GameState::IncorrectGuessConfirm
                    },
                    None => false,
                }
                &&& post.error is None
                &&& post.revealed1 == pre.revealed1
                &&& post.revealed2 == Some(c)
                &&& post.user_input == pre.user_input
                &&& post.guesses == pre.guesses
                &&& post.idx == pre.idx
                &&& post.board == pre.board
                &&& post.discovered == pre.discovered
            }
        },
    }
}

/// The auto-advance after a correct guess: both revealed cells become
/// discovered, the guess counter grows, the slots clear, and the machine
/// lands in `Victory` exactly when every cell is now discovered.
pub open spec fn step_correct(pre: Game, post: Game) -> bool {
    match (pre.revealed1, pre.revealed2) {
        (Some(r1), Some(r2)) => {
            let bits2 = pre.dbits().update(pre.idx.lin(r1), true).update(pre.idx.lin(r2), true);
            &&& post.dbits() == bits2
            &&& post.guesses == sat_inc(pre.guesses)
            &&& post.revealed1 is None
            &&& post.revealed2 is None
            &&& post.error is None
            &&& post.state == if all_true(bits2) {
                GameState::Victory
            } else {
                GameState::Guess
            }
            &&& post.user_input == pre.user_input
            &&& post.idx == pre.idx
            &&& post.board == pre.board
        },
        _ => false,
    }
}

/// The auto-advance after an incorrect guess: nothing is discovered, the
/// guess counter grows, the slots clear, and the machine returns to
/// `Guess`, so both cells can be revealed again.
pub open spec fn step_incorrect(pre: Game, post: Game) -> bool {
    &&& post.state == GameState::Guess
    &&& post.error is None
    &&& post.guesses == sat_inc(pre.guesses)
    &&& post.revealed1 is None
    &&& post.revealed2 is None
    &&& post.user_input == pre.user_input
    &&& post.idx == pre.idx
    &&& post.board == pre.board
    &&& post.discovered == pre.discovered
}

/// From `Victory`: yes replays via `SetDimensions`, no ends the game, and
/// a rejected line records its error and stays.
pub open spec fn step_victory(pre: Game, post: Game) -> bool {
    match spec_parse_yn(pre.user_input@) {
        Ok(true) => {
            &&& post.state == GameState::SetDimensions
            &&& post.error is None
            &&& same_core(pre, post)
        },
        Ok(false) => {
            &&& post.state == GameState::Exit
            &&& post.error is None
            &&& same_core(pre, post)
        },
        Err(e) => step_fail(pre, post, e),
    }
}

/// `Exit` is terminal: the step only clears the error slot.
pub open spec fn step_exit(pre: Game, post: Game) -> bool {
    &&& post.state == pre.state
    &&& post.error is None
    &&& same_core(pre, post)
}

/// Discovering the two cells of one matched pair keeps the bitmap flipping
/// in whole pairs: the matched symbol's only two cells are exactly the two
/// being set.
proof fn lemma_pairs_after_match(cards: Seq<Card>, bits: Seq<bool>, i1: int, i2: int)
    requires
        bits.len() == cards.len(),
        cards_paired(cards),
        pairs_inv(cards, bits),
        0 <= i1 < cards.len(),
        0 <= i2 < cards.len(),
        i1 != i2,
        cards[i1] == cards[i2],
    ensures
        pairs_inv(cards, bits.update(i1, true).update(i2, true)),
{
    let nb = bits.update(i1, true).update(i2, true);
    let sym = cards[i1].0;
    assert(appears_exactly_twice(cards, sym));
    let (p1, p2) = choose|p1: int, p2: int| pair_positions(cards, sym, p1, p2);
    assert(pair_positions(cards, sym, p1, p2));
    assert forall|j1: int, j2: int|
        0 <= j1 < cards.len() && 0 <= j2 < cards.len() && j1 != j2 && #[trigger] cards[j1]
            == #[trigger] cards[j2] implies (nb[j1] <==> nb[j2]) by {
        if j1 == i1 || j1 == i2 || j2 == i1 || j2 == i2 {
            if j1 == i1 || j1 == i2 {
                assert(cards[j2].0 == sym);
                assert(j2 == p1 || j2 == p2);
                assert(i1 == p1 || i1 == p2);
                assert(i2 == p1 || i2 == p2);
                assert(j2 == i1 || j2 == i2);
            } else {
                assert(cards[j1].0 == sym);
                assert(j1 == p1 || j1 == p2);
                assert(i1 == p1 || i1 == p2);
                assert(i2 == p1 || i2 == p2);
                assert(j1 == i1 || j1 == i2);
            }
            assert(nb[j1] && nb[j2]);
        } else {
            assert(nb[j1] == bits[j1]);
            assert(nb[j2] == bits[j2]);
        }
    }
}

/// Two distinct valid coordinates have distinct linear indexes.
proof fn lemma_lin_injective(idx: Idx2d, a: Vec2, b: Vec2)
    requires
        idx.in_bounds(a),
        idx.in_bounds(b),
        a != b,
    ensures
        idx.lin(a) != idx.lin(b),
{
    lemma_index_roundtrip(idx, a);
    lemma_index_roundtrip(idx, b);
}

/// After the auto-advance that follows a correct guess, both revealed
/// cells are discovered, every other cell keeps its bit, the guess count
/// grows by one, and both slots are free again.
pub proof fn lemma_correct_guess_discovers(pre: Game, post: Game)
    requires
        pre.wf(),
        pre.state == GameState::CorrectGuessConfirm,
        step_correct(pre, post),
    ensures
        match (pre.revealed1, pre.revealed2) {
            (Some(r1), Some(r2)) => {
                &&& post.dbits()[pre.idx.lin(r1)]
                &&& post.dbits()[pre.idx.lin(r2)]
                &&& forall|j: int|
                    0 <= j < pre.dbits().len() && j != pre.idx.lin(r1) && j != pre.idx.lin(r2)
                        ==> post.dbits()[j] == pre.dbits()[j]
                &&& post.guesses == sat_inc(pre.guesses)
                &&& post.revealed1 is None
                &&& post.revealed2 is None
            },
            _ => false,
        },
{
    match (pre.revealed1, pre.revealed2) {
        (Some(r1), Some(r2)) => {
            lemma_lin_bounds(pre.idx, r1);
            lemma_lin_bounds(pre.idx, r2);
            lemma_lin_injective(pre.idx, r1, r2);
        },
        _ => {},
    }
}

/// After the auto-advance that follows an incorrect guess, nothing is
/// discovered, the guess count grows by one, the machine returns to
/// `Guess`, and both cells can be revealed again.
pub proof fn lemma_incorrect_guess_keeps(pre: Game, post: Game)
    requires
        pre.wf(),
        pre.state == GameState::IncorrectGuessConfirm,
        step_incorrect(pre, post),
    ensures
        post.dbits() == pre.dbits(),
        post.guesses == sat_inc(pre.guesses),
        post.revealed1 is None,
        post.revealed2 is None,
        post.state == GameState::Guess,
{
}

/// Once every cell is discovered, the auto-advance from
/// `CorrectGuessConfirm` lands in `Victory`, not `Guess`.
pub proof fn lemma_victory_on_full_board(pre: Game, post: Game)
    requires
        pre.wf(),
        pre.state == GameState::CorrectGuessConfirm,
        step_correct(pre, post),
        all_true(post.dbits()),
    ensures
        post.state == GameState::Victory,
{
}

impl Game {
    /// A fresh engine: welcome screen, empty board, clear counters.
    pub fn new() -> (r: Game)
        ensures
            r.wf(),
            r.state == GameState::Welcome,
            r.user_input@.len() == 0,
            r.guesses == 0,
            r.idx == (Idx2d { size_x: 0, size_y: 0 }),
            r.board.cards@.len() == 0,
            r.dbits().len() == 0,
            r.revealed1 is None,
            r.revealed2 is None,
            r.error is None,
    {
        Game {
            state: GameState::Welcome,
            user_input: Vec::new(),
            guesses: 0,
            idx: Idx2d::new(0, 0),
            board: Board::default(),
            discovered: DiscoveredSet::repeat(false, 0),
            revealed1: None,
            revealed2: None,
            error: None,
        }
    }

    /// Store the latest raw input line; nothing else changes.
    pub fn set_input(&mut self, line: Vec<u8>)
        ensures
            final(self).user_input == line,
            final(self).state == old(self).state,
            final(self).guesses == old(self).guesses,
            final(self).idx == old(self).idx,
            final(self).board == old(self).board,
            final(self).discovered == old(self).discovered,
            final(self).revealed1 == old(self).revealed1,
            final(self).revealed2 == old(self).revealed2,
            final(self).error == old(self).error,
            old(self).wf() ==> final(self).wf(),
    {
        self.user_input = line;
    }

    /// Whether the game is still running; false only in `Exit`.
    pub fn is_running(&self) -> (r: bool)
        ensures
            r == (self.state != GameState::Exit),
    {
        self.state != GameState::Exit
    }

    /// Attempt to parse a pair of numbers from the line. Accepts `x,y` and
    /// `x;y` formats with any amount of whitespace.
    pub fn parse_pair(s: &Vec<u8>) -> (r: Result<Vec2, GameError>)
        ensures
            r == spec_parse_pair(s@),
    {
        parse_pair_bytes(s)
    }

    /// Attempt to interpret the line as the size of the game board.
    pub fn parse_dimensions(&self, s: &Vec<u8>) -> (r: Result<Vec2, GameError>)
        ensures
            r == spec_parse_dimensions(s@),
    {
        let p = match Game::parse_pair(s) {
            Ok(p) => p,
            Err(e) => {
                return Err(e);
            },
        };
        if p.x <= 0 {
            return Err(GameError::CoordinateUnderflow { axis: 'x' });
        }
        if p.y <= 0 {
            return Err(GameError::CoordinateUnderflow { axis: 'y' });
        }
        proof {
            assert((p.x as int) * (p.y as int) < 0x4000000000000000) by (nonlinear_arith)
                requires
                    0 < p.x < 0x80000000,
                    0 < p.y < 0x80000000,
            ;
        }
        let prod: i64 = (p.x as i64) * (p.y as i64);
        if prod > MAX_CELLS as i64 {
            return Err(GameError::NotEnoughCardTypes { max: MAX_CELLS });
        }
        if prod % 2 != 0 {
            return Err(GameError::OddBoardCells);
        }
        Ok(p)
    }

    /// Attempt to interpret the line as the position of a card on the
    /// game board.
    pub fn parse_coords(&self, s: &Vec<u8>) -> (r: Result<Vec2, GameError>)
        requires
            self.idx.area() <= usize::MAX,
        ensures
            r == spec_parse_coords(s@, self.idx),
            r matches Ok(c) ==> self.idx.in_bounds(c),
    {
        let p = match Game::parse_pair(s) {
            Ok(p) => p,
            Err(e) => {
                return Err(e);
            },
        };
        if p.x <= 0 {
            return Err(GameError::CoordinateUnderflow { axis: 'x' });
        }
        if p.y <= 0 {
            return Err(GameError::CoordinateUnderflow { axis: 'y' });
        }
        let coords = Vec2 { x: p.x - 1, y: p.y - 1 };
        match self.idx.of(coords) {
            Ok(_) => Ok(coords),
            Err(e) => Err(e),
        }
    }

    /// Parse a yes/no response from the line. Defaults to no.
    pub fn parse_yn(&self, s: &Vec<u8>) -> (r: Result<bool, GameError>)
        ensures
            r == spec_parse_yn(s@),
    {
        parse_yn_bytes(s)
    }

    /// Mark a position as having been correctly matched.
    pub fn set_discovered(&mut self, c: Vec2)
        requires
            old(self).idx.in_bounds(c),
            old(self).idx.area() <= MAX_CELLS,
            old(self).dbits().len() == old(self).idx.area(),
        ensures
            final(self).dbits() == old(self).dbits().update(old(self).idx.lin(c), true),
            final(self).state == old(self).state,
            final(self).user_input == old(self).user_input,
            final(self).guesses == old(self).guesses,
            final(self).idx == old(self).idx,
            final(self).board == old(self).board,
            final(self).revealed1 == old(self).revealed1,
            final(self).revealed2 == old(self).revealed2,
            final(self).error == old(self).error,
    {
        proof {
            lemma_lin_bounds(self.idx, c);
        }
        let index = self.idx.unchecked(c);
        self.discovered.set(index, true);
    }

    /// Check if a given position has been correctly matched.
    pub fn is_discovered(&self, c: Vec2) -> (r: bool)
        requires
            self.idx.in_bounds(c),
            self.idx.area() <= MAX_CELLS,
            self.dbits().len() == self.idx.area(),
        ensures
            r == self.dbits()[self.idx.lin(c)],
    {
        proof {
            lemma_lin_bounds(self.idx, c);
        }
        let index = self.idx.unchecked(c);
        self.discovered.get(index)
    }

    /// Check if all cards have been correctly matched.
    pub fn all_discovered(&self) -> (r: bool)
        ensures
            r == self.all_discovered_spec(),
    {
        proof {
            crate::discovered::lemma_count_trues_all(self.dbits());
        }
        let ones = self.discovered.count_ones();
        let len = self.discovered.len();
        ones == len
    }

    /// Check if it's possible to reveal a card during the current guess
    /// phase.
    pub fn can_reveal(&self) -> (r: bool)
        ensures
            r == (self.revealed1 is None || self.revealed2 is None),
    {
        self.revealed1.is_none() || self.revealed2.is_none()
    }

    /// Check if the two cards revealed during the guess phase match.
    pub fn revealed_match(&self) -> (r: bool)
        requires
            self.board.wf(),
            self.board.idx == self.idx,
            match self.revealed1 {
                Some(r1) => self.idx.in_bounds(r1),
                None => false,
            },
            match self.revealed2 {
                Some(r2) => self.idx.in_bounds(r2),
                None => false,
            },
        ensures
            r == match (self.revealed1, self.revealed2) {
                (Some(r1), Some(r2)) => self.board.cards@[self.idx.lin(r1)]
                    == self.board.cards@[self.idx.lin(r2)],
                _ => false,
            },
    {
        let r1 = self.revealed1.unwrap();
        let r2 = self.revealed2.unwrap();
        let c1 = self.board.card_at(r1);
        let c2 = self.board.card_at(r2);
        c1 == c2
    }

    /// Mark a card as revealed during the guess phase, filling the first
    /// empty slot.
    pub fn set_revealed(&mut self, c: Vec2)
        ensures
            final(self).revealed1 == if old(self).revealed1 is None {
                Some(c)
            } else {
                old(self).revealed1
            },
            final(self).revealed2 == if old(self).revealed1 is None {
                old(self).revealed2
            } else {
                Some(c)
            },
            final(self).state == old(self).state,
            final(self).user_input == old(self).user_input,
            final(self).guesses == old(self).guesses,
            final(self).idx == old(self).idx,
            final(self).board == old(self).board,
            final(self).discovered == old(self).discovered,
            final(self).error == old(self).error,
    {
        if self.revealed1.is_none() {
            self.revealed1 = Some(c);
        } else {
            self.revealed2 = Some(c);
        }
    }

    /// Clear both revealed cards.
    pub fn clear_revealed(&mut self)
        ensures
            final(self).revealed1 is None,
            final(self).revealed2 is None,
            final(self).state == old(self).state,
            final(self).user_input == old(self).user_input,
            final(self).guesses == old(self).guesses,
            final(self).idx == old(self).idx,
            final(self).board == old(self).board,
            final(self).discovered == old(self).discovered,
            final(self).error == old(self).error,
    {
        self.revealed1 = None;
        self.revealed2 = None;
    }

    /// Check if a card at a given position has been revealed during the
    /// guessing phase.
    pub fn is_revealed(&self, c: Vec2) -> (r: bool)
        ensures
            r == self.is_revealed_spec(c),
    {
        let first = match self.revealed1 {
            Some(x) => x == c,
            None => false,
        };
        let second = match self.revealed2 {
            Some(x) => x == c,
            None => false,
        };
        first || second
    }

    /// Increment the number of guesses, saturating at the top of the
    /// counter's range.
    pub fn inc_guesses(&mut self)
        ensures
            final(self).guesses == sat_inc(old(self).guesses),
            final(self).state == old(self).state,
            final(self).user_input == old(self).user_input,
            final(self).idx == old(self).idx,
            final(self).board == old(self).board,
            final(self).discovered == old(self).discovered,
            final(self).revealed1 == old(self).revealed1,
            final(self).revealed2 == old(self).revealed2,
            final(self).error == old(self).error,
    {
        if self.guesses < u64::MAX {
            self.guesses = self.guesses + 1;
        }
    }

    /// How many pairs have been matched so far.
    pub fn correct_pairs(&self) -> (r: usize)
        ensures
            r == count_trues(self.dbits()) / 2,
    {
        self.discovered.count_ones() / 2
    }

    /// Attempt to create a new board from the latest user input and
    /// prepare for the game to begin.
    fn set_dimensions(&mut self) -> (r: Result<(), GameError>)
        requires
            old(self).wf(),
        ensures
            match spec_parse_dimensions(old(self).user_input@) {
                Ok(d) => {
                    &&& r is Ok
                    &&& final(self).idx == (Idx2d { size_x: d.x, size_y: d.y })
                    &&& final(self).board.wf()
                    &&& final(self).board.idx == final(self).idx
                    &&& final(self).dbits() == Seq::new((d.x * d.y) as nat, |i: int| false)
                    &&& final(self).state == old(self).state
                    &&& final(self).user_input == old(self).user_input
                    &&& final(self).guesses == old(self).guesses
                    &&& final(self).revealed1 == old(self).revealed1
                    &&& final(self).revealed2 == old(self).revealed2
                    &&& final(self).error == old(self).error
                },
                Err(e) => r == Err::<(), GameError>(e) && *final(self) == *old(self),
            },
    {
        let d = match self.parse_dimensions(&self.user_input) {
            Ok(d) => d,
            Err(e) => {
                return Err(e);
            },
        };
        let n64: i64 = (d.x as i64) * (d.y as i64);
        self.idx = Idx2d::new(d.x, d.y);
        self.discovered = DiscoveredSet::repeat(false, n64 as usize);
        let board = match Board::new(d.x, d.y) {
            Ok(b) => b,
            Err(e) => {
                return Err(e);
            },
        };
        self.board = board;
        Ok(())
    }

    /// Drive the state machine one step on the latest input line: the
    /// transition table of the engine. Exactly one of the step relations
    /// holds between the engine before and after, chosen by the old state.
    pub fn update(&mut self)
        requires
            old(self).wf(),
        ensures
            final(self).wf(),
            match old(self).state {
                GameState::Welcome => step_welcome(*old(self), *final(self)),
                GameState::SetDimensions => step_set_dimensions(*old(self), *final(self)),
                GameState::Guess => step_guess(*old(self), *final(self)),
                GameState::CorrectGuessConfirm => step_correct(*old(self), *final(self)),
                GameState::IncorrectGuessConfirm => step_incorrect(*old(self), *final(self)),
                GameState::Victory => step_victory(*old(self), *final(self)),
                GameState::Exit => step_exit(*old(self), *final(self)),
            },
    {
        self.error = None;
        match self.state {
            GameState::Welcome => {
                self.state = GameState::SetDimensions;
            },
            GameState::SetDimensions => {
                match self.set_dimensions() {
                    Ok(_) => {
                        self.state = GameState::Guess;
                    },
                    Err(e) => {
                        self.error = Some(e);
                    },
                }
            },
            GameState::Guess => {
                let c = match self.parse_coords(&self.user_input) {
                    Ok(c) => c,
                    Err(e) => {
                        self.error = Some(e);
                        return;
                    },
                };
                if self.is_revealed(c) || self.is_discovered(c) {
                    self.error = Some(GameError::AlreadyRevealed { x: c.x + 1, y: c.y + 1 });
                    return;
                }
                if self.can_reveal() {
                    self.set_revealed(c);
                }
                if !self.can_reveal() {
                    if self.revealed_match() {
                        self.state = GameState::CorrectGuessConfirm;
                    } else {
                        self.state = GameState::IncorrectGuessConfirm;
                    }
                }
            },
            GameState::CorrectGuessConfirm => {
                let r1 = self.revealed1.unwrap();
                let r2 = self.revealed2.unwrap();
                proof {
                    lemma_lin_injective(self.idx, r1, r2);
                    lemma_lin_bounds(self.idx, r1);
                    lemma_lin_bounds(self.idx, r2);
                    lemma_pairs_after_match(
                        self.board.cards@,
                        self.dbits(),
                        self.idx.lin(r1),
                        self.idx.lin(r2),
                    );
                }
                self.set_discovered(r1);
                self.set_discovered(r2);
                self.inc_guesses();
                self.clear_revealed();
                if self.all_discovered() {
                    self.state = GameState::Victory;
                } else {
                    self.state = GameState::Guess;
                }
            },
            GameState::IncorrectGuessConfirm => {
                self.inc_guesses();
                self.clear_revealed();
                self.state = GameState::Guess;
            },
            GameState::Victory => {
                match self.parse_yn(&self.user_input) {
                    Ok(true) => {
                        self.state = GameState::SetDimensions;
                    },
                    Ok(false) => {
                        self.state = GameState::Exit;
                    },
                    Err(e) => {
                        self.error = Some(e);
                    },
                }
            },
            GameState::Exit => {},
        }
    }
}

} // verus!
