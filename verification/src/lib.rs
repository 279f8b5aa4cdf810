//! Engine for a terminal memory-matching game: a rectangular board of
//! face-down cards, each symbol on exactly two cells; the player reveals two
//! cells per turn and matched pairs stay discovered.
//!
//! The crate holds the verified core: the board and its coordinate indexing,
//! the random pairing of symbols to cells, the input parsers, and the state
//! machine that drives a game from the welcome screen to exit. Reading lines
//! from a terminal and drawing frames are left to the caller, which feeds
//! each raw input line to [`game::Game::set_input`] and then steps the
//! machine with [`game::Game::update`].

pub mod board;
pub mod discovered;
pub mod error;
pub mod game;
pub mod parse;
