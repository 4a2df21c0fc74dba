//! The engine as its host uses it.

use vstd::prelude::*;
use crate::board::{input_board, input_error, Board, BoardView};
use crate::config::{preset, AIConfig};
use crate::eval::{MAX_CELL_SCORE, MAX_HAND_SCORE};
use crate::search::{best_move_of, find_best_move, fits_with};
use crate::tt::MEGABYTE;
use crate::types::{EngineError, GameStateInput, MoveOutput};
use crate::zobrist::MAX_HASH_SIZE;

verus! {

/// The shallowest search that `set_depth` sets.
pub const MIN_DEPTH: u8 = 1;

/// The deepest search that `set_depth` sets.
pub const MAX_DEPTH: u8 = 8;

/// The engine as its host sees it: a configuration and the search behind it.
pub struct Engine {
    config: AIConfig,
}

/// Whether the engine can search a position with a configuration: the board
/// has at most nine rows, the table's size in bytes is a `usize`, and no
/// score that the search can meet overflows an `i32`.
pub open spec fn searchable(b: BoardView, cfg: AIConfig) -> bool {
    &&& b.size() <= MAX_HASH_SIZE
    &&& cfg.tt_size_mb * MEGABYTE <= usize::MAX
    &&& fits_with(b, cfg.max_depth + cfg.qsearch_depth)
}

/// The answer of the engine to a request: the error of an input that is
/// refused, `PositionTooLarge` for a position that cannot be searched, and
/// else what the search finds for the side to move.
pub open spec fn answer(state: &GameStateInput, cfg: AIConfig) -> Result<MoveOutput, EngineError> {
    match input_error(state) {
        Some(e) => Err(e),
        None => if !searchable(input_board(state), cfg) {
            Err(EngineError::PositionTooLarge)
        } else {
            match best_move_of(input_board(state), state.current_player, cfg) {
                Ok(m) => Ok(
                    MoveOutput {
                        from: m.from,
                        to: m.to,
                        piece_type: m.piece_type,
                        promoted: m.promoted,
                        promotion: m.promotion,
                    },
                ),
                Err(e) => Err(e),
            }
        },
    }
}

impl View for Engine {
    type V = AIConfig;

    /// The configuration in use.
    closed spec fn view(&self) -> AIConfig {
        self.config
    }
}

/// Whether the engine can search the position with the configuration.
fn can_search(board: &Board, config: &AIConfig) -> (ok: bool)
    requires
        board@.well_formed(),
    ensures
        ok == searchable(board@, *config),
{
    let n = board.size();
    if n > MAX_HASH_SIZE {
        return false;
    }
    if config.tt_size_mb > usize::MAX / MEGABYTE {
        assert(config.tt_size_mb * MEGABYTE > usize::MAX) by (nonlinear_arith)
            requires
                config.tt_size_mb > usize::MAX / MEGABYTE,
                MEGABYTE == 1048576,
        ;
        return false;
    }
    assert(config.tt_size_mb * MEGABYTE <= usize::MAX) by (nonlinear_arith)
        requires
            config.tt_size_mb <= usize::MAX / MEGABYTE,
            MEGABYTE == 1048576,
    ;
    let row_worth: u128 = (n as u128) * (MAX_CELL_SCORE as u128);
    assert((n as u128) * row_worth <= 9 * 904_500) by (nonlinear_arith)
        requires
            n <= 9,
            row_worth <= 904_500,
    ;
    let cells: u128 = (n as u128) * row_worth;
    let in_hand: u128 = board.hands[0].len() as u128 + board.hands[1].len() as u128
        + config.max_depth as u128 + config.qsearch_depth as u128;
    let hand_worth: u128 = MAX_HAND_SCORE as u128;
    assert(in_hand * hand_worth <= 0x2_0000_0000_0000_0200 * 50_000) by (nonlinear_arith)
        requires
            in_hand <= 0x2_0000_0000_0000_0200,
            hand_worth == 50_000,
    ;
    let total: u128 = cells + in_hand * hand_worth;
    total <= i32::MAX as u128
}

impl Engine {
    /// An engine of the given strength level (1 to 6).
    pub fn new(level: u8) -> (engine: Self)
        ensures
            engine@ == preset(level),
    {
        Engine { config: AIConfig::from_level(level) }
    }

    /// Takes the preset of a strength level (1 to 6).
    pub fn set_level(&mut self, level: u8)
        ensures
            final(self)@ == preset(level),
    {
        self.config = AIConfig::from_level(level);
    }

    /// The strength level.
    pub fn get_level(&self) -> (level: u8)
        ensures
            level == self@.level,
    {
        self.config.level
    }

    /// Sets the search depth, brought into the range from `MIN_DEPTH` to
    /// `MAX_DEPTH`; the rest of the configuration stays.
    pub fn set_depth(&mut self, depth: u8)
        ensures
            final(self)@ == (AIConfig {
                max_depth: if depth < MIN_DEPTH {
                    MIN_DEPTH
                } else if depth > MAX_DEPTH {
                    MAX_DEPTH
                } else {
                    depth
                },
                ..old(self)@
            }),
    {
        let clamped = if depth < MIN_DEPTH {
            MIN_DEPTH
        } else if depth > MAX_DEPTH {
            MAX_DEPTH
        } else {
            depth
        };
        self.config.max_depth = clamped;
    }

    /// The search depth.
    pub fn get_depth(&self) -> (depth: u8)
        ensures
            depth == self@.max_depth,
    {
        self.config.max_depth
    }

    /// The move that the engine plays in the position that `state` describes.
    pub fn best_move(&self, state: &GameStateInput) -> (res: Result<MoveOutput, EngineError>)
        ensures
            res == answer(state, self@),
    {
        let board = match Board::from_game_state(state) {
            Ok(b) => b,
            Err(e) => {
                return Err(e);
            },
        };
        if !can_search(&board, &self.config) {
            return Err(EngineError::PositionTooLarge);
        }
        match find_best_move(&board, state.current_player, &self.config) {
            Ok(m) => Ok(MoveOutput::from_move(&m)),
            Err(e) => Err(e),
        }
    }
}

} // verus!
