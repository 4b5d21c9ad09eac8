use vstd::prelude::*;

use crate::uci::uci_move::UciMove;

verus! {

/// Search depth used when a caller does not ask for one.
pub const DEFAULT_SEARCH_DEPTH: u8 = 4;

/// Greatest search depth the composed engine supports.
pub const MAX_SEARCH_DEPTH: u8 = 8;

/// Default size of the transposition table, in megabytes.
pub const DEFAULT_TRANSPOSITION_TABLE_SIZE_MB: usize = 1024;

/// The root position from which a move history is applied.
#[derive(Clone, Debug, PartialEq, Eq)]
pub enum PositionBase {
    StartPos,
    Fen(String),
}

/// Settings for a composed engine session, fixed when it is built.
#[derive(Clone, Copy, Debug, PartialEq, Eq)]
pub struct EngineConfig {
    /// Transposition table allocation, in megabytes.
    pub transposition_table_size_mb: usize,
}

impl EngineConfig {
    /// Creates an engine configuration.
    pub fn new(transposition_table_size_mb: usize) -> (config: EngineConfig)
        ensures
            config.transposition_table_size_mb == transposition_table_size_mb,
    {
        EngineConfig { transposition_table_size_mb }
    }
}

/// The protocol-neutral constraints of a search.
#[derive(Clone, Copy, Debug, PartialEq, Eq)]
pub struct SearchRequest {
    /// Depth to search to, in plies.
    pub depth: Option<u8>,
}

impl Default for SearchRequest {
    fn default() -> (request: SearchRequest)
        ensures
            request.depth is None,
    {
        SearchRequest { depth: None }
    }
}

impl SearchRequest {
    /// A search request for a fixed depth.
    pub fn with_depth(depth: u8) -> (request: SearchRequest)
        ensures
            request.depth == Some(depth),
    {
        SearchRequest { depth: Some(depth) }
    }
}

/// The result of a completed engine search.
///
/// The best move is given in UCI notation; the elapsed time is in
/// milliseconds.
#[derive(Clone, Debug, PartialEq, Eq)]
pub struct SearchOutcome {
    /// Best move found, none when there is no legal move.
    pub best_move: Option<UciMove>,
    /// Completed search depth, in plies.
    pub depth: u8,
    /// Score of the position, in centipawns.
    pub score: i32,
    /// Number of nodes searched.
    pub nodes: u64,
    /// Time the search took.
    pub elapsed: u64,
}

/// The depth and clock constraints of one engine search.
///
/// Times are in milliseconds; the maximum depth is positive. A search stops at
/// whichever limit it reaches first.
#[derive(Clone, Copy, Debug, PartialEq, Eq)]
pub struct SearchLimits {
    /// Greatest depth to search, in plies.
    pub maximum_depth: u8,
    /// Fixed time allotted to this move.
    pub move_time: Option<u64>,
    /// Remaining white clock time.
    pub white_time: Option<u64>,
    /// Remaining black clock time.
    pub black_time: Option<u64>,
    /// White increment per move.
    pub white_increment: Option<u64>,
    /// Black increment per move.
    pub black_increment: Option<u64>,
    /// Moves until the next time control.
    pub moves_to_go: Option<u32>,
}

impl SearchLimits {
    /// An untimed search to at most `maximum_depth` plies.
    pub fn depth(maximum_depth: u8) -> (limits: SearchLimits)
        requires
            maximum_depth > 0,
        ensures
            limits == (SearchLimits {
                maximum_depth,
                move_time: None,
                white_time: None,
                black_time: None,
                white_increment: None,
                black_increment: None,
                moves_to_go: None,
            }),
    {
        SearchLimits {
            maximum_depth,
            move_time: None,
            white_time: None,
            black_time: None,
            white_increment: None,
            black_increment: None,
            moves_to_go: None,
        }
    }

    /// A search with a fixed time allotment, to the greatest supported depth.
    pub fn move_time(move_time: u64) -> (limits: SearchLimits)
        ensures
            limits == (SearchLimits {
                maximum_depth: MAX_SEARCH_DEPTH,
                move_time: Some(move_time),
                white_time: None,
                black_time: None,
                white_increment: None,
                black_increment: None,
                moves_to_go: None,
            }),
    {
        SearchLimits {
            maximum_depth: MAX_SEARCH_DEPTH,
            move_time: Some(move_time),
            white_time: None,
            black_time: None,
            white_increment: None,
            black_increment: None,
            moves_to_go: None,
        }
    }
}

} // verus!
