pub mod error;
pub mod moves;
pub mod task;
pub mod types;

pub use error::EngineError;
pub use moves::{checked_search_depth, find_legal_move, requested_move_matches};
pub use task::{SearchCompletion, SearchTaskId, SearchTasks};
pub use types::{
    EngineConfig, PositionBase, SearchLimits, SearchOutcome, SearchRequest, DEFAULT_SEARCH_DEPTH,
    DEFAULT_TRANSPOSITION_TABLE_SIZE_MB, MAX_SEARCH_DEPTH,
};
