pub mod adapter;
pub mod command;
pub mod game;
pub mod number;
pub mod parse_error;
pub mod position;
pub mod response;
pub mod search_limits;
pub mod text;
pub mod uci_move;

pub use adapter::UciAdapter;
pub use command::Command;
pub use parse_error::{ParseError, ParseFailure};
pub use position::{BasePosition, PositionCommand};
pub use response::{SearchInfo, SearchResult};
pub use search_limits::SearchLimits;
pub use uci_move::UciMove;
