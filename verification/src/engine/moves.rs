use vstd::prelude::*;

use crate::engine::error::EngineError;
use crate::uci::uci_move::UciMove;

verus! {

/// Returns whether the generated legal move `legal_move` is the move a caller
/// asked for.
///
/// A caller cannot give the castling and en-passant flags that coordinate
/// notation leaves out, so two moves match when they go between the same
/// squares and either both promote to the same piece or neither promotes:
/// when their texts in UCI notation are the same.
pub fn requested_move_matches(legal_move: &UciMove, requested_move: &UciMove) -> (matches: bool)
    ensures
        matches == (legal_move@ == requested_move@),
{
    legal_move.same(requested_move)
}

/// The message of the error for a move that is not legal.
pub open spec fn illegal_move_message() -> Seq<char> {
    "illegal move"@
}

/// Returns the first of `legal_moves` that matches `requested_move`, or the
/// error for an illegal move when none does.
pub fn find_legal_move(legal_moves: &[UciMove], requested_move: &UciMove) -> (found: Result<
    UciMove,
    EngineError,
>)
    ensures
        match found {
            Ok(m) => m@ == requested_move@ && exists|i: int|
                0 <= i < legal_moves@.len() && #[trigger] legal_moves@[i]@ == requested_move@,
            Err(e) => e@ == illegal_move_message() && forall|i: int|
                0 <= i < legal_moves@.len() ==> #[trigger] legal_moves@[i]@ != requested_move@,
        },
{
    let mut i: usize = 0;
    while i < legal_moves.len()
        invariant
            i <= legal_moves@.len(),
            forall|j: int| 0 <= j < i ==> #[trigger] legal_moves@[j]@ != requested_move@,
        decreases legal_moves@.len() - i,
    {
        if requested_move_matches(&legal_moves[i], requested_move) {
            return Ok(legal_moves[i].duplicate());
        }
        i = i + 1;
    }
    Err(EngineError::new("illegal move"))
}

/// The message of the error for a search to a depth below one.
pub open spec fn non_positive_depth_message() -> Seq<char> {
    "search depth must be positive"@
}

/// Returns `depth` when a search can go to it, or the error for a depth
/// below one.
pub fn checked_search_depth(depth: i8) -> (checked: Result<i8, EngineError>)
    ensures
        match checked {
            Ok(d) => depth >= 1 && d == depth,
            Err(e) => depth < 1 && e@ == non_positive_depth_message(),
        },
{
    if depth < 1 {
        return Err(EngineError::new("search depth must be positive"));
    }
    Ok(depth)
}

} // verus!
