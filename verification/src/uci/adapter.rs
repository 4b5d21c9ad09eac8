use vstd::prelude::*;

use crate::engine::error::EngineError;
use crate::engine::task::{id_view, SearchCompletion, SearchTaskId};
use crate::engine::types::SearchOutcome;
use crate::uci::response::{move_text_of, SearchInfo, SearchResult, SearchResultText};
use crate::uci::parse_error::{failure_message, ParseError, ParseFailure};
use crate::uci::position::{move_texts, PositionCommand};
use crate::uci::uci_move::{null_move_text, UciMove};
use crate::engine::types::{SearchLimits as EngineSearchLimits, MAX_SEARCH_DEPTH};
use crate::uci::search_limits::SearchLimits;

verus! {

/// The bridge between the UCI protocol and a protocol-neutral engine: it
/// turns `go` constraints into engine search limits and tells which search
/// completion the protocol is waiting for.
pub struct UciAdapter<EngineT> {
    engine: EngineT,
    default_search_depth: u8,
    active_search: Option<SearchTaskId>,
}

/// Whether `limits` put the search on a clock: a fixed move time, or both
/// players' remaining times.
pub open spec fn has_clock(limits: SearchLimits) -> bool {
    limits.move_time is Some || (limits.white_time is Some && limits.black_time is Some)
}

/// The depth a search under `limits` goes to: the one asked for; else the
/// greatest supported one for a search on a clock or an infinite search; else
/// the default.
pub open spec fn search_depth(limits: SearchLimits, default_depth: u8) -> u8 {
    match limits.depth {
        Some(depth) => depth,
        None => if has_clock(limits) || limits.infinite {
            MAX_SEARCH_DEPTH
        } else {
            default_depth
        },
    }
}

/// The engine search limits for the `go` constraints `limits`.
pub open spec fn engine_limits(limits: SearchLimits, default_depth: u8) -> EngineSearchLimits {
    EngineSearchLimits {
        maximum_depth: search_depth(limits, default_depth),
        move_time: limits.move_time,
        white_time: limits.white_time,
        black_time: limits.black_time,
        white_increment: limits.white_increment,
        black_increment: limits.black_increment,
        moves_to_go: limits.moves_to_go,
    }
}

impl<EngineT> UciAdapter<EngineT> {
    /// Wraps `engine`, searching to `default_search_depth` when a `go` command
    /// sets no limit.
    pub fn new(engine: EngineT, default_search_depth: u8) -> (adapter: UciAdapter<EngineT>)
        requires
            default_search_depth > 0,
        ensures
            adapter.inner() == engine,
            adapter.default_depth() == default_search_depth,
            adapter.awaited() is None,
    {
        UciAdapter { engine, default_search_depth, active_search: None }
    }

    /// The wrapped engine.
    pub closed spec fn inner(&self) -> EngineT {
        self.engine
    }

    /// The depth searched to when a `go` command sets no limit.
    pub closed spec fn default_depth(&self) -> u8 {
        self.default_search_depth
    }

    /// The search whose completion the protocol waits for.
    pub closed spec fn awaited(&self) -> Option<(u64, u64)> {
        id_view(self.active_search)
    }

    /// Returns the wrapped engine.
    pub fn engine(&self) -> (engine: &EngineT)
        ensures
            *engine == self.inner(),
    {
        &self.engine
    }

    /// Returns the wrapped engine, to change it.
    pub fn engine_mut(&mut self) -> (engine: &mut EngineT)
        ensures
            *engine == old(self).inner(),
            final(self).inner() == *final(engine),
            final(self).default_depth() == old(self).default_depth(),
            final(self).awaited() == old(self).awaited(),
    {
        &mut self.engine
    }

    /// Gives up the adapter and returns the wrapped engine.
    pub fn into_inner(self) -> (engine: EngineT)
        ensures
            engine == self.inner(),
    {
        self.engine
    }

    /// Returns the engine search limits for the `go` constraints `limits`.
    pub fn search_limits(&self, limits: &SearchLimits) -> (converted: EngineSearchLimits)
        ensures
            converted == engine_limits(*limits, self.default_depth()),
    {
        let has_clock = limits.move_time.is_some() || (limits.white_time.is_some()
            && limits.black_time.is_some());
        let maximum_depth = match limits.depth {
            Some(depth) => depth,
            None => if has_clock || limits.infinite {
                MAX_SEARCH_DEPTH
            } else {
                self.default_search_depth
            },
        };
        EngineSearchLimits {
            maximum_depth,
            move_time: limits.move_time,
            white_time: limits.white_time,
            black_time: limits.black_time,
            white_increment: limits.white_increment,
            black_increment: limits.black_increment,
            moves_to_go: limits.moves_to_go,
        }
    }

    /// Records that search `task_id` was started and is now awaited.
    pub fn search_started(&mut self, task_id: SearchTaskId)
        ensures
            final(self).awaited() == Some(task_id@),
            final(self).inner() == old(self).inner(),
            final(self).default_depth() == old(self).default_depth(),
    {
        self.active_search = Some(task_id);
    }

    /// Forgets the awaited search, as a new game or position does.
    pub fn forget_search(&mut self)
        ensures
            final(self).awaited() is None,
            final(self).inner() == old(self).inner(),
            final(self).default_depth() == old(self).default_depth(),
    {
        self.active_search = None;
    }

    /// Returns whether the completion of `task_id` answers the awaited
    /// search; when it does, that search is no longer awaited. Completions of
    /// other searches are to be dropped.
    pub fn accept_completion(&mut self, task_id: SearchTaskId) -> (accepted: bool)
        ensures
            accepted == (old(self).awaited() == Some(task_id@)),
            final(self).awaited() == (if accepted {
                None
            } else {
                old(self).awaited()
            }),
            final(self).inner() == old(self).inner(),
            final(self).default_depth() == old(self).default_depth(),
    {
        match self.active_search {
            Some(active) => {
                if active.same(task_id) {
                    self.active_search = None;
                    true
                } else {
                    false
                }
            },
            None => false,
        }
    }

    /// Takes one completion the engine delivered: a completion of another
    /// search than the awaited one is dropped (`None`); the awaited search's
    /// completion ends the wait and gives its UCI result or its error.
    pub fn take_completion(&mut self, completion: SearchCompletion) -> (taken: Option<
        Result<SearchResult, EngineError>,
    >)
        ensures
            final(self).inner() == old(self).inner(),
            final(self).default_depth() == old(self).default_depth(),
            old(self).awaited() == Some(completion.task_id@) ==> final(self).awaited() is None
                && match taken {
                Some(Ok(result)) => completion.result matches Ok(outcome) && result@ == (
                SearchResultText {
                    best_move: move_text_of(outcome.best_move),
                    ponder: None,
                    info: SearchInfo {
                        depth: Some(outcome.depth),
                        score_cp: Some(outcome.score),
                        nodes: Some(outcome.nodes),
                        elapsed: Some(outcome.elapsed),
                    },
                }),
                Some(Err(e)) => completion.result == Err::<SearchOutcome, EngineError>(e),
                None => false,
            },
            old(self).awaited() != Some(completion.task_id@) ==> final(self).awaited()
                == old(self).awaited() && taken is None,
    {
        if !self.accept_completion(completion.task_id) {
            return None;
        }
        match completion.result {
            Ok(outcome) => Some(Ok(SearchResult::from_outcome(outcome))),
            Err(e) => Some(Err(e)),
        }
    }

    /// Returns whether a stop request for `task_id` goes to the engine: only
    /// one for the awaited search does.
    pub fn forwards_stop(&self, task_id: SearchTaskId) -> (forward: bool)
        ensures
            forward == (self.awaited() == Some(task_id@)),
    {
        match self.active_search {
            Some(active) => active.same(task_id),
            None => false,
        }
    }
}

/// The message of the error for a position whose moves hold the null move,
/// which the engine cannot play.
pub open spec fn null_move_message() -> Seq<char> {
    failure_message(ParseFailure::InvalidMove(null_move_text()))
}

/// Returns the moves of `command` for the engine to play, or the error for
/// the null move when they hold it.
pub fn engine_moves(command: &PositionCommand) -> (moves: Result<Vec<UciMove>, EngineError>)
    ensures
        match moves {
            Ok(moves) => move_texts(moves@) == command@.moves && forall|i: int|
                0 <= i < command@.moves.len() ==> #[trigger] command@.moves[i]
                    != null_move_text(),
            Err(e) => e@ == null_move_message() && exists|i: int|
                0 <= i < command@.moves.len() && #[trigger] command@.moves[i] == null_move_text(),
        },
{
    let mut moves: Vec<UciMove> = Vec::new();
    let mut i: usize = 0;
    while i < command.moves.len()
        invariant
            i <= command.moves@.len(),
            move_texts(moves@) == move_texts(command.moves@.subrange(0, i as int)),
            forall|j: int| 0 <= j < i ==> #[trigger] command.moves@[j]@ != null_move_text(),
        decreases command.moves@.len() - i,
    {
        let m = &command.moves[i];
        if m.is_null() {
            assert(command@.moves[i as int] == m@);
            let error = ParseError::InvalidMove("0000".to_owned());
            let message = error.message();
            return Err(EngineError::from_message(message));
        }
        let ghost before = moves@;
        moves.push(m.duplicate());
        proof {
            let prev = command.moves@.subrange(0, i as int);
            let next = command.moves@.subrange(0, i + 1);
            assert(next =~= prev.push(command.moves@[i as int]));
            assert(move_texts(moves@) =~= move_texts(before).push(m@));
            assert(move_texts(next) =~= move_texts(prev).push(m@));
        }
        i = i + 1;
    }
    assert(command.moves@.subrange(0, i as int) =~= command.moves@);
    Ok(moves)
}

/// The depth a `go` command asks for is the depth searched to, whatever
/// clock or `infinite` flag comes with it. Without a depth, a search on a
/// fixed move time, on both players' clocks or an infinite search goes to the
/// greatest supported depth, and any other search to the default depth. The
/// time constraints pass through unchanged.
pub proof fn lemma_engine_limits_keep_asked_depth(limits: SearchLimits, default_depth: u8)
    ensures
        limits.depth matches Some(d) ==> engine_limits(limits, default_depth).maximum_depth == d,
        limits.depth is None && (limits.move_time is Some || (limits.white_time is Some
            && limits.black_time is Some) || limits.infinite) ==> engine_limits(
            limits,
            default_depth,
        ).maximum_depth == MAX_SEARCH_DEPTH,
        limits.depth is None && limits.move_time is None && !(limits.white_time is Some
            && limits.black_time is Some) && !limits.infinite ==> engine_limits(
            limits,
            default_depth,
        ).maximum_depth == default_depth,
        engine_limits(limits, default_depth).move_time == limits.move_time,
        engine_limits(limits, default_depth).white_time == limits.white_time,
        engine_limits(limits, default_depth).black_time == limits.black_time,
        engine_limits(limits, default_depth).white_increment == limits.white_increment,
        engine_limits(limits, default_depth).black_increment == limits.black_increment,
        engine_limits(limits, default_depth).moves_to_go == limits.moves_to_go,
{
}

/// Two `go` commands that ask for the same depth are searched to the same
/// depth, however their clocks and `infinite` flags differ.
pub proof fn lemma_asked_depth_ignores_clock(a: SearchLimits, b: SearchLimits, default_depth: u8)
    requires
        a.depth is Some,
        a.depth == b.depth,
    ensures
        engine_limits(a, default_depth).maximum_depth == engine_limits(b, default_depth).maximum_depth,
{
}

} // verus!
