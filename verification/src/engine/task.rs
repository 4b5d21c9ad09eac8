use vstd::prelude::*;

use crate::engine::error::EngineError;
use crate::engine::types::SearchOutcome;
use crate::uci::number::{decimal_digits, push_decimal};
use crate::uci::text::{append_str, string_of};

verus! {

/// Identifies a search submitted to an asynchronous engine.
///
/// An identifier is local to the engine that issued it: the scope tells
/// engines apart, the sequence number tells the searches of one engine apart.
#[derive(Clone, Copy, Debug, PartialEq, Eq, Structural, Hash)]
pub struct SearchTaskId {
    scope: u64,
    sequence: u64,
}

impl View for SearchTaskId {
    type V = (u64, u64);

    closed spec fn view(&self) -> (u64, u64) {
        (self.scope, self.sequence)
    }
}

/// The text of a task identifier: its sequence number, preceded by its scope
/// and a colon when the scope is not zero.
pub open spec fn task_id_text(id: (u64, u64)) -> Seq<char> {
    if id.0 == 0 {
        decimal_digits(id.1 as nat)
    } else {
        decimal_digits(id.0 as nat) + ":"@ + decimal_digits(id.1 as nat)
    }
}

impl SearchTaskId {
    /// Creates an identifier in the scope of engines that number their own
    /// searches.
    pub fn new(value: u64) -> (id: SearchTaskId)
        ensures
            id@ == (0u64, value),
    {
        SearchTaskId { scope: 0, sequence: value }
    }

    /// Returns the identifier's sequence number.
    pub fn get(self) -> (value: u64)
        ensures
            value == self@.1,
    {
        self.sequence
    }

    /// Creates the identifier of search `sequence` of engine `scope`.
    fn scoped(scope: u64, sequence: u64) -> (id: SearchTaskId)
        ensures
            id@ == (scope, sequence),
    {
        SearchTaskId { scope, sequence }
    }

    /// Returns whether two identifiers are the same.
    pub fn same(self, other: SearchTaskId) -> (equal: bool)
        ensures
            equal == (self@ == other@),
    {
        self == other
    }

    /// Returns the identifier's text.
    pub fn to_text(&self) -> (text: String)
        ensures
            text@ == task_id_text(self@),
    {
        let mut out: Vec<char> = Vec::new();
        if self.scope != 0 {
            push_decimal(&mut out, self.scope);
            out.push(':');
            proof {
                reveal_strlit(":");
            }
        }
        let ghost head = out@;
        push_decimal(&mut out, self.sequence);
        assert(out@ =~= head + decimal_digits(self.sequence as nat));
        assert(out@ =~= task_id_text(self@));
        string_of(&out)
    }
}

/// A finished search together with the task that produced it.
///
/// A cancelled search may complete with its last fully completed iteration,
/// or with an engine error when none completed.
#[derive(Debug, PartialEq, Eq)]
pub struct SearchCompletion {
    /// The task that completed.
    pub task_id: SearchTaskId,
    /// Its outcome, or the engine error.
    pub result: Result<SearchOutcome, EngineError>,
}

impl SearchCompletion {
    /// Creates the completion of task `task_id`.
    pub fn new(task_id: SearchTaskId, result: Result<SearchOutcome, EngineError>) -> (completion:
        SearchCompletion)
        ensures
            completion.task_id == task_id,
            completion.result == result,
    {
        SearchCompletion { task_id, result }
    }
}

/// What a task book holds: its scope, the next sequence number it hands out,
/// and the search under way, if any.
pub struct TaskState {
    pub scope: u64,
    pub next: u64,
    pub active: Option<(u64, u64)>,
}

/// The search bookkeeping of an engine that runs one search at a time on a
/// worker: it numbers searches within its scope and tracks the one under way.
pub struct SearchTasks {
    scope: u64,
    next_task_id: u64,
    active: Option<SearchTaskId>,
}

/// The view of an optional task identifier.
pub open spec fn id_view(id: Option<SearchTaskId>) -> Option<(u64, u64)> {
    match id {
        Some(id) => Some(id@),
        None => None,
    }
}

impl View for SearchTasks {
    type V = TaskState;

    closed spec fn view(&self) -> TaskState {
        TaskState { scope: self.scope, next: self.next_task_id, active: id_view(self.active) }
    }
}

/// Whether a task book is consistent: its scope is one that `claim_scope`
/// hands out, never zero; numbering starts at one, and the search
/// under way belongs to the book's scope and was numbered before the next one.
pub open spec fn tasks_wf(s: TaskState) -> bool {
    &&& s.scope >= 1
    &&& s.next >= 1
    &&& match s.active {
        Some(id) => id.0 == s.scope && id.1 < s.next,
        None => true,
    }
}

/// The message of the error for a search started while another is under way.
pub open spec fn busy_message() -> Seq<char> {
    "an engine search is already active"@
}

/// The message of the error for a book that has numbered all it can.
pub open spec fn exhausted_message() -> Seq<char> {
    "engine search task identifiers exhausted"@
}

/// The message of the error for a worker that finished another search than
/// the one awaited.
pub open spec fn unexpected_message(completed: (u64, u64), expected: (u64, u64)) -> Seq<char> {
    "engine worker completed unexpected search task "@ + task_id_text(completed)
        + " while waiting for "@ + task_id_text(expected)
}

impl SearchTasks {
    /// Creates the task book of engine `scope`, a scope from `claim_scope`,
    /// numbering from one.
    pub fn new(scope: u64) -> (tasks: SearchTasks)
        requires
            scope >= 1,
        ensures
            tasks@ == (TaskState { scope, next: 1, active: None }),
            tasks_wf(tasks@),
    {
        SearchTasks { scope, next_task_id: 1, active: None }
    }

    /// Returns the search under way, if any.
    pub fn active(&self) -> (id: Option<SearchTaskId>)
        ensures
            id_view(id) == self@.active,
    {
        self.active
    }

    /// Returns the identifier the next search gets, or why none can start:
    /// another search is under way, or the numbering is exhausted.
    pub fn next_task(&self) -> (id: Result<SearchTaskId, EngineError>)
        ensures
            match id {
                Ok(id) => self@.active is None && self@.next < u64::MAX && id@ == (
                    self@.scope,
                    self@.next,
                ),
                Err(e) => (self@.active is Some && e@ == busy_message()) || (self@.active is None
                    && self@.next == u64::MAX && e@ == exhausted_message()),
            },
    {
        if self.active.is_some() {
            return Err(EngineError::new("an engine search is already active"));
        }
        if self.next_task_id == u64::MAX {
            return Err(EngineError::new("engine search task identifiers exhausted"));
        }
        Ok(SearchTaskId::scoped(self.scope, self.next_task_id))
    }

    /// Records that search `id`, handed out by `next_task`, is under way.
    pub fn start(&mut self, id: SearchTaskId)
        requires
            tasks_wf(old(self)@),
            old(self)@.active is None,
            old(self)@.next < u64::MAX,
            id@ == (old(self)@.scope, old(self)@.next),
        ensures
            final(self)@ == (TaskState {
                scope: old(self)@.scope,
                next: (old(self)@.next + 1) as u64,
                active: Some(id@),
            }),
            tasks_wf(final(self)@),
    {
        self.next_task_id = self.next_task_id + 1;
        self.active = Some(id);
    }

    /// Records that search `id` completed; returns whether it was the search
    /// under way, which then no longer is.
    pub fn complete(&mut self, id: SearchTaskId) -> (was_active: bool)
        requires
            tasks_wf(old(self)@),
        ensures
            was_active == (old(self)@.active == Some(id@)),
            final(self)@ == (if was_active {
                TaskState { active: None, ..old(self)@ }
            } else {
                old(self)@
            }),
            tasks_wf(final(self)@),
    {
        match self.active {
            Some(active) => {
                if active == id {
                    self.active = None;
                    true
                } else {
                    false
                }
            },
            None => false,
        }
    }

    /// Returns whether search `id` is the one under way, the only one a stop
    /// request reaches.
    pub fn is_active(&self, id: SearchTaskId) -> (active: bool)
        ensures
            active == (self@.active == Some(id@)),
    {
        match self.active {
            Some(active) => active == id,
            None => false,
        }
    }

    /// Checks that the completion a worker delivered is that of the search
    /// awaited.
    pub fn check_completion(expected: SearchTaskId, completed: SearchTaskId) -> (checked: Result<
        (),
        EngineError,
    >)
        ensures
            match checked {
                Ok(()) => completed@ == expected@,
                Err(e) => completed@ != expected@ && e@ == unexpected_message(
                    completed@,
                    expected@,
                ),
            },
    {
        if completed == expected {
            return Ok(());
        }
        let mut out: Vec<char> = Vec::new();
        append_str(&mut out, "engine worker completed unexpected search task ");
        let completed_text = completed.to_text();
        append_str(&mut out, completed_text.as_str());
        append_str(&mut out, " while waiting for ");
        let expected_text = expected.to_text();
        append_str(&mut out, expected_text.as_str());
        assert(out@ =~= unexpected_message(completed@, expected@));
        Err(EngineError::from_message(string_of(&out)))
    }
}

/// The message of the error for an engine that can be given no scope.
pub open spec fn scopes_exhausted_message() -> Seq<char> {
    "engine search task scopes exhausted"@
}

/// Gives a new engine the scope `next_scope`, the next one of a process-wide
/// counter that starts at one, and returns it with the value the counter
/// moves to; fails when the counter is exhausted. Scopes handed out this way
/// are never zero, the scope of identifiers made by `SearchTaskId::new`.
pub fn claim_scope(next_scope: u64) -> (claimed: Result<(u64, u64), EngineError>)
    requires
        next_scope >= 1,
    ensures
        match claimed {
            Ok((scope, following)) => next_scope < u64::MAX && scope == next_scope && scope >= 1
                && following == next_scope + 1,
            Err(e) => next_scope == u64::MAX && e@ == scopes_exhausted_message(),
        },
{
    match next_scope.checked_add(1) {
        Some(following) => Ok((next_scope, following)),
        None => Err(EngineError::new("engine search task scopes exhausted")),
    }
}

/// A started search is numbered above every search the book numbered before,
/// and the book moves its numbering past it: no two searches of one book share
/// an identifier.
pub proof fn lemma_started_ids_are_fresh(s: TaskState, id: (u64, u64), earlier: (u64, u64))
    requires
        tasks_wf(s),
        s.active is None,
        s.next < u64::MAX,
        id == (s.scope, s.next),
        earlier.0 == s.scope,
        earlier.1 < s.next,
    ensures
        earlier != id,
        id.1 < s.next + 1,
{
}

/// An identifier made by `SearchTaskId::new` is never the search under way
/// in a task book, nor one the book hands out: the book's scope is never zero.
pub proof fn lemma_plain_ids_are_foreign(s: TaskState, value: u64)
    requires
        tasks_wf(s),
    ensures
        s.active != Some((0u64, value)),
        (s.scope, s.next) != (0u64, value),
{
}

} // verus!
