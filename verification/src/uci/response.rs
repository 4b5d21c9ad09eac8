use vstd::prelude::*;

use crate::engine::types::SearchOutcome;
use crate::uci::number::{decimal_digits, push_decimal, push_signed_decimal, signed_decimal};
use crate::uci::text::{append_str, chars_of, string_of};
use crate::uci::uci_move::{null_move_text, UciMove};

verus! {

/// Optional search information sent just before `bestmove`.
///
/// The elapsed time is in milliseconds.
#[derive(Clone, Copy, Debug, PartialEq, Eq)]
pub struct SearchInfo {
    /// Completed search depth, in plies.
    pub depth: Option<u8>,
    /// Score of the position, in centipawns.
    pub score_cp: Option<i32>,
    /// Number of nodes searched.
    pub nodes: Option<u64>,
    /// Time the search took.
    pub elapsed: Option<u64>,
}

/// Search information with nothing in it.
pub open spec fn no_info() -> SearchInfo {
    SearchInfo { depth: None, score_cp: None, nodes: None, elapsed: None }
}

impl Default for SearchInfo {
    fn default() -> (info: SearchInfo)
        ensures
            info == no_info(),
    {
        SearchInfo { depth: None, score_cp: None, nodes: None, elapsed: None }
    }
}

impl SearchInfo {
    /// The information a completed engine search gives.
    pub fn from_outcome(outcome: &SearchOutcome) -> (info: SearchInfo)
        ensures
            info == (SearchInfo {
                depth: Some(outcome.depth),
                score_cp: Some(outcome.score),
                nodes: Some(outcome.nodes),
                elapsed: Some(outcome.elapsed),
            }),
    {
        SearchInfo {
            depth: Some(outcome.depth),
            score_cp: Some(outcome.score),
            nodes: Some(outcome.nodes),
            elapsed: Some(outcome.elapsed),
        }
    }
}

/// The result of a completed search.
#[derive(Clone, Debug, PartialEq, Eq)]
pub struct SearchResult {
    /// Best move found, none when there is no legal move.
    pub best_move: Option<UciMove>,
    /// Expected reply, to ponder on.
    pub ponder: Option<UciMove>,
    /// Information describing the search.
    pub info: SearchInfo,
}

/// A search result with its moves taken as their texts.
pub struct SearchResultText {
    pub best_move: Option<Seq<char>>,
    pub ponder: Option<Seq<char>>,
    pub info: SearchInfo,
}

/// The text of an optional move.
pub open spec fn move_text_of(m: Option<UciMove>) -> Option<Seq<char>> {
    match m {
        Some(m) => Some(m@),
        None => None,
    }
}

impl View for SearchResult {
    type V = SearchResultText;

    open spec fn view(&self) -> SearchResultText {
        SearchResultText {
            best_move: move_text_of(self.best_move),
            ponder: move_text_of(self.ponder),
            info: self.info,
        }
    }
}

impl SearchResult {
    /// The UCI result of a completed engine search: its best move and its
    /// information, with no move to ponder on.
    pub fn from_outcome(outcome: SearchOutcome) -> (result: SearchResult)
        ensures
            result@ == (SearchResultText {
                best_move: move_text_of(outcome.best_move),
                ponder: None,
                info: SearchInfo {
                    depth: Some(outcome.depth),
                    score_cp: Some(outcome.score),
                    nodes: Some(outcome.nodes),
                    elapsed: Some(outcome.elapsed),
                },
            }),
    {
        let info = SearchInfo::from_outcome(&outcome);
        SearchResult { best_move: outcome.best_move, ponder: None, info }
    }

    /// A result for `best_move`, with no move to ponder on and no
    /// information.
    pub fn new(best_move: Option<UciMove>) -> (result: SearchResult)
        ensures
            result.best_move == best_move,
            result.ponder is None,
            result.info == no_info(),
    {
        SearchResult { best_move, ponder: None, info: SearchInfo::default() }
    }
}

/// `s` with carriage returns and line feeds replaced by spaces, so that it
/// cannot start another protocol line.
pub open spec fn sanitized(s: Seq<char>) -> Seq<char> {
    s.map_values(|c: char| if c == '\r' || c == '\n' { ' ' } else { c })
}

/// `label` followed by `value`, or nothing when there is no value.
pub open spec fn field_text(label: Seq<char>, value: Option<Seq<char>>) -> Seq<char> {
    match value {
        Some(v) => label + v,
        None => Seq::empty(),
    }
}

/// The `info` line for `info`, without its line break; none when `info` holds
/// nothing.
pub open spec fn info_line(info: SearchInfo) -> Option<Seq<char>> {
    if info == no_info() {
        None
    } else {
        Some(
            "info"@ + field_text(
                " depth "@,
                match info.depth {
                    Some(d) => Some(decimal_digits(d as nat)),
                    None => None,
                },
            ) + field_text(
                " score cp "@,
                match info.score_cp {
                    Some(s) => Some(signed_decimal(s as int)),
                    None => None,
                },
            ) + field_text(
                " nodes "@,
                match info.nodes {
                    Some(n) => Some(decimal_digits(n as nat)),
                    None => None,
                },
            ) + field_text(
                " time "@,
                match info.elapsed {
                    Some(t) => Some(decimal_digits(t as nat)),
                    None => None,
                },
            ),
        )
    }
}

/// The `bestmove` line for `result`, without its line break: the null move
/// stands for a missing best move, and a ponder move follows when there is
/// one.
pub open spec fn bestmove_line(result: SearchResultText) -> Seq<char> {
    let best = match result.best_move {
        Some(m) => m,
        None => null_move_text(),
    };
    "bestmove "@ + best + field_text(" ponder "@, result.ponder)
}

/// What the engine sends for a completed search: the `info` line when there
/// is information, then the `bestmove` line.
pub open spec fn search_response(result: SearchResultText) -> Seq<char> {
    let info = match info_line(result.info) {
        Some(line) => line + "\n"@,
        None => Seq::empty(),
    };
    info + bestmove_line(result) + "\n"@
}

/// What the engine sends in answer to `uci`.
pub open spec fn identity_response(name: Seq<char>, author: Seq<char>) -> Seq<char> {
    "id name "@ + sanitized(name) + "\n"@ + "id author "@ + sanitized(author) + "\n"@
        + "uciok\n"@
}

/// What the engine sends to report an error.
pub open spec fn error_response(message: Seq<char>) -> Seq<char> {
    "info string error: "@ + sanitized(message) + "\n"@
}

/// What the engine sends in answer to `isready`.
pub open spec fn ready_response() -> Seq<char> {
    "readyok\n"@
}

/// What the engine sends when a `go` search failed: the error, then the null
/// best move, so that the GUI is never left waiting.
pub open spec fn failed_search_response(message: Seq<char>) -> Seq<char> {
    error_response(message) + "bestmove 0000\n"@
}

/// Appends `s` with line breaks replaced by spaces to `out`.
fn append_sanitized(out: &mut Vec<char>, s: &str)
    ensures
        final(out)@ == old(out)@ + sanitized(s@),
{
    let chars = chars_of(s);
    let ghost start = out@;
    let mut i: usize = 0;
    while i < chars.len()
        invariant
            i <= chars@.len(),
            chars@ == s@,
            out@ == start + sanitized(chars@.subrange(0, i as int)),
        decreases chars@.len() - i,
    {
        let c = chars[i];
        if c == '\r' || c == '\n' {
            out.push(' ');
        } else {
            out.push(c);
        }
        i = i + 1;
        assert(out@ =~= start + sanitized(chars@.subrange(0, i as int)));
    }
    assert(chars@.subrange(0, i as int) =~= chars@);
}

/// Returns `value` with carriage returns and line feeds replaced by spaces.
pub fn sanitize(value: &str) -> (clean: String)
    ensures
        clean@ == sanitized(value@),
{
    let mut out: Vec<char> = Vec::new();
    append_sanitized(&mut out, value);
    assert(out@ =~= sanitized(value@));
    string_of(&out)
}

/// Appends `label` and the decimal text of `value` to `out`.
fn append_field(out: &mut Vec<char>, label: &str, value: u64)
    ensures
        final(out)@ == old(out)@ + label@ + decimal_digits(value as nat),
{
    append_str(out, label);
    push_decimal(out, value);
}

/// Returns the `info` line for `info`, without its line break, or nothing
/// when `info` holds no information.
pub fn format_info(info: &SearchInfo) -> (line: Option<String>)
    ensures
        match line {
            Some(l) => info_line(*info) == Some(l@),
            None => info_line(*info) is None,
        },
{
    if info.depth.is_none() && info.score_cp.is_none() && info.nodes.is_none()
        && info.elapsed.is_none() {
        return None;
    }
    let mut out: Vec<char> = Vec::new();
    append_str(&mut out, "info");
    let ghost after_head = out@;
    match info.depth {
        Some(d) => append_field(&mut out, " depth ", d as u64),
        None => {},
    }
    let ghost after_depth = out@;
    match info.score_cp {
        Some(s) => {
            append_str(&mut out, " score cp ");
            push_signed_decimal(&mut out, s as i64);
        },
        None => {},
    }
    let ghost after_score = out@;
    match info.nodes {
        Some(n) => append_field(&mut out, " nodes ", n),
        None => {},
    }
    let ghost after_nodes = out@;
    match info.elapsed {
        Some(t) => append_field(&mut out, " time ", t),
        None => {},
    }
    proof {
        let depth_text = match info.depth {
            Some(d) => Some(decimal_digits(d as nat)),
            None => None,
        };
        let score_text = match info.score_cp {
            Some(s) => Some(signed_decimal(s as int)),
            None => None,
        };
        let nodes_text = match info.nodes {
            Some(n) => Some(decimal_digits(n as nat)),
            None => None,
        };
        let time_text = match info.elapsed {
            Some(t) => Some(decimal_digits(t as nat)),
            None => None,
        };
        assert(after_depth =~= after_head + field_text(" depth "@, depth_text));
        assert(after_score =~= after_depth + field_text(" score cp "@, score_text));
        assert(after_nodes =~= after_score + field_text(" nodes "@, nodes_text));
        assert(out@ =~= after_nodes + field_text(" time "@, time_text));
        assert(out@ =~= "info"@ + field_text(" depth "@, depth_text) + field_text(
            " score cp "@,
            score_text,
        ) + field_text(" nodes "@, nodes_text) + field_text(" time "@, time_text));
    }
    Some(string_of(&out))
}

/// Returns what the engine sends for a completed search.
pub fn format_search_result(result: &SearchResult) -> (text: String)
    ensures
        text@ == search_response(result@),
{
    let mut out: Vec<char> = Vec::new();
    match format_info(&result.info) {
        Some(line) => {
            append_str(&mut out, line.as_str());
            append_str(&mut out, "\n");
        },
        None => {},
    }
    let ghost after_info = out@;
    append_str(&mut out, "bestmove ");
    match &result.best_move {
        Some(m) => append_str(&mut out, m.as_str()),
        None => append_str(&mut out, "0000"),
    }
    let ghost after_best = out@;
    match &result.ponder {
        Some(p) => {
            append_str(&mut out, " ponder ");
            append_str(&mut out, p.as_str());
        },
        None => {},
    }
    proof {
        assert(out@ =~= after_best + field_text(" ponder "@, result@.ponder));
    }
    append_str(&mut out, "\n");
    assert(out@ =~= search_response(result@));
    string_of(&out)
}

/// Returns what the engine sends in answer to `uci`.
pub fn format_identity(name: &str, author: &str) -> (text: String)
    ensures
        text@ == identity_response(name@, author@),
{
    let mut out: Vec<char> = Vec::new();
    append_str(&mut out, "id name ");
    append_sanitized(&mut out, name);
    append_str(&mut out, "\n");
    append_str(&mut out, "id author ");
    append_sanitized(&mut out, author);
    append_str(&mut out, "\n");
    append_str(&mut out, "uciok\n");
    assert(out@ =~= identity_response(name@, author@));
    string_of(&out)
}

/// Returns what the engine sends to report an error.
pub fn format_error(message: &str) -> (text: String)
    ensures
        text@ == error_response(message@),
{
    let mut out: Vec<char> = Vec::new();
    append_str(&mut out, "info string error: ");
    append_sanitized(&mut out, message);
    append_str(&mut out, "\n");
    assert(out@ =~= error_response(message@));
    string_of(&out)
}

/// Returns what the engine sends in answer to `isready`.
pub fn format_ready() -> (text: String)
    ensures
        text@ == ready_response(),
{
    let mut out: Vec<char> = Vec::new();
    append_str(&mut out, "readyok\n");
    string_of(&out)
}

/// Returns what the engine sends when a `go` search failed with `message`.
pub fn format_failed_search(message: &str) -> (text: String)
    ensures
        text@ == failed_search_response(message@),
{
    let mut out: Vec<char> = Vec::new();
    append_str(&mut out, "info string error: ");
    append_sanitized(&mut out, message);
    append_str(&mut out, "\n");
    append_str(&mut out, "bestmove 0000\n");
    assert(out@ =~= failed_search_response(message@));
    string_of(&out)
}

/// Text that went through `sanitize` holds no line break.
pub proof fn lemma_sanitized_has_no_line_break(s: Seq<char>)
    ensures
        forall|i: int|
            0 <= i < sanitized(s).len() ==> #[trigger] sanitized(s)[i] != '\n' && sanitized(s)[i]
                != '\r',
        sanitized(s).len() == s.len(),
{
}

} // verus!
