use vstd::prelude::*;

use crate::uci::number::{parse_decimal, parse_unsigned};
use crate::uci::parse_error::{ParseError, ParseFailure};
use crate::uci::text::{chars_of, eq_word, split_whitespace, split_ws, views};

verus! {

/// Search constraints supplied by a UCI `go` command.
///
/// Times are in milliseconds. A depth, when present, is positive.
#[derive(Clone, Copy, Debug, PartialEq, Eq)]
pub struct SearchLimits {
    /// Remaining white clock time.
    pub white_time: Option<u64>,
    /// Remaining black clock time.
    pub black_time: Option<u64>,
    /// White increment per move.
    pub white_increment: Option<u64>,
    /// Black increment per move.
    pub black_increment: Option<u64>,
    /// Moves until the next time control.
    pub moves_to_go: Option<u32>,
    /// Greatest depth to search, in plies.
    pub depth: Option<u8>,
    /// Greatest number of nodes to search.
    pub nodes: Option<u64>,
    /// Fixed time allotted to this move.
    pub move_time: Option<u64>,
    /// Whether the search goes on until it is stopped.
    pub infinite: bool,
}

/// Limits with no constraint at all.
pub open spec fn no_limits() -> SearchLimits {
    SearchLimits {
        white_time: None,
        black_time: None,
        white_increment: None,
        black_increment: None,
        moves_to_go: None,
        depth: None,
        nodes: None,
        move_time: None,
        infinite: false,
    }
}

impl Default for SearchLimits {
    fn default() -> (limits: SearchLimits)
        ensures
            limits == no_limits(),
    {
        SearchLimits {
            white_time: None,
            black_time: None,
            white_increment: None,
            black_increment: None,
            moves_to_go: None,
            depth: None,
            nodes: None,
            move_time: None,
            infinite: false,
        }
    }
}

/// The words of a `go` command, each with what it sets.
pub enum LimitKey {
    WhiteTime,
    BlackTime,
    WhiteIncrement,
    BlackIncrement,
    MoveTime,
    MovesToGo,
    Depth,
    Nodes,
    Infinite,
    Other,
}

/// The word that `token` is among those of a `go` command.
pub open spec fn limit_key(token: Seq<char>) -> LimitKey {
    if token == "wtime"@ {
        LimitKey::WhiteTime
    } else if token == "btime"@ {
        LimitKey::BlackTime
    } else if token == "winc"@ {
        LimitKey::WhiteIncrement
    } else if token == "binc"@ {
        LimitKey::BlackIncrement
    } else if token == "movetime"@ {
        LimitKey::MoveTime
    } else if token == "movestogo"@ {
        LimitKey::MovesToGo
    } else if token == "depth"@ {
        LimitKey::Depth
    } else if token == "nodes"@ {
        LimitKey::Nodes
    } else if token == "infinite"@ {
        LimitKey::Infinite
    } else {
        LimitKey::Other
    }
}

/// The name under which a missing or invalid value of `key` is reported.
pub open spec fn key_name(key: LimitKey) -> Seq<char> {
    match key {
        LimitKey::WhiteTime => "wtime"@,
        LimitKey::BlackTime => "btime"@,
        LimitKey::WhiteIncrement => "winc"@,
        LimitKey::BlackIncrement => "binc"@,
        LimitKey::MoveTime => "movetime"@,
        LimitKey::MovesToGo => "movestogo"@,
        LimitKey::Depth => "depth"@,
        LimitKey::Nodes => "nodes"@,
        LimitKey::Infinite => "infinite"@,
        LimitKey::Other => Seq::empty(),
    }
}

/// The greatest value that the field set by `key` holds.
pub open spec fn key_max(key: LimitKey) -> nat {
    match key {
        LimitKey::MovesToGo => u32::MAX as nat,
        LimitKey::Depth => u8::MAX as nat,
        _ => u64::MAX as nat,
    }
}

/// `limits` with the field named by `key` set to `value`.
pub open spec fn set_limit(limits: SearchLimits, key: LimitKey, value: nat) -> SearchLimits {
    match key {
        LimitKey::WhiteTime => SearchLimits { white_time: Some(value as u64), ..limits },
        LimitKey::BlackTime => SearchLimits { black_time: Some(value as u64), ..limits },
        LimitKey::WhiteIncrement => SearchLimits { white_increment: Some(value as u64), ..limits },
        LimitKey::BlackIncrement => SearchLimits { black_increment: Some(value as u64), ..limits },
        LimitKey::MoveTime => SearchLimits { move_time: Some(value as u64), ..limits },
        LimitKey::MovesToGo => SearchLimits { moves_to_go: Some(value as u32), ..limits },
        LimitKey::Depth => SearchLimits { depth: Some(value as u8), ..limits },
        LimitKey::Nodes => SearchLimits { nodes: Some(value as u64), ..limits },
        LimitKey::Infinite => SearchLimits { infinite: true, ..limits },
        LimitKey::Other => limits,
    }
}

/// What reading the `go` arguments `t` from position `i` on does to
/// `limits`. Each constraint word takes the next token as its value; words
/// that are not constraints are skipped. A missing value, one that does not
/// parse or does not fit, and a zero depth are errors.
pub open spec fn parse_go_from(t: Seq<Seq<char>>, i: int, limits: SearchLimits) -> Result<
    SearchLimits,
    ParseFailure,
>
    decreases t.len() - i,
{
    if i < 0 || i >= t.len() {
        Ok(limits)
    } else {
        let key = limit_key(t[i]);
        match key {
            LimitKey::Other => parse_go_from(t, i + 1, limits),
            LimitKey::Infinite => parse_go_from(t, i + 1, set_limit(limits, key, 0)),
            _ => {
                if i + 1 >= t.len() {
                    Err(ParseFailure::MissingArgument(key_name(key)))
                } else {
                    match parse_unsigned(t[i + 1], key_max(key)) {
                        None => Err(ParseFailure::InvalidArgument(key_name(key))),
                        Some(value) => {
                            if key is Depth && value == 0 {
                                Err(ParseFailure::InvalidArgument(key_name(key)))
                            } else {
                                parse_go_from(t, i + 2, set_limit(limits, key, value))
                            }
                        },
                    }
                }
            },
        }
    }
}

/// What parsing the arguments `t` of a `go` command gives.
pub open spec fn parse_go(t: Seq<Seq<char>>) -> Result<SearchLimits, ParseFailure> {
    parse_go_from(t, 0, no_limits())
}

/// Returns the `go` word that `token` is.
fn key_of(token: &[char]) -> (key: LimitKey)
    ensures
        key == limit_key(token@),
{
    if eq_word(token, "wtime") {
        LimitKey::WhiteTime
    } else if eq_word(token, "btime") {
        LimitKey::BlackTime
    } else if eq_word(token, "winc") {
        LimitKey::WhiteIncrement
    } else if eq_word(token, "binc") {
        LimitKey::BlackIncrement
    } else if eq_word(token, "movetime") {
        LimitKey::MoveTime
    } else if eq_word(token, "movestogo") {
        LimitKey::MovesToGo
    } else if eq_word(token, "depth") {
        LimitKey::Depth
    } else if eq_word(token, "nodes") {
        LimitKey::Nodes
    } else if eq_word(token, "infinite") {
        LimitKey::Infinite
    } else {
        LimitKey::Other
    }
}

impl LimitKey {
    /// Returns the name under which this word's errors are reported.
    fn name(&self) -> (name: &'static str)
        ensures
            name@ == key_name(*self),
    {
        match *self {
            LimitKey::WhiteTime => "wtime",
            LimitKey::BlackTime => "btime",
            LimitKey::WhiteIncrement => "winc",
            LimitKey::BlackIncrement => "binc",
            LimitKey::MoveTime => "movetime",
            LimitKey::MovesToGo => "movestogo",
            LimitKey::Depth => "depth",
            LimitKey::Nodes => "nodes",
            LimitKey::Infinite => "infinite",
            LimitKey::Other => {
                proof {
                    reveal_strlit("");
                }
                ""
            },
        }
    }

    /// Returns the greatest value the field set by this word holds.
    fn max(&self) -> (max: u64)
        ensures
            max as nat == key_max(*self),
    {
        match *self {
            LimitKey::MovesToGo => 0xffff_ffff,
            LimitKey::Depth => 0xff,
            _ => 0xffff_ffff_ffff_ffff,
        }
    }
}

/// Returns `limits` with the field named by `key` set to `value`.
fn with_limit(limits: SearchLimits, key: &LimitKey, value: u64) -> (updated: SearchLimits)
    requires
        value <= key_max(*key),
    ensures
        updated == set_limit(limits, *key, value as nat),
{
    let mut updated = limits;
    match key {
        LimitKey::WhiteTime => updated.white_time = Some(value),
        LimitKey::BlackTime => updated.black_time = Some(value),
        LimitKey::WhiteIncrement => updated.white_increment = Some(value),
        LimitKey::BlackIncrement => updated.black_increment = Some(value),
        LimitKey::MoveTime => updated.move_time = Some(value),
        LimitKey::MovesToGo => updated.moves_to_go = Some(value as u32),
        LimitKey::Depth => updated.depth = Some(value as u8),
        LimitKey::Nodes => updated.nodes = Some(value),
        LimitKey::Infinite => updated.infinite = true,
        LimitKey::Other => {},
    }
    updated
}

impl SearchLimits {
    /// Parses the arguments of a `go` command, already split into tokens.
    pub fn from_token_seq(tokens: &[Vec<char>]) -> (parsed: Result<SearchLimits, ParseError>)
        ensures
            match parsed {
                Ok(limits) => parse_go(views(tokens@)) == Ok::<SearchLimits, ParseFailure>(limits),
                Err(e) => parse_go(views(tokens@)) == Err::<SearchLimits, ParseFailure>(e@),
            },
    {
        let ghost t = views(tokens@);
        let mut limits = SearchLimits::default();
        let mut i: usize = 0;
        while i < tokens.len()
            invariant
                i <= tokens@.len(),
                t == views(tokens@),
                parse_go(t) == parse_go_from(t, i as int, limits),
            decreases tokens@.len() - i,
        {
            let key = key_of(&tokens[i]);
            assert(t[i as int] == tokens@[i as int]@);
            match key {
                LimitKey::Other => {
                    i = i + 1;
                },
                LimitKey::Infinite => {
                    limits.infinite = true;
                    i = i + 1;
                },
                _ => {
                    let name = key.name();
                    if i + 1 >= tokens.len() {
                        return Err(ParseError::MissingArgument(name));
                    }
                    assert(t[i + 1] == tokens@[i + 1]@);
                    match parse_decimal(&tokens[i + 1], key.max()) {
                        None => {
                            return Err(ParseError::InvalidArgument(name));
                        },
                        Some(value) => {
                            if matches!(key, LimitKey::Depth) && value == 0 {
                                return Err(ParseError::InvalidArgument(name));
                            }
                            limits = with_limit(limits, &key, value);
                            i = i + 2;
                        },
                    }
                },
            }
        }
        Ok(limits)
    }

    /// Parses the arguments of a `go` command.
    pub fn from_tokens(args: &str) -> (parsed: Result<SearchLimits, ParseError>)
        ensures
            match parsed {
                Ok(limits) => parse_go(split_ws(args@)) == Ok::<SearchLimits, ParseFailure>(limits),
                Err(e) => parse_go(split_ws(args@)) == Err::<SearchLimits, ParseFailure>(e@),
            },
    {
        let chars = chars_of(args);
        let tokens = split_whitespace(&chars);
        SearchLimits::from_token_seq(&tokens)
    }
}

/// A search depth read from a `go` command is never zero: every depth that
/// parsing yields is positive, as long as the limits it started from had a
/// positive depth or none.
pub proof fn lemma_parsed_depth_positive(t: Seq<Seq<char>>, i: int, limits: SearchLimits)
    requires
        match limits.depth {
            Some(d) => d > 0,
            None => true,
        },
    ensures
        match parse_go_from(t, i, limits) {
            Ok(parsed) => match parsed.depth {
                Some(d) => d > 0,
                None => true,
            },
            Err(_) => true,
        },
    decreases t.len() - i,
{
    if 0 <= i < t.len() {
        let key = limit_key(t[i]);
        match key {
            LimitKey::Other => lemma_parsed_depth_positive(t, i + 1, limits),
            LimitKey::Infinite => lemma_parsed_depth_positive(t, i + 1, set_limit(limits, key, 0)),
            _ => {
                if i + 1 < t.len() {
                    match parse_unsigned(t[i + 1], key_max(key)) {
                        Some(value) => {
                            if !(key is Depth && value == 0) {
                                lemma_parsed_depth_positive(t, i + 2, set_limit(limits, key, value));
                            }
                        },
                        None => {},
                    }
                }
            },
        }
    }
}

/// Parsing the arguments of a `go` command never yields a zero depth.
pub proof fn lemma_go_depth_positive(t: Seq<Seq<char>>)
    ensures
        match parse_go(t) {
            Ok(parsed) => match parsed.depth {
                Some(d) => d > 0,
                None => true,
            },
            Err(_) => true,
        },
{
    lemma_parsed_depth_positive(t, 0, no_limits());
}

/// Reading arguments after a leading token `w` from position `i + 1` on
/// reads them as they are read from position `i` without it.
proof fn lemma_parse_go_shift(w: Seq<char>, t: Seq<Seq<char>>, i: int, limits: SearchLimits)
    requires
        0 <= i,
    ensures
        parse_go_from(seq![w] + t, i + 1, limits) == parse_go_from(t, i, limits),
    decreases t.len() - i,
{
    let s = seq![w] + t;
    if i < t.len() {
        assert(s[i + 1] == t[i]);
        if i + 1 < t.len() {
            assert(s[i + 2] == t[i + 1]);
        }
        let key = limit_key(t[i]);
        match key {
            LimitKey::Other => lemma_parse_go_shift(w, t, i + 1, limits),
            LimitKey::Infinite => lemma_parse_go_shift(w, t, i + 1, set_limit(limits, key, 0)),
            _ => {
                if i + 1 < t.len() {
                    match parse_unsigned(t[i + 1], key_max(key)) {
                        Some(value) => {
                            lemma_parse_go_shift(w, t, i + 2, set_limit(limits, key, value));
                        },
                        None => {},
                    }
                }
            },
        }
    }
}

/// A word of a `go` command that is none of its constraint words is skipped
/// on its own: reading it and then the tokens `t` gives what reading `t`
/// alone gives, so the token after it is read as usual.
pub proof fn lemma_unknown_go_word_skipped(w: Seq<char>, t: Seq<Seq<char>>)
    requires
        w != "wtime"@,
        w != "btime"@,
        w != "winc"@,
        w != "binc"@,
        w != "movetime"@,
        w != "movestogo"@,
        w != "depth"@,
        w != "nodes"@,
        w != "infinite"@,
    ensures
        parse_go(seq![w] + t) == parse_go(t),
{
    let s = seq![w] + t;
    assert(s[0] == w);
    assert(limit_key(w) is Other);
    lemma_parse_go_shift(w, t, 0, no_limits());
}

/// `limits` with the `infinite` flag set.
pub open spec fn with_infinite(limits: SearchLimits) -> SearchLimits {
    SearchLimits { infinite: true, ..limits }
}

/// Reading arguments from limits that are already infinite gives what reading
/// them from the same limits without the flag gives, with the flag set.
proof fn lemma_parse_go_infinite(t: Seq<Seq<char>>, i: int, limits: SearchLimits)
    requires
        0 <= i,
    ensures
        parse_go_from(t, i, with_infinite(limits)) == match parse_go_from(t, i, limits) {
            Ok(parsed) => Ok::<SearchLimits, ParseFailure>(with_infinite(parsed)),
            Err(e) => Err::<SearchLimits, ParseFailure>(e),
        },
    decreases t.len() - i,
{
    if i < t.len() {
        let key = limit_key(t[i]);
        match key {
            LimitKey::Other => lemma_parse_go_infinite(t, i + 1, limits),
            LimitKey::Infinite => {
                assert(set_limit(with_infinite(limits), key, 0) == with_infinite(limits));
                assert(set_limit(limits, key, 0) == with_infinite(limits));
                assert(with_infinite(with_infinite(limits)) == with_infinite(limits));
                lemma_parse_go_infinite(t, i + 1, with_infinite(limits));
            },
            _ => {
                if i + 1 < t.len() {
                    match parse_unsigned(t[i + 1], key_max(key)) {
                        Some(value) => {
                            assert(set_limit(with_infinite(limits), key, value) == with_infinite(
                                set_limit(limits, key, value),
                            ));
                            lemma_parse_go_infinite(t, i + 2, set_limit(limits, key, value));
                        },
                        None => {},
                    }
                }
            },
        }
    }
}

/// `infinite` takes no value: reading it and then the tokens `t` gives what
/// reading `t` alone gives, with the search made infinite.
pub proof fn lemma_infinite_takes_no_value(t: Seq<Seq<char>>)
    ensures
        parse_go(seq!["infinite"@] + t) == match parse_go(t) {
            Ok(parsed) => Ok::<SearchLimits, ParseFailure>(with_infinite(parsed)),
            Err(e) => Err::<SearchLimits, ParseFailure>(e),
        },
{
    reveal_strlit("infinite");
    reveal_strlit("wtime");
    reveal_strlit("btime");
    reveal_strlit("winc");
    reveal_strlit("binc");
    reveal_strlit("movetime");
    reveal_strlit("movestogo");
    reveal_strlit("depth");
    reveal_strlit("nodes");
    let w = "infinite"@;
    let s = seq![w] + t;
    assert(w[0] != "wtime"@[0] && w[0] != "btime"@[0] && w[0] != "winc"@[0] && w[0] != "binc"@[0]
        && w[0] != "movetime"@[0] && w[0] != "movestogo"@[0] && w[0] != "depth"@[0] && w[0]
        != "nodes"@[0]);
    assert(limit_key(w) is Infinite);
    assert(s[0] == w);
    assert(set_limit(no_limits(), LimitKey::Infinite, 0) == with_infinite(no_limits()));
    lemma_parse_go_shift(w, t, 0, with_infinite(no_limits()));
    lemma_parse_go_infinite(t, 0, no_limits());
}

} // verus!
