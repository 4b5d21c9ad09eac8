use vstd::prelude::*;

use crate::uci::parse_error::{ParseError, ParseFailure};
use crate::uci::text::{
    chars_of, eq_word, join_spaced, join_with_spaces, split_whitespace, split_ws, string_of, views,
};
use crate::uci::uci_move::{parse_move, UciMove};

verus! {

/// The position from which the move history of a `position` command begins.
#[derive(Clone, Debug, PartialEq, Eq)]
pub enum BasePosition {
    StartPos,
    Fen(String),
}

/// A base position with its FEN text taken as characters.
pub enum BaseText {
    StartPos,
    Fen(Seq<char>),
}

impl View for BasePosition {
    type V = BaseText;

    open spec fn view(&self) -> BaseText {
        match self {
            BasePosition::StartPos => BaseText::StartPos,
            BasePosition::Fen(fen) => BaseText::Fen(fen@),
        }
    }
}

/// A parsed UCI `position` command.
#[derive(Clone, Debug, PartialEq, Eq)]
pub struct PositionCommand {
    /// The position from which the move history begins.
    pub base: BasePosition,
    /// The moves played from the base position, in order.
    pub moves: Vec<UciMove>,
}

/// A `position` command with its texts taken as characters.
pub struct PositionText {
    pub base: BaseText,
    pub moves: Seq<Seq<char>>,
}

/// The texts of a sequence of moves.
pub open spec fn move_texts(moves: Seq<UciMove>) -> Seq<Seq<char>> {
    moves.map_values(|m: UciMove| m@)
}

impl View for PositionCommand {
    type V = PositionText;

    open spec fn view(&self) -> PositionText {
        PositionText { base: self.base@, moves: move_texts(self.moves@) }
    }
}

/// What parsing the tokens `t` as moves gives: all of them, when every one
/// parses, else the error of the first that does not.
pub open spec fn parse_moves(t: Seq<Seq<char>>) -> Result<Seq<Seq<char>>, ParseFailure>
    decreases t.len(),
{
    if t.len() == 0 {
        Ok(Seq::empty())
    } else {
        match parse_moves(t.drop_last()) {
            Err(e) => Err(e),
            Ok(moves) => match parse_move(t.last()) {
                Err(e) => Err(e),
                Ok(m) => Ok(moves.push(m)),
            },
        }
    }
}

/// Once a prefix of the tokens fails to parse as moves, the whole of them
/// fails with the same error.
proof fn lemma_parse_moves_failed_prefix(t: Seq<Seq<char>>, k: int)
    requires
        0 <= k <= t.len(),
        parse_moves(t.subrange(0, k)) is Err,
    ensures
        parse_moves(t) == parse_moves(t.subrange(0, k)),
    decreases t.len() - k,
{
    if k == t.len() {
        assert(t.subrange(0, k) =~= t);
    } else {
        let longer = t.subrange(0, k + 1);
        assert(longer.drop_last() =~= t.subrange(0, k));
        lemma_parse_moves_failed_prefix(t, k + 1);
    }
}

/// The index of the first token from `start` on that is `word`, or the
/// number of tokens when none is.
pub open spec fn index_of_word(t: Seq<Seq<char>>, start: int, word: Seq<char>) -> int
    decreases t.len() - start,
{
    if start < 0 || start >= t.len() {
        t.len() as int
    } else if t[start] == word {
        start
    } else {
        index_of_word(t, start + 1, word)
    }
}

/// The tokens after the one at `index`, none when there is no such token.
pub open spec fn tokens_after(t: Seq<Seq<char>>, index: int) -> Seq<Seq<char>> {
    if index < t.len() {
        t.subrange(index + 1, t.len() as int)
    } else {
        Seq::empty()
    }
}

/// What parsing the arguments `t` of a `position` command gives.
///
/// `startpos` may be followed by nothing or by `moves` and the moves. `fen` is
/// followed by the fields of the FEN, up to a `moves` token if there is one,
/// and then by the moves; the FEN is its fields joined by single spaces.
pub open spec fn parse_position(t: Seq<Seq<char>>) -> Result<PositionText, ParseFailure> {
    if t.len() > 0 && t[0] == "startpos"@ {
        if t.len() == 1 {
            Ok(PositionText { base: BaseText::StartPos, moves: Seq::empty() })
        } else if t[1] == "moves"@ {
            match parse_moves(t.subrange(2, t.len() as int)) {
                Ok(moves) => Ok(PositionText { base: BaseText::StartPos, moves }),
                Err(e) => Err(e),
            }
        } else {
            Err(ParseFailure::InvalidArgument("position"@))
        }
    } else if t.len() > 0 && t[0] == "fen"@ {
        let end = index_of_word(t, 1, "moves"@);
        if end == 1 {
            Err(ParseFailure::MissingArgument("fen"@))
        } else {
            match parse_moves(tokens_after(t, end)) {
                Ok(moves) => Ok(
                    PositionText { base: BaseText::Fen(join_spaced(t.subrange(1, end))), moves },
                ),
                Err(e) => Err(e),
            }
        }
    } else {
        Err(ParseFailure::InvalidArgument("position"@))
    }
}

/// Parses `tokens[from..]` as moves.
fn parse_move_tokens(tokens: &[Vec<char>], from: usize) -> (parsed: Result<Vec<UciMove>, ParseError>)
    requires
        from <= tokens@.len(),
    ensures
        match parsed {
            Ok(moves) => parse_moves(views(tokens@).subrange(from as int, tokens@.len() as int))
                == Ok::<Seq<Seq<char>>, ParseFailure>(move_texts(moves@)),
            Err(e) => parse_moves(views(tokens@).subrange(from as int, tokens@.len() as int))
                == Err::<Seq<Seq<char>>, ParseFailure>(e@),
        },
{
    let ghost t = views(tokens@).subrange(from as int, tokens@.len() as int);
    let mut moves: Vec<UciMove> = Vec::new();
    let mut i: usize = from;
    assert(t.subrange(0, 0) =~= Seq::<Seq<char>>::empty());
    assert(move_texts(moves@) =~= Seq::<Seq<char>>::empty());
    while i < tokens.len()
        invariant
            from <= i <= tokens@.len(),
            t == views(tokens@).subrange(from as int, tokens@.len() as int),
            parse_moves(t.subrange(0, i - from)) == Ok::<Seq<Seq<char>>, ParseFailure>(
                move_texts(moves@),
            ),
        decreases tokens@.len() - i,
    {
        let ghost k = i - from;
        let ghost next = t.subrange(0, k + 1);
        assert(next.drop_last() =~= t.subrange(0, k));
        assert(next.last() == tokens@[i as int]@);
        match UciMove::parse_chars(&tokens[i]) {
            Ok(m) => {
                let ghost before = moves@;
                moves.push(m);
                assert(move_texts(moves@) =~= move_texts(before).push(m@));
                i = i + 1;
            },
            Err(e) => {
                proof {
                    lemma_parse_moves_failed_prefix(t, k + 1);
                }
                return Err(e);
            },
        }
    }
    assert(t.subrange(0, i - from) =~= t);
    Ok(moves)
}

impl PositionCommand {
    /// Parses the arguments of a `position` command, already split into
    /// tokens.
    pub fn from_token_seq(tokens: &[Vec<char>]) -> (parsed: Result<PositionCommand, ParseError>)
        ensures
            match parsed {
                Ok(p) => parse_position(views(tokens@)) == Ok::<PositionText, ParseFailure>(p@),
                Err(e) => parse_position(views(tokens@)) == Err::<PositionText, ParseFailure>(e@),
            },
    {
        let ghost t = views(tokens@);
        let n = tokens.len();
        if n > 0 && eq_word(&tokens[0], "startpos") {
            if n == 1 {
                let p = PositionCommand { base: BasePosition::StartPos, moves: Vec::new() };
                assert(p@.moves =~= Seq::<Seq<char>>::empty());
                return Ok(p);
            }
            if eq_word(&tokens[1], "moves") {
                assert(views(tokens@).subrange(2, n as int) =~= t.subrange(2, t.len() as int));
                let moves = parse_move_tokens(tokens, 2)?;
                return Ok(PositionCommand { base: BasePosition::StartPos, moves });
            }
            return Err(ParseError::InvalidArgument("position"));
        }
        if n > 0 && eq_word(&tokens[0], "fen") {
            let mut end: usize = 1;
            while end < n && !eq_word(&tokens[end], "moves")
                invariant
                    1 <= end <= n,
                    n == tokens@.len(),
                    t == views(tokens@),
                    index_of_word(t, 1, "moves"@) == index_of_word(t, end as int, "moves"@),
                decreases n - end,
            {
                end = end + 1;
            }
            assert(index_of_word(t, 1, "moves"@) == end);
            if end == 1 {
                return Err(ParseError::MissingArgument("fen"));
            }
            let fields = join_with_spaces(&tokens[1..end]);
            assert(tokens@.subrange(1, end as int) =~= tokens@.subrange(1, end as int));
            assert(views(tokens@.subrange(1, end as int)) =~= t.subrange(1, end as int));
            let from = if end < n {
                end + 1
            } else {
                n
            };
            assert(views(tokens@).subrange(from as int, n as int) =~= tokens_after(t, end as int));
            let moves = parse_move_tokens(tokens, from)?;
            return Ok(PositionCommand { base: BasePosition::Fen(string_of(&fields)), moves });
        }
        Err(ParseError::InvalidArgument("position"))
    }

    /// Parses the arguments of a `position` command.
    pub fn from_tokens(args: &str) -> (parsed: Result<PositionCommand, ParseError>)
        ensures
            match parsed {
                Ok(p) => parse_position(split_ws(args@)) == Ok::<PositionText, ParseFailure>(p@),
                Err(e) => parse_position(split_ws(args@)) == Err::<PositionText, ParseFailure>(e@),
            },
    {
        let chars = chars_of(args);
        let tokens = split_whitespace(&chars);
        PositionCommand::from_token_seq(&tokens)
    }
}

/// Moves parse one token each: the tokens all parse exactly when each parses
/// on its own, and then the moves are the parses of the tokens, one for one
/// and in order.
pub proof fn lemma_parse_moves_each(t: Seq<Seq<char>>)
    ensures
        parse_moves(t) is Ok <==> forall|i: int| 0 <= i < t.len() ==> #[trigger] parse_move(t[i]) is Ok,
        parse_moves(t) is Ok ==> parse_moves(t)->Ok_0.len() == t.len(),
        parse_moves(t) is Ok ==> forall|i: int|
            0 <= i < t.len() ==> parse_moves(t)->Ok_0[i] == #[trigger] parse_move(t[i])->Ok_0,
    decreases t.len(),
{
    if t.len() > 0 {
        let rest = t.drop_last();
        lemma_parse_moves_each(rest);
        assert forall|i: int| 0 <= i < rest.len() implies #[trigger] rest[i] == t[i] by {}
        if !(parse_moves(t) is Ok) {
            if parse_moves(rest) is Err {
                let j = choose|j: int| 0 <= j < rest.len() && !(#[trigger] parse_move(rest[j]) is Ok);
                assert(parse_move(t[j]) is Err);
            } else {
                assert(parse_move(t[t.len() - 1]) is Err);
            }
        } else {
            assert forall|i: int| 0 <= i < t.len() implies #[trigger] parse_move(t[i]) is Ok by {
                if i < t.len() - 1 {
                    assert(parse_move(rest[i]) is Ok);
                }
            }
        }
    }
}

/// The first `word` from `start` on is at `k` when `k` holds it and no token
/// between does.
proof fn lemma_index_of_word_at(t: Seq<Seq<char>>, start: int, word: Seq<char>, k: int)
    requires
        0 <= start <= k < t.len(),
        t[k] == word,
        forall|j: int| start <= j < k ==> t[j] != word,
    ensures
        index_of_word(t, start, word) == k,
    decreases k - start,
{
    if start < k {
        lemma_index_of_word_at(t, start + 1, word, k);
    }
}

/// With no `word` from `start` on, the search runs to the end of the tokens.
proof fn lemma_index_of_word_absent(t: Seq<Seq<char>>, start: int, word: Seq<char>)
    requires
        0 <= start,
        forall|j: int| start <= j < t.len() ==> t[j] != word,
    ensures
        index_of_word(t, start, word) == t.len(),
    decreases t.len() - start,
{
    if start < t.len() {
        lemma_index_of_word_absent(t, start + 1, word);
    }
}

/// In a `fen` command with the `moves` token at `k`, the FEN is the tokens
/// between `fen` and `moves` joined by single spaces, and the moves are the
/// parses of every token after `moves`, one move per token.
pub proof fn lemma_fen_moves_after_moves_token(t: Seq<Seq<char>>, k: int)
    requires
        t.len() > 0,
        t[0] == "fen"@,
        1 < k < t.len(),
        t[k] == "moves"@,
        forall|j: int| 1 <= j < k ==> t[j] != "moves"@,
    ensures
        match parse_moves(t.subrange(k + 1, t.len() as int)) {
            Ok(moves) => parse_position(t) == Ok::<PositionText, ParseFailure>(
                PositionText { base: BaseText::Fen(join_spaced(t.subrange(1, k))), moves },
            ),
            Err(e) => parse_position(t) == Err::<PositionText, ParseFailure>(e),
        },
        parse_position(t) is Ok ==> parse_position(t)->Ok_0.moves.len() == t.len() - k - 1,
{
    reveal_strlit("fen");
    reveal_strlit("startpos");
    assert(t[0].len() == 3);
    lemma_index_of_word_at(t, 1, "moves"@, k);
    lemma_parse_moves_each(t.subrange(k + 1, t.len() as int));
}

/// A `fen` command without a `moves` token is the FEN of all its remaining
/// tokens joined by single spaces, with no move played.
pub proof fn lemma_fen_without_moves(t: Seq<Seq<char>>)
    requires
        t.len() > 1,
        t[0] == "fen"@,
        forall|j: int| 1 <= j < t.len() ==> t[j] != "moves"@,
    ensures
        parse_position(t) == Ok::<PositionText, ParseFailure>(
            PositionText {
                base: BaseText::Fen(join_spaced(t.subrange(1, t.len() as int))),
                moves: Seq::empty(),
            },
        ),
{
    reveal_strlit("fen");
    reveal_strlit("startpos");
    assert(t[0].len() == 3);
    lemma_index_of_word_absent(t, 1, "moves"@);
}

/// A `startpos moves` command plays the parses of every token after `moves`,
/// one move per token.
pub proof fn lemma_startpos_moves(t: Seq<Seq<char>>)
    requires
        t.len() >= 2,
        t[0] == "startpos"@,
        t[1] == "moves"@,
    ensures
        match parse_moves(t.subrange(2, t.len() as int)) {
            Ok(moves) => parse_position(t) == Ok::<PositionText, ParseFailure>(
                PositionText { base: BaseText::StartPos, moves },
            ),
            Err(e) => parse_position(t) == Err::<PositionText, ParseFailure>(e),
        },
        parse_position(t) is Ok ==> parse_position(t)->Ok_0.moves.len() == t.len() - 2,
{
    lemma_parse_moves_each(t.subrange(2, t.len() as int));
}

} // verus!
