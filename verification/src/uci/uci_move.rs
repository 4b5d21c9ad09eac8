use vstd::prelude::*;

use crate::uci::parse_error::{ParseError, ParseFailure};
use crate::uci::text::{chars_of, eq_word, lower, lower_char, lowercase, string_of};

verus! {

/// A move encoded in UCI long algebraic notation, always lower case.
#[derive(Clone, Debug, PartialEq, Eq)]
pub struct UciMove(String);

impl View for UciMove {
    type V = Seq<char>;

    closed spec fn view(&self) -> Seq<char> {
        self.0@
    }
}

/// Whether `c` names a file, `a` to `h`.
pub open spec fn is_file(c: char) -> bool {
    'a' <= c <= 'h'
}

/// Whether `c` names a rank, `1` to `8`.
pub open spec fn is_rank(c: char) -> bool {
    '1' <= c <= '8'
}

/// Whether `c` names a piece that a pawn may promote to.
pub open spec fn is_promotion(c: char) -> bool {
    c == 'q' || c == 'r' || c == 'b' || c == 'n'
}

/// Whether `t` is a lower-case move in long algebraic notation: two squares,
/// then an optional promotion piece.
pub open spec fn is_move_text(t: Seq<char>) -> bool {
    &&& t.len() == 4 || t.len() == 5
    &&& is_file(t[0]) && is_rank(t[1])
    &&& is_file(t[2]) && is_rank(t[3])
    &&& t.len() == 4 || is_promotion(t[4])
}

/// The UCI null move, `0000`.
pub open spec fn null_move_text() -> Seq<char> {
    "0000"@
}

/// What parsing `s` as a UCI move gives: the move lower-cased when it is the
/// null move or a move in long algebraic notation, else that lower-cased text
/// as an invalid move.
pub open spec fn parse_move(s: Seq<char>) -> Result<Seq<char>, ParseFailure> {
    let t = lower(s);
    if t == null_move_text() || is_move_text(t) {
        Ok(t)
    } else {
        Err(ParseFailure::InvalidMove(t))
    }
}

/// Returns whether `t` is a lower-case move in long algebraic notation.
fn is_move_chars(t: &[char]) -> (valid: bool)
    ensures
        valid == is_move_text(t@),
{
    let n = t.len();
    if n != 4 && n != 5 {
        return false;
    }
    let squares = 'a' <= t[0] && t[0] <= 'h' && '1' <= t[1] && t[1] <= '8' && 'a' <= t[2] && t[2]
        <= 'h' && '1' <= t[3] && t[3] <= '8';
    squares && (n == 4 || t[4] == 'q' || t[4] == 'r' || t[4] == 'b' || t[4] == 'n')
}

impl UciMove {
    /// The UCI null move, used when there is no legal move.
    pub fn null() -> (m: UciMove)
        ensures
            m@ == null_move_text(),
    {
        UciMove("0000".to_owned())
    }

    /// Returns the move's text.
    pub fn as_str(&self) -> (text: &str)
        ensures
            text@ == self@,
    {
        self.0.as_str()
    }

    /// Returns the move's text as an owned string.
    pub fn to_string(&self) -> (text: String)
        ensures
            text@ == self@,
    {
        self.0.clone()
    }

    /// Returns a move with the same text.
    pub fn duplicate(&self) -> (copy: UciMove)
        ensures
            copy@ == self@,
    {
        UciMove(self.0.clone())
    }

    /// Returns whether two moves have the same text.
    pub fn same(&self, other: &UciMove) -> (equal: bool)
        ensures
            equal == (self@ == other@),
    {
        self.0 == other.0
    }

    /// Returns whether this is the null move.
    pub fn is_null(&self) -> (null: bool)
        ensures
            null == (self@ == null_move_text()),
    {
        let chars = chars_of(self.0.as_str());
        eq_word(&chars, "0000")
    }

    /// Parses a move given as characters; the case of its letters does not
    /// matter.
    pub fn parse_chars(value: &[char]) -> (parsed: Result<UciMove, ParseError>)
        ensures
            match parsed {
                Ok(m) => parse_move(value@) == Ok::<Seq<char>, ParseFailure>(m@),
                Err(e) => parse_move(value@) == Err::<Seq<char>, ParseFailure>(e@),
            },
    {
        let lowered = lowercase(value);
        if eq_word(&lowered, "0000") || is_move_chars(&lowered) {
            Ok(UciMove(string_of(&lowered)))
        } else {
            Err(ParseError::InvalidMove(string_of(&lowered)))
        }
    }

    /// Parses a move; the case of its letters does not matter.
    pub fn parse(value: &str) -> (parsed: Result<UciMove, ParseError>)
        ensures
            match parsed {
                Ok(m) => parse_move(value@) == Ok::<Seq<char>, ParseFailure>(m@),
                Err(e) => parse_move(value@) == Err::<Seq<char>, ParseFailure>(e@),
            },
    {
        let chars = chars_of(value);
        UciMove::parse_chars(&chars)
    }
}

impl std::str::FromStr for UciMove {
    type Err = ParseError;

    fn from_str(value: &str) -> (parsed: Result<UciMove, ParseError>)
        ensures
            match parsed {
                Ok(m) => parse_move(value@) == Ok::<Seq<char>, ParseFailure>(m@),
                Err(e) => parse_move(value@) == Err::<Seq<char>, ParseFailure>(e@),
            },
    {
        UciMove::parse(value)
    }
}

/// Lower-casing twice is lower-casing once.
pub proof fn lemma_lower_idempotent(s: Seq<char>)
    ensures
        lower(lower(s)) == lower(s),
{
    assert forall|i: int| 0 <= i < s.len() implies lower_char(lower_char(s[i])) == lower_char(
        s[i],
    ) by {
        let c = s[i];
        if 'A' <= c <= 'Z' {
            assert('a' <= lower_char(c) <= 'z');
        }
    }
    assert(lower(lower(s)) =~= lower(s));
}

/// The text of a parsed move is its own canonical form: parsing it again
/// gives the same move.
pub proof fn lemma_parse_move_canonical(s: Seq<char>)
    requires
        parse_move(s) is Ok,
    ensures
        parse_move(parse_move(s)->Ok_0) == parse_move(s),
{
    lemma_lower_idempotent(s);
}

/// Every move from one board square to another, each square a file `a` to
/// `h` followed by a rank `1` to `8`, parses as itself.
pub proof fn lemma_board_moves_parse(from_file: char, from_rank: char, to_file: char, to_rank: char)
    requires
        'a' <= from_file <= 'h',
        '1' <= from_rank <= '8',
        'a' <= to_file <= 'h',
        '1' <= to_rank <= '8',
    ensures
        parse_move(seq![from_file, from_rank, to_file, to_rank]) == Ok::<Seq<char>, ParseFailure>(
            seq![from_file, from_rank, to_file, to_rank],
        ),
{
    let m = seq![from_file, from_rank, to_file, to_rank];
    assert(lower(m) =~= m);
}

/// Every move from one board square to another followed by a promotion to a
/// queen, rook, bishop or knight parses as itself.
pub proof fn lemma_promotions_parse(
    from_file: char,
    from_rank: char,
    to_file: char,
    to_rank: char,
    piece: char,
)
    requires
        'a' <= from_file <= 'h',
        '1' <= from_rank <= '8',
        'a' <= to_file <= 'h',
        '1' <= to_rank <= '8',
        piece == 'q' || piece == 'r' || piece == 'b' || piece == 'n',
    ensures
        parse_move(seq![from_file, from_rank, to_file, to_rank, piece]) == Ok::<
            Seq<char>,
            ParseFailure,
        >(seq![from_file, from_rank, to_file, to_rank, piece]),
{
    let m = seq![from_file, from_rank, to_file, to_rank, piece];
    assert(lower(m) =~= m);
}

/// The case of the letters of a move does not matter: a text whose letters,
/// lower-cased, name two board squares and an optional promotion piece parses
/// as that lower-cased text.
pub proof fn lemma_moves_parse_in_any_case(s: Seq<char>)
    requires
        s.len() == 4 || s.len() == 5,
        'a' <= lower_char(s[0]) <= 'h',
        '1' <= s[1] <= '8',
        'a' <= lower_char(s[2]) <= 'h',
        '1' <= s[3] <= '8',
        s.len() == 4 || lower_char(s[4]) == 'q' || lower_char(s[4]) == 'r' || lower_char(s[4])
            == 'b' || lower_char(s[4]) == 'n',
    ensures
        parse_move(s) == Ok::<Seq<char>, ParseFailure>(lower(s)),
{
}

/// A parsed move is the null move `0000` or two board squares, each a file
/// `a` to `h` and a rank `1` to `8`, with an optional promotion to a queen,
/// rook, bishop or knight; it is the given text with its letters in lower
/// case, so it has the given text's length.
pub proof fn lemma_parsed_move_shape(s: Seq<char>)
    requires
        parse_move(s) is Ok,
    ensures
        ({
            let t = parse_move(s)->Ok_0;
            &&& t.len() == s.len()
            &&& forall|i: int| 0 <= i < s.len() ==> #[trigger] t[i] == lower_char(s[i])
            &&& t == "0000"@ || {
                &&& t.len() == 4 || t.len() == 5
                &&& 'a' <= t[0] <= 'h' && '1' <= t[1] <= '8'
                &&& 'a' <= t[2] <= 'h' && '1' <= t[3] <= '8'
                &&& t.len() == 4 || t[4] == 'q' || t[4] == 'r' || t[4] == 'b' || t[4] == 'n'
            }
        }),
{
}

} // verus!
