use vstd::prelude::*;

use crate::uci::number::{decimal_digits, push_decimal, push_signed_decimal, signed_decimal};
use crate::uci::parse_error::failure_message;
use crate::uci::position::{move_texts, BasePosition, BaseText, PositionCommand, PositionText};
use crate::uci::response::{SearchInfo, SearchResult};
use crate::uci::search_limits::{no_limits, SearchLimits};
use crate::uci::text::{append_chars, append_str, chars_of, eq_word, is_space, is_whitespace, string_of};
use crate::uci::uci_move::{null_move_text, parse_move, UciMove};

verus! {

/// The depth the interactive game searches to for the engine's replies.
pub const INTERACTIVE_SEARCH_DEPTH: u8 = 4;

/// The depth of the probe that tells whether the player has a legal reply.
pub const REPLY_PROBE_DEPTH: u8 = 1;

/// `s` without its leading and trailing white space.
pub open spec fn trimmed(s: Seq<char>) -> Seq<char>
    decreases s.len(),
{
    if s.len() > 0 && is_space(s[0]) {
        trimmed(s.skip(1))
    } else if s.len() > 0 && is_space(s.last()) {
        trimmed(s.drop_last())
    } else {
        s
    }
}

/// Leading white space does not change what trimming gives.
proof fn lemma_trim_front(s: Seq<char>, i: int)
    requires
        0 <= i <= s.len(),
        forall|j: int| 0 <= j < i ==> is_space(#[trigger] s[j]),
    ensures
        trimmed(s) == trimmed(s.subrange(i, s.len() as int)),
    decreases i,
{
    if i == 0 {
        assert(s.subrange(0, s.len() as int) =~= s);
    } else {
        assert(is_space(s[0]));
        let rest = s.skip(1);
        assert forall|j: int| 0 <= j < i - 1 implies is_space(#[trigger] rest[j]) by {
            assert(rest[j] == s[j + 1]);
        }
        lemma_trim_front(rest, i - 1);
        assert(rest.subrange(i - 1, rest.len() as int) =~= s.subrange(i, s.len() as int));
    }
}

/// Trailing white space after a first character that is not white space does
/// not change what trimming gives.
proof fn lemma_trim_back(s: Seq<char>, e: int)
    requires
        1 <= e <= s.len(),
        !is_space(s[0]),
        forall|j: int| e <= j < s.len() ==> is_space(#[trigger] s[j]),
    ensures
        trimmed(s) == trimmed(s.subrange(0, e)),
    decreases s.len() - e,
{
    if e == s.len() {
        assert(s.subrange(0, e) =~= s);
    } else {
        assert(is_space(s.last()));
        let shorter = s.drop_last();
        assert(trimmed(s) == trimmed(shorter));
        assert forall|j: int| e <= j < shorter.len() implies is_space(#[trigger] shorter[j]) by {
            assert(shorter[j] == s[j]);
        }
        lemma_trim_back(shorter, e);
        assert(shorter.subrange(0, e) =~= s.subrange(0, e));
    }
}

/// Returns `s` without its leading and trailing white space.
pub fn trim(s: &[char]) -> (t: Vec<char>)
    ensures
        t@ == trimmed(s@),
{
    let n = s.len();
    let mut start: usize = 0;
    while start < n && is_whitespace(s[start])
        invariant
            start <= n,
            n == s@.len(),
            forall|j: int| 0 <= j < start ==> is_space(#[trigger] s@[j]),
        decreases n - start,
    {
        start = start + 1;
    }
    proof {
        lemma_trim_front(s@, start as int);
    }
    let ghost rest = s@.subrange(start as int, n as int);
    let mut end: usize = n;
    while end > start && is_whitespace(s[end - 1])
        invariant
            start <= end <= n,
            n == s@.len(),
            rest == s@.subrange(start as int, n as int),
            forall|j: int| end <= j < n ==> is_space(#[trigger] s@[j]),
        decreases end - start,
    {
        end = end - 1;
    }
    let mut out: Vec<char> = Vec::new();
    let mut k: usize = start;
    while k < end
        invariant
            start <= k <= end <= n,
            n == s@.len(),
            out@ == s@.subrange(start as int, k as int),
        decreases end - k,
    {
        out.push(s[k]);
        k = k + 1;
        assert(out@ =~= s@.subrange(start as int, k as int));
    }
    proof {
        if start < end {
            assert(rest[0] == s@[start as int]);
            assert forall|j: int| end - start <= j < rest.len() implies is_space(
                #[trigger] rest[j],
            ) by {
                assert(rest[j] == s@[start + j]);
            }
            lemma_trim_back(rest, end - start);
            assert(rest.subrange(0, end - start) =~= out@);
            let t = out@;
            assert(t[0] == s@[start as int]);
            assert(t.last() == s@[end - 1]);
            assert(trimmed(t) == t);
        } else {
            assert forall|j: int| 0 <= j < rest.len() implies is_space(#[trigger] rest[j]) by {
                assert(rest[j] == s@[start + j]);
            }
            lemma_trim_front(rest, rest.len() as int);
            assert(rest.subrange(rest.len() as int, rest.len() as int) =~= Seq::<char>::empty());
            assert(out@ =~= Seq::<char>::empty());
        }
    }
    out
}

/// What a line typed by the player asks for.
pub enum PlayerInput {
    /// Leave the game.
    Quit,
    /// Play this move.
    Play(UciMove),
    /// Nothing playable; the line to show the player.
    Reject(String),
}

/// A player input with its texts taken as characters.
pub enum PlayerInputText {
    Quit,
    Play(Seq<char>),
    Reject(Seq<char>),
}

impl View for PlayerInput {
    type V = PlayerInputText;

    open spec fn view(&self) -> PlayerInputText {
        match self {
            PlayerInput::Quit => PlayerInputText::Quit,
            PlayerInput::Play(m) => PlayerInputText::Play(m@),
            PlayerInput::Reject(text) => PlayerInputText::Reject(text@),
        }
    }
}

/// What the player's line `line` asks for: `quit` and `exit` leave, a move
/// other than the null move is played, and anything else is rejected with
/// the reason.
pub open spec fn player_input(line: Seq<char>) -> PlayerInputText {
    let t = trimmed(line);
    if t == "quit"@ || t == "exit"@ {
        PlayerInputText::Quit
    } else {
        match parse_move(t) {
            Ok(m) => if m == null_move_text() {
                PlayerInputText::Reject("Invalid move: the null move cannot be played."@)
            } else {
                PlayerInputText::Play(m)
            },
            Err(e) => PlayerInputText::Reject("Invalid move: "@ + failure_message(e)),
        }
    }
}

/// Returns what the player's line `line` asks for.
pub fn read_player_input(line: &str) -> (input: PlayerInput)
    ensures
        input@ == player_input(line@),
{
    let chars = chars_of(line);
    let t = trim(&chars);
    if eq_word(&t, "quit") || eq_word(&t, "exit") {
        return PlayerInput::Quit;
    }
    match UciMove::parse_chars(&t) {
        Ok(m) => {
            if m.is_null() {
                PlayerInput::Reject("Invalid move: the null move cannot be played.".to_owned())
            } else {
                PlayerInput::Play(m)
            }
        },
        Err(e) => {
            let mut out: Vec<char> = Vec::new();
            append_str(&mut out, "Invalid move: ");
            let message = e.message();
            append_str(&mut out, message.as_str());
            PlayerInput::Reject(string_of(&out))
        },
    }
}

/// The parenthesised search details shown after the engine's move: depth,
/// score and node count, those that are known, or nothing when none is.
pub open spec fn search_summary(info: SearchInfo) -> Seq<char> {
    let depth = match info.depth {
        Some(d) => seq!["depth "@ + decimal_digits(d as nat)],
        None => Seq::empty(),
    };
    let score = match info.score_cp {
        Some(s) => seq!["score "@ + signed_decimal(s as int) + " cp"@],
        None => Seq::empty(),
    };
    let nodes = match info.nodes {
        Some(n) => seq![decimal_digits(n as nat) + " nodes"@],
        None => Seq::empty(),
    };
    let fields = depth + score + nodes;
    if fields.len() == 0 {
        Seq::empty()
    } else {
        " ("@ + comma_joined(fields) + ")"@
    }
}

/// `parts` joined with `, ` between consecutive parts.
pub open spec fn comma_joined(parts: Seq<Seq<char>>) -> Seq<char>
    decreases parts.len(),
{
    if parts.len() == 0 {
        Seq::empty()
    } else if parts.len() == 1 {
        parts[0]
    } else {
        comma_joined(parts.drop_last()) + ", "@ + parts.last()
    }
}

/// The line announcing the engine's move.
pub open spec fn engine_move_line(m: Seq<char>, info: SearchInfo) -> Seq<char> {
    "Engine plays: "@ + m + search_summary(info)
}

/// Returns the line announcing the engine's move `m`, found by a search
/// described by `info`.
pub fn format_engine_move(m: &UciMove, info: &SearchInfo) -> (line: String)
    ensures
        line@ == engine_move_line(m@, *info),
{
    let mut fields: Vec<Vec<char>> = Vec::new();
    match info.depth {
        Some(d) => {
            let mut field: Vec<char> = Vec::new();
            append_str(&mut field, "depth ");
            push_decimal(&mut field, d as u64);
            fields.push(field);
        },
        None => {},
    }
    let ghost after_depth = fields@;
    match info.score_cp {
        Some(s) => {
            let mut field: Vec<char> = Vec::new();
            append_str(&mut field, "score ");
            push_signed_decimal(&mut field, s as i64);
            append_str(&mut field, " cp");
            fields.push(field);
        },
        None => {},
    }
    let ghost after_score = fields@;
    match info.nodes {
        Some(n) => {
            let mut field: Vec<char> = Vec::new();
            push_decimal(&mut field, n);
            append_str(&mut field, " nodes");
            fields.push(field);
        },
        None => {},
    }
    let mut out: Vec<char> = Vec::new();
    append_str(&mut out, "Engine plays: ");
    append_str(&mut out, m.as_str());
    let ghost head = out@;
    if fields.len() > 0 {
        append_str(&mut out, " (");
        let mut i: usize = 0;
        while i < fields.len()
            invariant
                0 <= i <= fields@.len(),
                out@ == head + " ("@ + comma_joined(
                    fields@.subrange(0, i as int).map_values(|f: Vec<char>| f@),
                ),
            decreases fields@.len() - i,
        {
            let ghost before = out@;
            if i > 0 {
                append_str(&mut out, ", ");
            }
            append_chars(&mut out, &fields[i]);
            proof {
                let next = fields@.subrange(0, i + 1).map_values(|f: Vec<char>| f@);
                let prev = fields@.subrange(0, i as int).map_values(|f: Vec<char>| f@);
                assert(next.drop_last() =~= prev);
                assert(next.last() == fields@[i as int]@);
                if i > 0 {
                    assert(out@ =~= head + " ("@ + (comma_joined(prev) + ", "@ + next.last()));
                } else {
                    assert(prev =~= Seq::<Seq<char>>::empty());
                    assert(out@ =~= head + " ("@ + next[0]);
                }
            }
            i = i + 1;
        }
        append_str(&mut out, ")");
    }
    proof {
        let views = fields@.map_values(|f: Vec<char>| f@);
        assert(fields@.subrange(0, fields@.len() as int) =~= fields@);
        let depth = match info.depth {
            Some(d) => seq!["depth "@ + decimal_digits(d as nat)],
            None => Seq::<Seq<char>>::empty(),
        };
        let score = match info.score_cp {
            Some(s) => seq!["score "@ + signed_decimal(s as int) + " cp"@],
            None => Seq::<Seq<char>>::empty(),
        };
        let nodes = match info.nodes {
            Some(n) => seq![decimal_digits(n as nat) + " nodes"@],
            None => Seq::<Seq<char>>::empty(),
        };
        assert(after_depth.map_values(|f: Vec<char>| f@) =~= depth);
        assert(after_score.map_values(|f: Vec<char>| f@) =~= depth + score);
        assert(views =~= depth + score + nodes);
        assert(out@ =~= engine_move_line(m@, *info));
    }
    string_of(&out)
}

/// What the game does once the engine searched for its reply: play the move
/// it found, or end because it has none.
pub enum EngineReply {
    /// Play this move.
    Play(UciMove),
    /// The game is over; the line to show the player.
    GameOver(String),
}

/// The line ending a game in which the engine has no legal move.
pub open spec fn engine_stuck_line() -> Seq<char> {
    "Game over: the engine has no legal moves."@
}

/// The line ending a game in which the player has no legal move.
pub open spec fn player_stuck_line() -> Seq<char> {
    "Game over: you have no legal moves."@
}

/// Returns what the game does with the engine's search `result`: play its
/// best move, or end the game when there is none.
pub fn engine_reply(result: &SearchResult) -> (reply: EngineReply)
    ensures
        match reply {
            EngineReply::Play(m) => result.best_move matches Some(best) && m@ == best@,
            EngineReply::GameOver(line) => result.best_move is None && line@ == engine_stuck_line(),
        },
{
    match &result.best_move {
        Some(best) => EngineReply::Play(best.duplicate()),
        None => EngineReply::GameOver("Game over: the engine has no legal moves.".to_owned()),
    }
}

/// Returns the line ending the game when the probe search `probe` for the
/// player's reply found no move, and nothing when the game goes on.
pub fn player_reply_check(probe: &SearchResult) -> (over: Option<String>)
    ensures
        match over {
            Some(line) => probe.best_move is None && line@ == player_stuck_line(),
            None => probe.best_move is Some,
        },
{
    match &probe.best_move {
        Some(_) => None,
        None => Some("Game over: you have no legal moves.".to_owned()),
    }
}

/// A command-line game in which the player has White: it keeps the move
/// history that a UCI GUI would keep and states each position from the start.
pub struct InteractiveGame<EngineT> {
    engine: EngineT,
    moves: Vec<UciMove>,
}

impl<EngineT> InteractiveGame<EngineT> {
    /// Starts a game around `engine`, with no move played.
    pub fn new(engine: EngineT) -> (game: InteractiveGame<EngineT>)
        ensures
            game.inner() == engine,
            game.history() == Seq::<Seq<char>>::empty(),
    {
        let game = InteractiveGame { engine, moves: Vec::new() };
        assert(move_texts(game.moves@) =~= Seq::<Seq<char>>::empty());
        game
    }

    /// The engine the game is played with.
    pub closed spec fn inner(&self) -> EngineT {
        self.engine
    }

    /// The moves played so far, in order.
    pub closed spec fn history(&self) -> Seq<Seq<char>> {
        move_texts(self.moves@)
    }

    /// Returns the engine, to talk to it.
    pub fn engine_mut(&mut self) -> (engine: &mut EngineT)
        ensures
            *engine == old(self).inner(),
            final(self).inner() == *final(engine),
            final(self).history() == old(self).history(),
    {
        &mut self.engine
    }

    /// Forgets every move played, for a new game.
    pub fn restart(&mut self)
        ensures
            final(self).inner() == old(self).inner(),
            final(self).history() == Seq::<Seq<char>>::empty(),
    {
        self.moves = Vec::new();
        assert(move_texts(self.moves@) =~= Seq::<Seq<char>>::empty());
    }

    /// Records that `m` was played.
    pub fn record(&mut self, m: UciMove)
        ensures
            final(self).inner() == old(self).inner(),
            final(self).history() == old(self).history().push(m@),
    {
        let ghost before = self.moves@;
        self.moves.push(m);
        assert(move_texts(self.moves@) =~= move_texts(before).push(m@));
    }

    /// Returns the `position` command for the moves played, then `next` when
    /// there is one, from the start position.
    pub fn position(&self, next: Option<&UciMove>) -> (command: PositionCommand)
        ensures
            command@ == (PositionText {
                base: BaseText::StartPos,
                moves: match next {
                    Some(m) => self.history().push(m@),
                    None => self.history(),
                },
            }),
    {
        let mut moves: Vec<UciMove> = Vec::new();
        let mut i: usize = 0;
        while i < self.moves.len()
            invariant
                i <= self.moves@.len(),
                move_texts(moves@) == move_texts(self.moves@.subrange(0, i as int)),
            decreases self.moves@.len() - i,
        {
            let ghost before = moves@;
            moves.push(self.moves[i].duplicate());
            proof {
                let prev = self.moves@.subrange(0, i as int);
                let next = self.moves@.subrange(0, i + 1);
                assert(next =~= prev.push(self.moves@[i as int]));
                assert(move_texts(moves@) =~= move_texts(before).push(self.moves@[i as int]@));
                assert(move_texts(next) =~= move_texts(prev).push(self.moves@[i as int]@));
            }
            i = i + 1;
        }
        assert(self.moves@.subrange(0, i as int) =~= self.moves@);
        match next {
            Some(m) => {
                let ghost before = moves@;
                moves.push(m.duplicate());
                assert(move_texts(moves@) =~= move_texts(before).push(m@));
            },
            None => {},
        }
        PositionCommand { base: BasePosition::StartPos, moves }
    }

    /// Returns the limits of a search to `depth` with no other constraint.
    pub fn search_limits(depth: u8) -> (limits: SearchLimits)
        ensures
            limits == (SearchLimits { depth: Some(depth), ..no_limits() }),
    {
        SearchLimits { depth: Some(depth), ..SearchLimits::default() }
    }

    /// Gives up the game and returns the engine.
    pub fn into_inner(self) -> (engine: EngineT)
        ensures
            engine == self.inner(),
    {
        self.engine
    }
}

} // verus!
