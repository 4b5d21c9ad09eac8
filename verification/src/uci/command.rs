use vstd::prelude::*;

use crate::uci::parse_error::{ParseError, ParseFailure};
use crate::uci::position::{parse_position, PositionCommand, PositionText};
use crate::uci::search_limits::{no_limits, parse_go, SearchLimits};
use crate::uci::text::{chars_of, eq_word, split_whitespace, split_ws, views};

verus! {

/// A command from the GUI to the engine that the protocol loop understands.
#[derive(Clone, Debug, PartialEq, Eq)]
pub enum Command {
    Uci,
    Debug(bool),
    IsReady,
    UciNewGame,
    Position(PositionCommand),
    Go(SearchLimits),
    Stop,
    PonderHit,
    Quit,
    Unknown,
}

/// A command with its texts taken as characters.
pub enum CommandText {
    Uci,
    Debug(bool),
    IsReady,
    UciNewGame,
    Position(PositionText),
    Go(SearchLimits),
    Stop,
    PonderHit,
    Quit,
    Unknown,
}

impl View for Command {
    type V = CommandText;

    open spec fn view(&self) -> CommandText {
        match self {
            Command::Uci => CommandText::Uci,
            Command::Debug(on) => CommandText::Debug(*on),
            Command::IsReady => CommandText::IsReady,
            Command::UciNewGame => CommandText::UciNewGame,
            Command::Position(p) => CommandText::Position(p@),
            Command::Go(limits) => CommandText::Go(*limits),
            Command::Stop => CommandText::Stop,
            Command::PonderHit => CommandText::PonderHit,
            Command::Quit => CommandText::Quit,
            Command::Unknown => CommandText::Unknown,
        }
    }
}

/// What parsing a line whose tokens are `t` gives.
///
/// An empty line and an unknown command word are `Unknown`; `debug` takes
/// `on` or `off`; `position` and `go` parse the tokens after their word;
/// anything after the word of another command is ignored.
pub open spec fn parse_command(t: Seq<Seq<char>>) -> Result<CommandText, ParseFailure> {
    if t.len() == 0 {
        Ok(CommandText::Unknown)
    } else {
        let word = t[0];
        let args = t.subrange(1, t.len() as int);
        if word == "uci"@ {
            Ok(CommandText::Uci)
        } else if word == "debug"@ {
            if t.len() > 1 && t[1] == "on"@ {
                Ok(CommandText::Debug(true))
            } else if t.len() > 1 && t[1] == "off"@ {
                Ok(CommandText::Debug(false))
            } else {
                Err(ParseFailure::InvalidArgument("debug"@))
            }
        } else if word == "isready"@ {
            Ok(CommandText::IsReady)
        } else if word == "ucinewgame"@ {
            Ok(CommandText::UciNewGame)
        } else if word == "position"@ {
            match parse_position(args) {
                Ok(p) => Ok(CommandText::Position(p)),
                Err(e) => Err(e),
            }
        } else if word == "go"@ {
            match parse_go(args) {
                Ok(limits) => Ok(CommandText::Go(limits)),
                Err(e) => Err(e),
            }
        } else if word == "stop"@ {
            Ok(CommandText::Stop)
        } else if word == "ponderhit"@ {
            Ok(CommandText::PonderHit)
        } else if word == "quit"@ {
            Ok(CommandText::Quit)
        } else {
            Ok(CommandText::Unknown)
        }
    }
}

impl Command {
    /// Parses one line of GUI input.
    pub fn parse(line: &str) -> (parsed: Result<Command, ParseError>)
        ensures
            match parsed {
                Ok(c) => parse_command(split_ws(line@)) == Ok::<CommandText, ParseFailure>(c@),
                Err(e) => parse_command(split_ws(line@)) == Err::<CommandText, ParseFailure>(e@),
            },
    {
        let chars = chars_of(line);
        let tokens = split_whitespace(&chars);
        let ghost t = views(tokens@);
        let n = tokens.len();
        if n == 0 {
            return Ok(Command::Unknown);
        }
        let word = &tokens[0];
        assert(t[0] == word@);
        let rest = &tokens[1..n];
        assert(views(rest@) =~= t.subrange(1, t.len() as int));
        if eq_word(word, "uci") {
            Ok(Command::Uci)
        } else if eq_word(word, "debug") {
            if n > 1 && eq_word(&tokens[1], "on") {
                Ok(Command::Debug(true))
            } else if n > 1 && eq_word(&tokens[1], "off") {
                Ok(Command::Debug(false))
            } else {
                Err(ParseError::InvalidArgument("debug"))
            }
        } else if eq_word(word, "isready") {
            Ok(Command::IsReady)
        } else if eq_word(word, "ucinewgame") {
            Ok(Command::UciNewGame)
        } else if eq_word(word, "position") {
            match PositionCommand::from_token_seq(rest) {
                Ok(p) => Ok(Command::Position(p)),
                Err(e) => Err(e),
            }
        } else if eq_word(word, "go") {
            match SearchLimits::from_token_seq(rest) {
                Ok(limits) => Ok(Command::Go(limits)),
                Err(e) => Err(e),
            }
        } else if eq_word(word, "stop") {
            Ok(Command::Stop)
        } else if eq_word(word, "ponderhit") {
            Ok(Command::PonderHit)
        } else if eq_word(word, "quit") {
            Ok(Command::Quit)
        } else {
            Ok(Command::Unknown)
        }
    }
}

impl std::str::FromStr for Command {
    type Err = ParseError;

    fn from_str(line: &str) -> (parsed: Result<Command, ParseError>)
        ensures
            match parsed {
                Ok(c) => parse_command(split_ws(line@)) == Ok::<CommandText, ParseFailure>(c@),
                Err(e) => parse_command(split_ws(line@)) == Err::<CommandText, ParseFailure>(e@),
            },
    {
        Command::parse(line)
    }
}

/// A line whose first word is `go` is always a `go` command, never an unknown
/// one: its limits are those read from the tokens after the word, and a bare
/// `go` sets no limit at all.
pub proof fn lemma_go_line_is_go(t: Seq<Seq<char>>)
    requires
        t.len() >= 1,
        t[0] == "go"@,
    ensures
        parse_command(t) !is Ok || parse_command(t)->Ok_0 !is Unknown,
        match parse_go(t.subrange(1, t.len() as int)) {
            Ok(limits) => parse_command(t) == Ok::<CommandText, ParseFailure>(
                CommandText::Go(limits),
            ),
            Err(e) => parse_command(t) == Err::<CommandText, ParseFailure>(e),
        },
        t.len() == 1 ==> parse_command(t) == Ok::<CommandText, ParseFailure>(
            CommandText::Go(no_limits()),
        ),
{
    reveal_strlit("go");
    reveal_strlit("uci");
    reveal_strlit("debug");
    reveal_strlit("isready");
    reveal_strlit("ucinewgame");
    reveal_strlit("position");
    assert(t[0].len() == 2);
    if t.len() == 1 {
        assert(t.subrange(1, 1) =~= Seq::<Seq<char>>::empty());
    }
}

} // verus!
