use std::time::Duration;

use chess_kit::engine::{EngineError, SearchCompletion, SearchOutcome, SearchTaskId, MAX_SEARCH_DEPTH};
use chess_kit::uci::adapter::engine_moves;
use chess_kit::uci::game::{
    engine_reply, format_engine_move, player_reply_check, read_player_input, EngineReply,
    InteractiveGame, PlayerInput, INTERACTIVE_SEARCH_DEPTH,
};
use chess_kit::uci::response::{
    format_error, format_failed_search, format_identity, format_info, format_ready,
    format_search_result, sanitize,
};
use chess_kit::uci::{
    BasePosition, Command, ParseError, PositionCommand, SearchInfo, SearchLimits, SearchResult,
    UciAdapter, UciMove,
};

#[test]
fn command_parses_start_position_with_moves() {
    let command = "position startpos moves e2e4 e7e5"
        .parse::<Command>()
        .unwrap();

    assert_eq!(
        command,
        Command::Position(PositionCommand {
            base: BasePosition::StartPos,
            moves: vec!["e2e4".parse().unwrap(), "e7e5".parse().unwrap()],
        })
    );
}

#[test]
fn command_parses_fen_position_with_moves() {
    let command = "position fen 8/8/8/8/8/8/4k3/7K w - - 0 1 moves h1g1"
        .parse::<Command>()
        .unwrap();

    assert_eq!(
        command,
        Command::Position(PositionCommand {
            base: BasePosition::Fen("8/8/8/8/8/8/4k3/7K w - - 0 1".to_owned()),
            moves: vec!["h1g1".parse().unwrap()],
        })
    );
}

#[test]
fn command_parses_clock_and_fixed_search_limits() {
    let Command::Go(limits) =
        "go wtime 1000 btime 2000 winc 10 binc 20 movestogo 30 depth 4 nodes 500 movetime 50"
            .parse::<Command>()
            .unwrap()
    else {
        panic!("expected go command");
    };

    assert_eq!(limits.white_time.map(Duration::from_millis), Some(Duration::from_millis(1000)));
    assert_eq!(limits.black_time.map(Duration::from_millis), Some(Duration::from_millis(2000)));
    assert_eq!(limits.white_increment.map(Duration::from_millis), Some(Duration::from_millis(10)));
    assert_eq!(limits.black_increment.map(Duration::from_millis), Some(Duration::from_millis(20)));
    assert_eq!(limits.moves_to_go, Some(30));
    assert_eq!(limits.depth, Some(4));
    assert_eq!(limits.nodes, Some(500));
    assert_eq!(limits.move_time.map(Duration::from_millis), Some(Duration::from_millis(50)));
}

#[test]
fn command_validates_and_normalizes_uci_moves() {
    assert_eq!("e7e8Q".parse::<UciMove>().unwrap().as_str(), "e7e8q");
    assert!("e2e9".parse::<UciMove>().is_err());
    assert!("e7e8k".parse::<UciMove>().is_err());
}

#[test]
fn position_parses_start_position_with_moves() {
    let position = PositionCommand::from_tokens("startpos moves e2e4 e7e5").unwrap();

    assert_eq!(
        position,
        PositionCommand {
            base: BasePosition::StartPos,
            moves: vec!["e2e4".parse().unwrap(), "e7e5".parse().unwrap()],
        }
    );
}

#[test]
fn position_parses_fen_position_with_moves() {
    let position =
        PositionCommand::from_tokens("fen 8/8/8/8/8/8/4k3/7K w - - 0 1 moves h1g1").unwrap();

    assert_eq!(
        position,
        PositionCommand {
            base: BasePosition::Fen("8/8/8/8/8/8/4k3/7K w - - 0 1".to_owned()),
            moves: vec!["h1g1".parse().unwrap()],
        }
    );
}

#[test]
fn search_limits_parses_clock_and_fixed_search_limits() {
    let limits = SearchLimits::from_tokens(
        "wtime 1000 btime 2000 winc 10 binc 20 movestogo 30 depth 4 nodes 500 movetime 50",
    )
    .unwrap();

    assert_eq!(limits.white_time.map(Duration::from_millis), Some(Duration::from_millis(1000)));
    assert_eq!(limits.black_time.map(Duration::from_millis), Some(Duration::from_millis(2000)));
    assert_eq!(limits.white_increment.map(Duration::from_millis), Some(Duration::from_millis(10)));
    assert_eq!(limits.black_increment.map(Duration::from_millis), Some(Duration::from_millis(20)));
    assert_eq!(limits.moves_to_go, Some(30));
    assert_eq!(limits.depth, Some(4));
    assert_eq!(limits.nodes, Some(500));
    assert_eq!(limits.move_time.map(Duration::from_millis), Some(Duration::from_millis(50)));
}

#[test]
fn rejects_non_positive_search_depths() {
    assert!(SearchLimits::from_tokens("depth 0").is_err());
    assert!(SearchLimits::from_tokens("depth -1").is_err());
}

#[test]
fn uci_move_validates_and_normalizes_uci_moves() {
    assert_eq!("e7e8Q".parse::<UciMove>().unwrap().to_string(), "e7e8q");
    assert!("e2e9".parse::<UciMove>().is_err());
    assert!("e7e8k".parse::<UciMove>().is_err());
}

#[test]
fn invalid_moves_report_their_lowercased_text() {
    assert_eq!(
        "E2E9".parse::<UciMove>(),
        Err(ParseError::InvalidMove("e2e9".to_owned()))
    );
    assert_eq!(
        "E2E9".parse::<UciMove>().unwrap_err().message(),
        "invalid UCI move: e2e9"
    );
    assert_eq!(UciMove::null().as_str(), "0000");
    assert_eq!(UciMove::parse("0000").unwrap(), UciMove::null());
    assert!(UciMove::parse("e2e4q5").is_err());
    assert!(UciMove::parse("i2e4").is_err());
    assert_eq!(UciMove::parse("A7A8n").unwrap().as_str(), "a7a8n");
}

#[test]
fn a_parsed_move_parses_back_to_itself() {
    let first = UciMove::parse("H7H8R").unwrap();
    let again = UciMove::parse(first.as_str()).unwrap();
    assert_eq!(first, again);
}

#[test]
fn command_words_and_their_errors() {
    assert_eq!("uci".parse::<Command>().unwrap(), Command::Uci);
    assert_eq!("  isready  ".parse::<Command>().unwrap(), Command::IsReady);
    assert_eq!("ucinewgame".parse::<Command>().unwrap(), Command::UciNewGame);
    assert_eq!("stop".parse::<Command>().unwrap(), Command::Stop);
    assert_eq!("ponderhit".parse::<Command>().unwrap(), Command::PonderHit);
    assert_eq!("quit now".parse::<Command>().unwrap(), Command::Quit);
    assert_eq!("".parse::<Command>().unwrap(), Command::Unknown);
    assert_eq!("unsupported".parse::<Command>().unwrap(), Command::Unknown);
    assert_eq!("debug on".parse::<Command>().unwrap(), Command::Debug(true));
    assert_eq!("debug off".parse::<Command>().unwrap(), Command::Debug(false));
    assert_eq!(
        "debug".parse::<Command>(),
        Err(ParseError::InvalidArgument("debug"))
    );
    assert_eq!(
        "position".parse::<Command>(),
        Err(ParseError::InvalidArgument("position"))
    );
    assert_eq!(
        "position startpos e2e4".parse::<Command>(),
        Err(ParseError::InvalidArgument("position"))
    );
    assert_eq!(
        "position fen moves e2e4".parse::<Command>(),
        Err(ParseError::MissingArgument("fen"))
    );
    assert_eq!(
        "position startpos moves e2e4 x".parse::<Command>(),
        Err(ParseError::InvalidMove("x".to_owned()))
    );
    assert_eq!(
        "go wtime".parse::<Command>(),
        Err(ParseError::MissingArgument("wtime"))
    );
    assert_eq!(
        "go movestogo 4294967296".parse::<Command>(),
        Err(ParseError::InvalidArgument("movestogo"))
    );
    assert_eq!(
        ParseError::MissingArgument("fen").message(),
        "missing value for fen"
    );
    assert_eq!(
        ParseError::InvalidArgument("depth").message(),
        "invalid value for depth"
    );
}

#[test]
fn go_ignores_unknown_words_and_reads_infinite() {
    let limits = SearchLimits::from_tokens("searchmoves e2e4 infinite nodes +7 mate 3").unwrap();
    assert!(limits.infinite);
    assert_eq!(limits.nodes, Some(7));
    assert_eq!(limits.depth, None);
    assert_eq!(SearchLimits::from_tokens("").unwrap(), SearchLimits::default());
    assert_eq!(
        SearchLimits::from_tokens("depth 256"),
        Err(ParseError::InvalidArgument("depth"))
    );
    assert_eq!(
        SearchLimits::from_tokens("nodes 18446744073709551615").unwrap().nodes,
        Some(u64::MAX)
    );
    assert!(SearchLimits::from_tokens("nodes 18446744073709551616").is_err());
}

#[test]
fn fen_without_moves_takes_every_field() {
    let position = PositionCommand::from_tokens("fen a b  c").unwrap();
    assert_eq!(position.base, BasePosition::Fen("a b c".to_owned()));
    assert!(position.moves.is_empty());
    let position = PositionCommand::from_tokens("startpos").unwrap();
    assert_eq!(position.base, BasePosition::StartPos);
}

#[test]
fn formats_a_minimal_session() {
    assert_eq!(
        format_identity("Test Engine", "Test Author"),
        "id name Test Engine\nid author Test Author\nuciok\n"
    );

    let mut result = SearchResult::new(Some(UciMove::parse("e2e4").unwrap()));
    result.info = SearchInfo {
        depth: Some(3),
        score_cp: Some(12),
        nodes: Some(42),
        elapsed: Some(2),
    };
    assert_eq!(
        format_search_result(&result),
        "info depth 3 score cp 12 nodes 42 time 2\nbestmove e2e4\n"
    );
}

#[test]
fn formats_search_results_without_information() {
    let result = SearchResult::new(None);
    assert_eq!(format_info(&result.info), None);
    assert_eq!(format_search_result(&result), "bestmove 0000\n");

    let mut result = SearchResult::new(Some(UciMove::parse("e2e4").unwrap()));
    result.ponder = Some(UciMove::parse("e7e5").unwrap());
    result.info.score_cp = Some(-35);
    assert_eq!(
        format_search_result(&result),
        "info score cp -35\nbestmove e2e4 ponder e7e5\n"
    );
    result.info.score_cp = Some(i32::MIN);
    assert_eq!(
        format_info(&result.info),
        Some("info score cp -2147483648".to_owned())
    );
}

#[test]
fn sanitizes_line_breaks_in_engine_text() {
    assert_eq!(sanitize("a\r\nb\nc"), "a  b c");
    assert_eq!(
        format_identity("Bad\nName", "Me"),
        "id name Bad Name\nid author Me\nuciok\n"
    );
    assert_eq!(
        format_error("boom\nbestmove e2e4"),
        "info string error: boom bestmove e2e4\n"
    );
}

#[test]
fn clock_limits_choose_the_depth() {
    let adapter = UciAdapter::new((), 4);
    let limits = SearchLimits {
        white_time: Some(50),
        black_time: Some(50),
        ..SearchLimits::default()
    };
    assert_eq!(adapter.search_limits(&limits).maximum_depth, MAX_SEARCH_DEPTH);

    let only_white = SearchLimits {
        white_time: Some(50),
        ..SearchLimits::default()
    };
    assert_eq!(adapter.search_limits(&only_white).maximum_depth, 4);

    let move_time = SearchLimits {
        move_time: Some(50),
        ..SearchLimits::default()
    };
    let converted = adapter.search_limits(&move_time);
    assert_eq!(converted.maximum_depth, MAX_SEARCH_DEPTH);
    assert_eq!(converted.move_time, Some(50));
}

#[test]
fn infinite_and_explicit_depths() {
    let adapter = UciAdapter::new((), 4);
    let limits = SearchLimits {
        infinite: true,
        ..SearchLimits::default()
    };
    assert_eq!(adapter.search_limits(&limits).maximum_depth, MAX_SEARCH_DEPTH);
    let limits = SearchLimits {
        infinite: true,
        depth: Some(2),
        ..SearchLimits::default()
    };
    assert_eq!(adapter.search_limits(&limits).maximum_depth, 2);
    assert_eq!(adapter.search_limits(&SearchLimits::default()).maximum_depth, 4);
}

#[test]
fn stop_requests_follow_the_awaited_search() {
    let mut adapter = UciAdapter::new(7u8, 4);
    let old_task = SearchTaskId::new(1);
    let new_task = SearchTaskId::new(2);

    adapter.search_started(old_task);
    assert!(adapter.forwards_stop(old_task));
    adapter.forget_search();
    assert!(!adapter.forwards_stop(old_task));
    adapter.search_started(new_task);

    assert!(!adapter.accept_completion(old_task));
    assert!(adapter.accept_completion(new_task));
    assert!(!adapter.accept_completion(new_task));
    assert_eq!(*adapter.engine(), 7);
    *adapter.engine_mut() = 9;
    assert_eq!(adapter.into_inner(), 9);
}

#[test]
fn player_input_is_trimmed_and_classified() {
    assert!(matches!(read_player_input("quit\n"), PlayerInput::Quit));
    assert!(matches!(read_player_input("  exit "), PlayerInput::Quit));
    match read_player_input(" E2E4\n") {
        PlayerInput::Play(m) => assert_eq!(m.as_str(), "e2e4"),
        _ => panic!("expected a move"),
    }
    match read_player_input("0000") {
        PlayerInput::Reject(text) => {
            assert_eq!(text, "Invalid move: the null move cannot be played.")
        }
        _ => panic!("expected a rejection"),
    }
    match read_player_input("not-a-move\n") {
        PlayerInput::Reject(text) => assert_eq!(text, "Invalid move: invalid UCI move: not-a-move"),
        _ => panic!("expected a rejection"),
    }
}

#[test]
fn announces_the_engine_move_with_its_search_details() {
    let m = UciMove::parse("e7e5").unwrap();
    let info = SearchInfo {
        depth: Some(4),
        score_cp: Some(10),
        nodes: Some(20),
        elapsed: None,
    };
    assert_eq!(
        format_engine_move(&m, &info),
        "Engine plays: e7e5 (depth 4, score 10 cp, 20 nodes)"
    );
    let info = SearchInfo {
        depth: None,
        score_cp: None,
        nodes: Some(20),
        elapsed: Some(5),
    };
    assert_eq!(format_engine_move(&m, &info), "Engine plays: e7e5 (20 nodes)");
    assert_eq!(
        format_engine_move(&m, &SearchInfo::default()),
        "Engine plays: e7e5"
    );
}

#[test]
fn the_game_states_each_position_from_the_start() {
    let mut game = InteractiveGame::new(0u8);
    let e2e4 = UciMove::parse("e2e4").unwrap();
    let tried = game.position(Some(&e2e4));
    assert_eq!(tried.base, BasePosition::StartPos);
    assert_eq!(tried.moves, vec![e2e4.clone()]);
    game.record(e2e4);
    game.record(UciMove::parse("e7e5").unwrap());
    let position = game.position(None);
    assert_eq!(
        position.moves.iter().map(UciMove::as_str).collect::<Vec<_>>(),
        ["e2e4", "e7e5"]
    );
    let limits = InteractiveGame::<u8>::search_limits(INTERACTIVE_SEARCH_DEPTH);
    assert_eq!(limits.depth, Some(4));
    assert!(!limits.infinite);
    game.restart();
    assert!(game.position(None).moves.is_empty());
    *game.engine_mut() = 3;
    assert_eq!(game.into_inner(), 3);
}

#[test]
fn converts_engine_outcomes_and_rejects_the_null_move_at_the_adapter_boundary() {
    let outcome = SearchOutcome {
        best_move: Some(UciMove::parse("a7a8Q").unwrap()),
        depth: 3,
        score: 15,
        nodes: 23,
        elapsed: 4,
    };
    assert_eq!(
        SearchInfo::from_outcome(&outcome),
        SearchInfo {
            depth: Some(3),
            score_cp: Some(15),
            nodes: Some(23),
            elapsed: Some(4),
        }
    );
    let result = SearchResult::from_outcome(outcome);
    assert_eq!(result.best_move.as_ref().map(UciMove::as_str), Some("a7a8q"));
    assert_eq!(result.ponder, None);
    assert_eq!(
        format_search_result(&result),
        "info depth 3 score cp 15 nodes 23 time 4\nbestmove a7a8q\n"
    );

    let position = PositionCommand::from_tokens("startpos moves e2e4 e7e5").unwrap();
    let moves = engine_moves(&position).unwrap();
    assert_eq!(moves, position.moves);
    let position = PositionCommand::from_tokens("startpos moves e2e4 0000").unwrap();
    assert_eq!(
        engine_moves(&position).unwrap_err().message(),
        "invalid UCI move: 0000"
    );
}

#[test]
fn announces_an_engine_outcome_like_the_terminal_game() {
    let outcome = SearchOutcome {
        best_move: Some(UciMove::parse("e7e5").unwrap()),
        depth: 7,
        score: 10,
        nodes: 20,
        elapsed: 0,
    };
    let info = SearchInfo::from_outcome(&outcome);
    let m = outcome.best_move.as_ref().unwrap();
    assert_eq!(
        format_engine_move(m, &info),
        "Engine plays: e7e5 (depth 7, score 10 cp, 20 nodes)"
    );
}

#[test]
fn only_the_awaited_completion_is_published() {
    let mut adapter = UciAdapter::new((), 4);
    let old_task = SearchTaskId::new(1);
    let new_task = SearchTaskId::new(2);
    adapter.search_started(new_task);
    let outcome = SearchOutcome {
        best_move: Some(UciMove::parse("a7a8q").unwrap()),
        depth: 2,
        score: 15,
        nodes: 23,
        elapsed: 4,
    };
    let stale = SearchCompletion::new(old_task, Ok(outcome.clone()));
    assert!(adapter.take_completion(stale).is_none());
    let fresh = SearchCompletion::new(new_task, Ok(outcome));
    let result = adapter.take_completion(fresh).unwrap().unwrap();
    assert_eq!(result.info.depth, Some(2));
    assert_eq!(result.best_move.unwrap().as_str(), "a7a8q");
    assert!(!adapter.forwards_stop(new_task));

    adapter.search_started(old_task);
    let failed = SearchCompletion::new(old_task, Err(EngineError::new("search cancelled")));
    let error = adapter.take_completion(failed).unwrap().unwrap_err();
    assert_eq!(error.message(), "search cancelled");
}

/// Starts a search the way a test engine does: it numbers the task, and the
/// search completes at once at the depth it was asked for.
fn start_and_complete(adapter: &mut UciAdapter<u64>, limits: &SearchLimits) -> SearchCompletion {
    let converted = adapter.search_limits(limits);
    *adapter.engine_mut() += 1;
    let task = SearchTaskId::new(*adapter.engine());
    adapter.search_started(task);
    SearchCompletion::new(
        task,
        Ok(SearchOutcome {
            best_move: Some(UciMove::parse("a7a8Q").unwrap()),
            depth: converted.maximum_depth,
            score: 15,
            nodes: 23,
            elapsed: 4,
        }),
    )
}

#[test]
fn converts_uci_commands_and_engine_results_at_the_adapter_boundary() {
    let mut adapter = UciAdapter::new(0u64, 4);
    let position = PositionCommand {
        base: BasePosition::StartPos,
        moves: vec!["e2e4".parse().unwrap()],
    };
    let moves = engine_moves(&position).unwrap();
    adapter.forget_search();

    let limits = SearchLimits {
        depth: Some(3),
        ..SearchLimits::default()
    };
    let completion = start_and_complete(&mut adapter, &limits);
    let result = adapter.take_completion(completion).unwrap().unwrap();

    assert_eq!(moves[0].to_string(), "e2e4");
    assert_eq!(result.best_move.unwrap().to_string(), "a7a8q");
    assert_eq!(result.info.depth, Some(3));

    let completion = start_and_complete(&mut adapter, &SearchLimits::default());
    let default_result = adapter.take_completion(completion).unwrap().unwrap();
    assert_eq!(default_result.info.depth, Some(4));
}

#[test]
fn time_controls_search_to_the_engines_maximum_supported_depth() {
    let mut adapter = UciAdapter::new(0u64, 4);
    let limits = SearchLimits {
        move_time: Some(50),
        ..SearchLimits::default()
    };
    let completion = start_and_complete(&mut adapter, &limits);
    let result = adapter.take_completion(completion).unwrap().unwrap();

    assert_eq!(result.info.depth, Some(MAX_SEARCH_DEPTH));
}

#[test]
fn infinite_search_uses_the_engines_maximum_supported_depth() {
    let mut adapter = UciAdapter::new(0u64, 4);
    let limits = SearchLimits {
        infinite: true,
        ..SearchLimits::default()
    };
    let completion = start_and_complete(&mut adapter, &limits);
    let result = adapter.take_completion(completion).unwrap().unwrap();

    assert_eq!(result.info.depth, Some(MAX_SEARCH_DEPTH));
}

#[test]
fn stopped_search_completion_cannot_overtake_a_new_position_search() {
    let mut adapter = UciAdapter::new(0u64, 4);
    *adapter.engine_mut() += 1;
    let old_task = SearchTaskId::new(*adapter.engine());
    adapter.search_started(old_task);
    assert!(adapter.forwards_stop(old_task));
    adapter.forget_search();

    let stale = SearchCompletion::new(
        old_task,
        Ok(SearchOutcome {
            best_move: Some(UciMove::parse("a7a8q").unwrap()),
            depth: 1,
            score: 15,
            nodes: 23,
            elapsed: 4,
        }),
    );
    let limits = SearchLimits {
        depth: Some(2),
        ..SearchLimits::default()
    };
    let fresh = start_and_complete(&mut adapter, &limits);

    assert!(adapter.take_completion(stale).is_none());
    let result = adapter.take_completion(fresh).unwrap().unwrap();
    assert_eq!(result.info.depth, Some(2));
    assert!(!adapter.forwards_stop(SearchTaskId::new(2)));
}

#[test]
fn engine_reply_plays_the_best_move() {
    let result = SearchResult::new(Some("e7e5".parse().unwrap()));
    match engine_reply(&result) {
        EngineReply::Play(m) => assert_eq!(m, "e7e5".parse::<UciMove>().unwrap()),
        EngineReply::GameOver(line) => panic!("unexpected game over: {line}"),
    }
}

#[test]
fn engine_reply_ends_the_game_without_a_move() {
    let result = SearchResult::new(None);
    match engine_reply(&result) {
        EngineReply::Play(m) => panic!("unexpected move: {m:?}"),
        EngineReply::GameOver(line) => {
            assert_eq!(line, "Game over: the engine has no legal moves.")
        }
    }
}

#[test]
fn player_reply_check_ends_the_game_only_without_a_move() {
    let mut probe = SearchResult::new(None);
    assert_eq!(
        player_reply_check(&probe),
        Some("Game over: you have no legal moves.".to_owned())
    );
    probe.best_move = Some("g1f3".parse().unwrap());
    assert_eq!(player_reply_check(&probe), None);
}

#[test]
fn ready_and_failed_search_responses() {
    assert_eq!(format_ready(), "readyok\n");
    assert_eq!(
        format_failed_search("no\nposition"),
        "info string error: no position\nbestmove 0000\n"
    );
}
