use chess_kit::engine::task::claim_scope;
use chess_kit::engine::{
    checked_search_depth, find_legal_move, requested_move_matches, EngineConfig, EngineError, PositionBase,
    SearchCompletion, SearchLimits, SearchOutcome, SearchRequest, SearchTaskId, SearchTasks,
    DEFAULT_SEARCH_DEPTH, DEFAULT_TRANSPOSITION_TABLE_SIZE_MB, MAX_SEARCH_DEPTH,
};
use chess_kit::uci::UciMove;

#[test]
fn engine_errors_keep_their_message() {
    let error = EngineError::new("illegal move");
    assert_eq!(error.message(), "illegal move");
    assert_eq!(EngineError::from_message("x".to_owned()), EngineError::new("x"));
}

#[test]
fn configuration_and_requests_hold_what_they_were_given() {
    assert_eq!(EngineConfig::new(1).transposition_table_size_mb, 1);
    assert_eq!(DEFAULT_TRANSPOSITION_TABLE_SIZE_MB, 1024);
    assert_eq!(SearchRequest::with_depth(3).depth, Some(3));
    assert_eq!(SearchRequest::default().depth, None);
    assert_eq!(DEFAULT_SEARCH_DEPTH, 4);
    assert_ne!(PositionBase::StartPos, PositionBase::Fen("8/8/8/8/8/8/8/8 w - - 0 1".to_owned()));
}

#[test]
fn search_limits_constructors() {
    let limits = SearchLimits::depth(3);
    assert_eq!(limits.maximum_depth, 3);
    assert_eq!(limits.move_time, None);
    assert_eq!(limits.moves_to_go, None);

    let limits = SearchLimits::move_time(250);
    assert_eq!(limits.maximum_depth, MAX_SEARCH_DEPTH);
    assert_eq!(limits.move_time, Some(250));
    assert_eq!(limits.white_time, None);
}

#[test]
fn task_ids_print_their_scope_and_sequence() {
    assert_eq!(SearchTaskId::new(42).get(), 42);
    assert_eq!(SearchTaskId::new(42).to_text(), "42");
    assert_eq!(SearchTaskId::new(0).to_text(), "0");
    assert!(SearchTaskId::new(1).same(SearchTaskId::new(1)));
    assert!(!SearchTaskId::new(1).same(SearchTaskId::new(2)));
}

#[test]
fn task_book_runs_one_search_at_a_time() {
    let mut tasks = SearchTasks::new(3);
    let first = tasks.next_task().unwrap();
    assert_eq!(first.to_text(), "3:1");
    tasks.start(first);
    assert_eq!(tasks.active(), Some(first));
    assert_eq!(
        tasks.next_task().unwrap_err().message(),
        "an engine search is already active"
    );

    let stranger = SearchTaskId::new(1);
    assert!(!tasks.is_active(stranger));
    assert!(!tasks.complete(stranger));
    assert!(tasks.is_active(first));
    assert!(tasks.complete(first));
    assert_eq!(tasks.active(), None);

    let second = tasks.next_task().unwrap();
    assert_eq!(second.to_text(), "3:2");
    assert!(!second.same(first));
}

#[test]
fn task_book_reports_an_unexpected_completion() {
    let mut tasks = SearchTasks::new(5);
    let first = tasks.next_task().unwrap();
    tasks.start(first);
    assert!(SearchTasks::check_completion(first, first).is_ok());
    let error = SearchTasks::check_completion(first, SearchTaskId::new(9)).unwrap_err();
    assert_eq!(
        error.message(),
        "engine worker completed unexpected search task 9 while waiting for 5:1"
    );
}

#[test]
fn scopes_are_handed_out_from_a_counter() {
    assert_eq!(claim_scope(1).unwrap(), (1, 2));
    assert_eq!(
        claim_scope(u64::MAX).unwrap_err().message(),
        "engine search task scopes exhausted"
    );
}

#[test]
fn requested_moves_match_by_squares_and_promotion() {
    let e2e4 = UciMove::parse("e2e4").unwrap();
    let a7a8q = UciMove::parse("a7a8q").unwrap();
    let a7a8n = UciMove::parse("a7a8n").unwrap();
    assert!(requested_move_matches(&e2e4, &UciMove::parse("E2E4").unwrap()));
    assert!(!requested_move_matches(&a7a8q, &a7a8n));
    assert!(!requested_move_matches(&a7a8q, &UciMove::parse("a7a8").unwrap()));

    let legal = vec![e2e4.clone(), a7a8q.clone()];
    assert_eq!(find_legal_move(&legal, &a7a8q).unwrap(), a7a8q);
    assert_eq!(
        find_legal_move(&legal, &a7a8n).unwrap_err().message(),
        "illegal move"
    );
}

#[test]
fn completions_carry_their_task_and_outcome() {
    let outcome = SearchOutcome {
        best_move: Some(UciMove::parse("e2e4").unwrap()),
        depth: 3,
        score: 12,
        nodes: 42,
        elapsed: 1,
    };
    let completion = SearchCompletion::new(SearchTaskId::new(4), Ok(outcome.clone()));
    assert_eq!(completion.task_id, SearchTaskId::new(4));
    assert_eq!(completion.result, Ok(outcome));
}

#[test]
fn publishes_successful_completion_and_allows_another_task() {
    let (scope, _) = claim_scope(1).unwrap();
    let mut tasks = SearchTasks::new(scope);
    let limits = SearchLimits::depth(3);

    let first_task = tasks.next_task().unwrap();
    tasks.start(first_task);
    assert!(tasks.complete(first_task));
    assert_eq!(limits.maximum_depth, 3);

    let second_task = tasks.next_task().unwrap();
    tasks.start(second_task);
    assert_ne!(second_task, first_task);
    assert!(tasks.complete(second_task));
}

#[test]
fn scopes_cancellation_to_the_active_task() {
    let mut tasks = SearchTasks::new(1);
    let task_id = tasks.next_task().unwrap();
    tasks.start(task_id);
    assert!(tasks.next_task().is_err());
    assert!(!tasks.is_active(SearchTaskId::new(task_id.get() + 1)));
    assert!(tasks.is_active(task_id));
    assert!(tasks.complete(task_id));

    let next_task_id = tasks.next_task().unwrap();
    tasks.start(next_task_id);
    assert_ne!(next_task_id, task_id);
    assert!(tasks.is_active(next_task_id));
}

#[test]
fn task_ids_do_not_cancel_searches_owned_by_another_worker() {
    let (first_scope, next_scope) = claim_scope(1).unwrap();
    let (second_scope, _) = claim_scope(next_scope).unwrap();
    let mut first = SearchTasks::new(first_scope);
    let mut second = SearchTasks::new(second_scope);

    let first_task = first.next_task().unwrap();
    first.start(first_task);
    let second_task = second.next_task().unwrap();
    second.start(second_task);

    assert_ne!(first_task, second_task);
    assert!(!first.is_active(second_task));
    assert!(!second.is_active(first_task));
    assert!(first.is_active(first_task));
    assert!(second.is_active(second_task));
}

#[test]
fn discarding_search_consumes_only_the_matching_completion() {
    let mut tasks = SearchTasks::new(7);
    let first_task = tasks.next_task().unwrap();
    tasks.start(first_task);

    assert!(!tasks.complete(SearchTaskId::new(first_task.get())));
    assert!(tasks.complete(first_task));
    assert_eq!(tasks.active(), None);

    let second_task = tasks.next_task().unwrap();
    tasks.start(second_task);
    assert!(tasks.is_active(second_task));
    assert!(SearchTasks::check_completion(second_task, second_task).is_ok());
}

#[test]
fn search_rejects_non_positive_depths() {
    assert!(checked_search_depth(0).is_err());
    assert!(checked_search_depth(-1).is_err());
}

#[test]
fn positive_depths_are_searched() {
    assert_eq!(
        checked_search_depth(0).unwrap_err().message(),
        "search depth must be positive"
    );
    assert_eq!(checked_search_depth(1).unwrap(), 1);
    assert_eq!(checked_search_depth(8).unwrap(), 8);
}
