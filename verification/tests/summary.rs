use chess_benchmark::game::{GameAnalysis, GameRecord, GameResult, Tally};
use chess_benchmark::summary::{should_report, summarize, summarize_for};

fn result_of(white: &str, black: &str, w: (u128, usize), b: (u128, usize)) -> GameResult {
    GameResult {
        white: Tally { total: w.0, count: w.1 },
        black: Tally { total: b.0, count: b.1 },
        moves: w.1 + b.1,
        white_name: white.to_string(),
        black_name: black.to_string(),
    }
}

#[test]
fn a_run_without_results_adds_up_to_nothing() {
    let summary = summarize(&vec![], "alice");
    assert_eq!(summary.analyzed, 0);
    assert_eq!(summary.total_moves, 0);
    assert!(summary.user.is_empty());
    let summary = summarize(&vec![None, None, None], "alice");
    assert_eq!(summary.analyzed, 0);
    assert_eq!(summary.total_moves, 0);
    assert!(summary.user.is_empty());
}

#[test]
fn a_record_without_text_counts_for_nothing() {
    let game = GameRecord { pgn: None, white: Some("alice".to_string()), black: Some("bob".to_string()) };
    let outcome = match GameAnalysis::begin(&game, "alice", 1, 4) {
        Some((analysis, _)) => analysis.result(),
        None => None,
    };
    let summary = summarize(&vec![outcome], "alice");
    assert_eq!(summary.analyzed, 0);
    assert_eq!(summary.total_moves, 0);
    assert!(summary.user.is_empty());
}

#[test]
fn the_tracked_players_side_is_picked_game_by_game() {
    let results = vec![
        Some(result_of("alice", "bob", (18500, 20), (17000, 20))),
        None,
        Some(result_of("carol", "alice", (9000, 10), (7200, 9))),
        Some(result_of("alice", "alice", (100, 1), (200, 1))),
    ];
    let summary = summarize(&results, "Alice");
    assert_eq!(summary.analyzed, 3);
    assert_eq!(summary.total_moves, 61);
    assert_eq!(
        summary.user,
        vec![
            Tally { total: 18500, count: 20 },
            Tally { total: 7200, count: 9 },
            Tally { total: 100, count: 1 }
        ]
    );
}

#[test]
fn the_name_is_compared_in_lower_case() {
    let results = vec![Some(result_of("\u{e9}ric", "bob", (10, 1), (20, 1)))];
    assert_eq!(summarize(&results, "\u{c9}RIC").user, vec![Tally { total: 10, count: 1 }]);
    assert_eq!(summarize(&results, "eric").user, vec![Tally { total: 20, count: 1 }]);
}

#[test]
fn totals_do_not_overflow() {
    let mut big = result_of("alice", "bob", (u128::MAX, usize::MAX), (0, 0));
    big.moves = usize::MAX;
    let mut other = result_of("bob", "alice", (0, 0), (1, 1));
    other.moves = usize::MAX;
    let summary = summarize(&vec![Some(big), Some(other)], "alice");
    assert_eq!(summary.analyzed, 2);
    assert_eq!(summary.total_moves, 2 * (usize::MAX as u128));
}

#[test]
fn progress_is_reported_at_every_step_and_at_the_end() {
    assert!(should_report(10, 25, 10));
    assert!(should_report(20, 25, 10));
    assert!(should_report(25, 25, 10));
    assert!(!should_report(11, 25, 10));
    assert!(!should_report(1, 25, 10));
    assert!(should_report(100, 1000, 100));
    assert!(!should_report(10, 1000, 100));
    assert!(should_report(0, 5, 10));
}

#[test]
fn a_step_of_zero_reports_only_the_end() {
    assert!(!should_report(3, 5, 0));
    assert!(should_report(5, 5, 0));
}

#[test]
fn a_name_in_lower_case_is_taken_as_it_is() {
    let results = vec![
        Some(result_of("alice", "bob", (10, 1), (20, 1))),
        Some(result_of("bob", "alice", (30, 1), (40, 1))),
    ];
    let summary = summarize_for(&results, &"alice".to_string());
    assert_eq!(summary.user, vec![Tally { total: 10, count: 1 }, Tally { total: 40, count: 1 }]);
    let summary = summarize_for(&results, &"Alice".to_string());
    assert_eq!(summary.user, vec![Tally { total: 20, count: 1 }, Tally { total: 40, count: 1 }]);
    assert_eq!(summary.analyzed, 2);
    assert_eq!(summary.total_moves, 4);
}
