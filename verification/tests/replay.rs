use chess_benchmark::pgn::parse_pgn_moves;
use chess_benchmark::replay::{parse_game, replay_moves, Position, Replay};

const START: &[u8] = b"rnbqkbnr/pppppppp/8/8/8/8/PPPPPPPP/RNBQKBNR w KQkq - 0 1";

#[test]
fn the_start_is_the_initial_position() {
    let start = Position::start();
    assert_eq!(start.encoding(), START);
    assert!(start.white_to_move());
}

#[test]
fn a_legal_move_leads_to_the_next_position() {
    let start = Position::start();
    let next = start.play_san(b"e4").unwrap();
    assert_eq!(next.encoding(), b"rnbqkbnr/pppppppp/8/8/4P3/8/PPPP1PPP/RNBQKBNR b KQkq - 0 1");
    assert!(!next.white_to_move());
    let third = next.play_san(b"Nf6").unwrap();
    assert_eq!(third.encoding(), b"rnbqkb1r/pppppppp/5n2/8/4P3/8/PPPP1PPP/RNBQKBNR w KQkq - 1 2");
    assert!(third.white_to_move());
    assert_eq!(start.encoding(), START);
}

#[test]
fn the_en_passant_square_is_named_only_where_the_capture_is_legal() {
    let mut position = Position::start();
    for san in ["e4", "a6", "e5", "d5"] {
        position = position.play_san(san.as_bytes()).unwrap();
    }
    assert_eq!(position.encoding(), b"rnbqkbnr/1pp1pppp/p7/3pP3/8/8/PPPP1PPP/RNBQKBNR w KQkq d6 0 3");
    let taken = position.play_san(b"exd6").unwrap();
    assert_eq!(taken.encoding(), b"rnbqkbnr/1pp1pppp/p2P4/8/8/8/PPPP1PPP/RNBQKBNR b KQkq - 0 3");
}

#[test]
fn a_token_that_is_no_legal_move_is_refused() {
    let start = Position::start();
    assert!(start.play_san(b"e5").is_none());
    assert!(start.play_san(b"Ke2").is_none());
    assert!(start.play_san(b"xyz").is_none());
    assert!(start.play_san(b"").is_none());
    assert!(start.play_san(b"O-O").is_none());
    assert!(start.play_san(b"--").is_none());
    assert!(start.play_san("\u{2658}f3".as_bytes()).is_none());
}

#[test]
fn check_and_mate_signs_are_accepted() {
    let mut position = Position::start();
    for san in ["e4", "e5", "Qh5", "Nc6", "Bc4", "Nf6", "Qxf7#"] {
        position = position.play_san(san.as_bytes()).unwrap();
    }
    assert_eq!(position.encoding(), b"r1bqkb1r/pppp1Qpp/2n2n2/4p3/2B1P3/8/PPPP1PPP/RNB1K1NR b KQkq - 0 4");
}

#[test]
fn replay_counts_the_moves_played_before_the_first_failure() {
    assert_eq!(replay_moves(parse_pgn_moves("1. e4 e5 2. Nf3 Nc6")), 4);
    assert_eq!(replay_moves(parse_pgn_moves("1. e4 e5 2. Ke3 Nc6")), 2);
    assert_eq!(replay_moves(parse_pgn_moves("1. e5 e5 2. Nf3 Nc6")), 0);
    assert_eq!(replay_moves(Vec::new()), 0);
}

#[test]
fn a_game_gives_its_moves_and_positions() {
    assert_eq!(parse_game("1. e4 e5 2. Nf3 {comment} Nc6 1-0"), (4, 5));
    assert_eq!(parse_game("[Event \"x\"]\n\n1. e4 e5 2. Qh5 Nc6 3. Bc4 Nf6 4. Qxf7# 1-0\n"), (7, 8));
}

#[test]
fn a_game_without_moves_gives_nothing() {
    assert_eq!(parse_game(""), (0, 0));
    assert_eq!(parse_game("[Event \"x\"]\n1-0"), (0, 0));
}

#[test]
fn a_game_stops_at_the_first_move_that_cannot_be_played() {
    assert_eq!(parse_game("1. e4 e4 2. Nf3 Nc6"), (1, 2));
    assert_eq!(parse_game("1. Ke2 e5"), (0, 1));
    assert_eq!(parse_game("1. e4 e5 2. Nf3 Nc6 3. Bb5 a6 4. Bxc6 junk 5. O-O"), (7, 8));
}

#[test]
fn a_replay_plays_moves_until_one_fails() {
    let mut replay = Replay::new(parse_pgn_moves("1. e4 e5 2. Ke3 Nc6"));
    assert_eq!(replay.played(), 0);
    assert_eq!(replay.position().encoding(), START);
    assert!(replay.advance());
    assert!(replay.advance());
    assert_eq!(replay.played(), 2);
    assert!(!replay.is_over());
    assert!(replay.try_next().is_none());
    assert!(!replay.advance());
    assert!(replay.is_over());
    assert_eq!(replay.played(), 2);
    assert_eq!(
        replay.position().encoding(),
        b"rnbqkbnr/pppp1ppp/8/4p3/4P3/8/PPPP1PPP/RNBQKBNR w KQkq - 0 2"
    );
}

#[test]
fn a_replay_that_has_stopped_plays_nothing_more() {
    let mut replay = Replay::new(parse_pgn_moves("1. e5 e5 2. Nf3"));
    assert!(!replay.advance());
    assert!(replay.is_over());
    assert!(replay.try_next().is_none());
    assert!(!replay.advance());
    assert!(!replay.record(Some(Position::start())));
    assert_eq!(replay.played(), 0);
    assert_eq!(replay.position().encoding(), START);
}

#[test]
fn a_replay_stops_when_the_moves_run_out() {
    let mut replay = Replay::new(parse_pgn_moves("1. d4"));
    assert!(replay.try_next().is_some());
    assert!(replay.advance());
    assert!(!replay.is_over());
    assert!(replay.try_next().is_none());
    assert!(!replay.record(Some(Position::start())));
    assert!(replay.is_over());
    assert_eq!(replay.played(), 1);
}

#[test]
fn a_replay_takes_the_outcome_it_is_told() {
    let mut replay = Replay::new(vec![b"a".to_vec(), b"b".to_vec()]);
    assert!(replay.record(Some(Position::from_encoding(b"one b".to_vec()))));
    assert_eq!(replay.position().encoding(), b"one b");
    assert!(!replay.position().white_to_move());
    assert!(replay.record(Some(Position::from_encoding(b"two w - -".to_vec()))));
    assert!(replay.position().white_to_move());
    assert_eq!(replay.played(), 2);
    assert!(!replay.is_over());
}

#[test]
fn the_side_to_move_is_read_behind_the_first_space() {
    for (text, white) in [
        ("x w", true),
        ("x b", false),
        ("x  w", false),
        (" w", true),
        ("w", false),
        ("", false),
        ("x ", false),
        ("x W", false),
        ("x white b", true),
        ("x b w", false),
    ] {
        assert_eq!(Position::from_encoding(text.as_bytes().to_vec()).white_to_move(), white, "{:?}", text);
    }
}

#[test]
fn no_move_is_played_from_a_text_that_encodes_no_position() {
    assert!(Position::from_encoding(b"nonsense".to_vec()).play_san(b"e4").is_none());
    assert!(Position::from_encoding(Vec::new()).play_san(b"e4").is_none());
    assert!(Position::from_encoding(b"8/8/8/8/8/8/8/8 w - - 0 1".to_vec()).play_san(b"e4").is_none());
    let custom = Position::from_encoding(b"4k3/8/8/8/8/8/4P3/4K3 w - - 0 1".to_vec());
    assert_eq!(custom.play_san(b"e4").unwrap().encoding(), b"4k3/8/8/8/4P3/8/8/4K3 b - - 0 1");
}
