use chess_benchmark::engine::{scan_wdl, wdl_from_fields, EngineSession, Reply, SessionState};
use chess_benchmark::score::Wdl;

fn lines_of(lines: &[Vec<u8>]) -> Vec<String> {
    lines.iter().map(|l| String::from_utf8(l.clone()).unwrap()).collect()
}

fn triple(w: Wdl) -> (u32, u32, u32) {
    (w.win(), w.draw(), w.loss())
}

fn evaluation(reply: Reply) -> Option<(u32, u32, u32)> {
    match reply {
        Reply::Evaluated(wdl) => Some(triple(wdl)),
        _ => None,
    }
}

fn ready_session(threads: usize, depth: u32) -> EngineSession {
    let (mut session, _) = EngineSession::open(threads, depth);
    session.on_line(b"uciok\n");
    session.on_line(b"readyok\n");
    session
}

#[test]
fn opening_a_session_sends_the_handshake() {
    let (session, greeting) = EngineSession::open(4, 12);
    assert_eq!(lines_of(&greeting), vec!["uci"]);
    assert_eq!(session.state(), SessionState::Created);
}

#[test]
fn the_handshake_waits_for_its_acknowledgement() {
    let (mut session, _) = EngineSession::open(4, 12);
    assert!(matches!(session.on_line(b"Stockfish 16 by the Stockfish developers\n"), Reply::Ignored));
    assert!(matches!(session.on_line(b"id name Stockfish 16\n"), Reply::Ignored));
    assert!(matches!(session.on_line(b"readyok\n"), Reply::Ignored));
    assert!(matches!(session.on_line(b"info depth 1 wdl 1 998 1 bestmove e2e4\n"), Reply::Ignored));
    assert_eq!(session.state(), SessionState::Created);
    match session.on_line(b"uciok\n") {
        Reply::Acknowledged(commands) => assert_eq!(
            lines_of(&commands),
            vec![
                "setoption name Threads value 4",
                "setoption name UCI_ShowWDL value true",
                "isready"
            ]
        ),
        _ => panic!("the handshake was not acknowledged"),
    }
    assert_eq!(session.state(), SessionState::Handshaking);
}

#[test]
fn the_configured_engine_becomes_ready() {
    let (mut session, _) = EngineSession::open(1, 4);
    session.on_line(b"uciok\n");
    assert!(matches!(session.on_line(b"uciok\n"), Reply::Ignored));
    assert!(matches!(session.on_line(b"info string ready soon\n"), Reply::Ignored));
    assert_eq!(session.state(), SessionState::Handshaking);
    assert!(matches!(session.on_line(b"readyok\n"), Reply::Ready));
    assert_eq!(session.state(), SessionState::Ready);
    assert!(matches!(session.on_line(b"readyok\n"), Reply::Ignored));
    assert!(matches!(session.on_line(b"bestmove e2e4\n"), Reply::Ignored));
    assert_eq!(session.state(), SessionState::Ready);
}

#[test]
fn the_thread_count_is_written_in_decimal() {
    for threads in [0usize, 1, 16, 1024] {
        let (mut session, _) = EngineSession::open(threads, 1);
        match session.on_line(b"uciok") {
            Reply::Acknowledged(commands) => {
                assert_eq!(lines_of(&commands)[0], format!("setoption name Threads value {}", threads))
            }
            _ => panic!("the handshake was not acknowledged"),
        }
    }
}

#[test]
fn analysis_sends_position_and_depth() {
    let mut session = ready_session(1, 12);
    let fen = b"rnbqkbnr/pppppppp/8/8/4P3/8/PPPP1PPP/RNBQKBNR b KQkq - 0 1";
    let commands = session.analyze(fen).unwrap();
    assert_eq!(
        lines_of(&commands),
        vec![
            "position fen rnbqkbnr/pppppppp/8/8/4P3/8/PPPP1PPP/RNBQKBNR b KQkq - 0 1",
            "go depth 12"
        ]
    );
    assert_eq!(session.state(), SessionState::Analyzing);
}

#[test]
fn analysis_is_refused_unless_the_session_is_ready() {
    let (mut session, _) = EngineSession::open(1, 4);
    assert!(session.analyze(b"8/8/8/8/8/8/8/8 w - - 0 1").is_none());
    assert_eq!(session.state(), SessionState::Created);
    session.on_line(b"uciok");
    assert!(session.analyze(b"x").is_none());
    assert_eq!(session.state(), SessionState::Handshaking);
    session.on_line(b"readyok");
    assert!(session.analyze(b"x").is_some());
    assert!(session.analyze(b"x").is_none());
    assert_eq!(session.state(), SessionState::Analyzing);
    session.quit();
    assert!(session.analyze(b"x").is_none());
    assert_eq!(session.state(), SessionState::Terminated);
}

#[test]
fn a_best_move_without_a_report_gives_the_default() {
    let mut session = ready_session(1, 4);
    session.analyze(b"x").unwrap();
    assert_eq!(evaluation(session.on_line(b"bestmove e2e4 ponder e7e5\n")), Some((333, 334, 333)));
    assert_eq!(session.state(), SessionState::Ready);
}

#[test]
fn the_last_report_before_the_best_move_is_the_evaluation() {
    let mut session = ready_session(1, 4);
    session.analyze(b"x").unwrap();
    assert!(matches!(
        session.on_line(b"info depth 1 seldepth 1 score cp 20 wdl 100 800 100 nodes 20 pv e2e4\n"),
        Reply::Ignored
    ));
    assert!(matches!(session.on_line(b"info string nothing here\n"), Reply::Ignored));
    assert!(matches!(
        session.on_line(b"info depth 2 seldepth 2 score cp 31 wdl 200 700 100 nodes 45 pv e2e4 e7e5\n"),
        Reply::Ignored
    ));
    assert!(matches!(session.on_line(b"info depth 3 currmove e2e4\n"), Reply::Ignored));
    assert_eq!(session.state(), SessionState::Analyzing);
    assert_eq!(evaluation(session.on_line(b"bestmove e2e4\n")), Some((200, 700, 100)));
}

#[test]
fn a_report_on_the_best_move_line_counts() {
    let mut session = ready_session(1, 4);
    session.analyze(b"x").unwrap();
    session.on_line(b"info wdl 100 800 100\n");
    assert_eq!(evaluation(session.on_line(b"info wdl 10 20 970 bestmove a2a3\n")), Some((10, 20, 970)));
}

#[test]
fn each_analysis_starts_from_the_default() {
    let mut session = ready_session(1, 4);
    session.analyze(b"x").unwrap();
    session.on_line(b"info wdl 100 800 100\n");
    assert_eq!(evaluation(session.on_line(b"bestmove a2a3\n")), Some((100, 800, 100)));
    session.analyze(b"y").unwrap();
    assert_eq!(evaluation(session.on_line(b"bestmove a7a6\n")), Some((333, 334, 333)));
}

#[test]
fn a_malformed_report_gives_the_default() {
    for line in [
        "info wdl x 500 167\n",
        "info wdl 500 x 167\n",
        "info wdl 500 333 x\n",
        "info wdl 600 300 200\n",
        "info wdl 1000 1000 -1000\n",
        "info wdl 333 334 333.0\n",
        "info wdl 99999999999 1 1\n",
        "info wdl 0 0 0\n",
    ] {
        let mut session = ready_session(1, 4);
        session.analyze(b"x").unwrap();
        session.on_line(b"info wdl 100 800 100\n");
        session.on_line(line.as_bytes());
        assert_eq!(evaluation(session.on_line(b"bestmove a2a3\n")), Some((333, 334, 333)), "{:?}", line);
    }
}

#[test]
fn a_report_with_fewer_than_three_fields_is_no_report() {
    for line in ["info wdl 100 900\n", "info wdl \n", "info wdl 1000", "info wdl\u{a0}\n"] {
        let mut session = ready_session(1, 4);
        session.analyze(b"x").unwrap();
        session.on_line(b"info wdl 100 800 100\n");
        session.on_line(line.as_bytes());
        assert_eq!(evaluation(session.on_line(b"bestmove a2a3\n")), Some((100, 800, 100)), "{:?}", line);
    }
}

#[test]
fn quitting_sends_the_termination_command_once() {
    let mut session = ready_session(1, 4);
    assert_eq!(lines_of(&session.quit()), vec!["quit"]);
    assert_eq!(session.state(), SessionState::Terminated);
    assert!(session.quit().is_empty());
    assert!(matches!(session.on_line(b"uciok readyok bestmove\n"), Reply::Ignored));
    assert_eq!(session.state(), SessionState::Terminated);
    let (mut fresh, _) = EngineSession::open(1, 4);
    assert_eq!(lines_of(&fresh.quit()), vec!["quit"]);
}

#[test]
fn the_first_marker_and_the_first_three_fields_are_read() {
    assert_eq!(scan_wdl(b"info depth 5 wdl 12 345 643 nodes 7").map(triple), Some((12, 345, 643)));
    assert_eq!(scan_wdl(b" wdl 1 2 997 wdl 3 3 994").map(triple), Some((1, 2, 997)));
    assert_eq!(scan_wdl(b" wdl    1\t2\x0b997\n").map(triple), Some((1, 2, 997)));
    assert_eq!(scan_wdl(" wdl \u{a0}+1\u{2003}+2\u{3000}0997".as_bytes()).map(triple), Some((1, 2, 997)));
    assert_eq!(scan_wdl(b" wdl -0 0 1000").map(triple), Some((0, 0, 1000)));
    assert_eq!(scan_wdl(b" wdl 1 2 997x").map(triple), Some((333, 334, 333)));
}

#[test]
fn a_line_without_the_marker_reports_nothing() {
    assert!(scan_wdl(b"").is_none());
    assert!(scan_wdl(b"info depth 5 score cp 3").is_none());
    assert!(scan_wdl(b"wdl 1 2 997").is_none());
    assert!(scan_wdl(b"infowdl 1 2 997").is_none());
    assert!(scan_wdl(b" wdl").is_none());
    assert!(scan_wdl(b" WDL 1 2 997").is_none());
    assert!(scan_wdl(b"info\twdl\t1 2 997").is_none());
}

#[test]
fn fields_give_their_triple_or_the_default() {
    assert_eq!(triple(wdl_from_fields(b"100", b"200", b"700")), (100, 200, 700));
    assert_eq!(triple(wdl_from_fields(b"+100", b"0200", b"700")), (100, 200, 700));
    assert_eq!(triple(wdl_from_fields(b"100", b"200", b"701")), (333, 334, 333));
    assert_eq!(triple(wdl_from_fields(b"", b"200", b"800")), (333, 334, 333));
    assert_eq!(triple(wdl_from_fields(b"-100", b"300", b"800")), (333, 334, 333));
}

fn report_plainly(line: &str) -> Option<(u32, u32, u32)> {
    let at = line.find(" wdl ")?;
    let parts: Vec<&str> = line[at + 5..].split_whitespace().take(3).collect();
    if parts.len() < 3 {
        return None;
    }
    let values: Vec<Option<i32>> = parts.iter().map(|p| p.parse::<i32>().ok()).collect();
    match (values[0], values[1], values[2]) {
        (Some(w), Some(d), Some(l)) if w >= 0 && d >= 0 && l >= 0 && w as i64 + d as i64 + l as i64 == 1000 => {
            Some((w as u32, d as u32, l as u32))
        }
        _ => Some((333, 334, 333)),
    }
}

#[test]
fn reports_are_read_alike_on_many_lines() {
    let pieces = [
        " wdl ", " wdl ", "wdl", " ", " ", "\t", "\u{a0}", "500", "300", "200", "1000", "0", "+1", "-1",
        "x", "bestmove", "info", "\n", "999", "1", "\u{2003}",
    ];
    let mut state = 99u64;
    for _ in 0..5000 {
        let mut line = String::new();
        for _ in 0..8 {
            state = state.wrapping_mul(6364136223846793005).wrapping_add(1442695040888963407);
            line.push_str(pieces[((state >> 33) % pieces.len() as u64) as usize]);
        }
        assert_eq!(scan_wdl(line.as_bytes()).map(triple), report_plainly(&line), "{:?}", line);
    }
}
