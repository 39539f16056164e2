//! The analysis of one game: which records are analysed, how the moves of a
//! game are scored as their evaluations come in, and the course of an
//! analysis from the engine's first line to the result.
//!
//! An analysis does no input or output. Its owner writes the lines that it
//! hands out to the engine, reads the engine's lines one by one, and tells it
//! each of them, or that the engine can no longer be reached.

use crate::engine::{
    after_line, analysis_request, init_command, quit_command, reply_to, EngineSession, Reply,
    ReplyView, SessionState, SessionView,
};
use crate::pgn::{extract, extract_moves};
use crate::replay::{
    encoding_of, names_white, next_outcome, pending, recorded, start_encoding, Position, Replay,
    ReplayView,
};
use crate::score::{
    accuracy_of, calc_accuracy, default_outlook, wdl_to_prob, win_chance, Outlook, Wdl,
};
use vstd::prelude::*;
use vstd::string::*;
use vstd::utf8::encode_utf8;

verus! {

/// The lower-case form of a text, as the standard library gives it.
pub uninterp spec fn lowercase(s: Seq<char>) -> Seq<char>;

/// Calls `str::to_lowercase` of the standard library, which maps each
/// character by the Unicode tables and knows no locale. The contract claims
/// only that the result depends on the text alone, and gives it its name.
#[verifier::external_body]
pub(crate) fn to_lowercase(s: &str) -> (r: String)
    ensures
        r@ == lowercase(s@),
{
    s.to_lowercase()
}

/// One game as it was fetched: its text and the names of the two players.
/// Any of the three may be missing.
pub struct GameRecord {
    pub pgn: Option<String>,
    pub white: Option<String>,
    pub black: Option<String>,
}

/// The scores of one side in one game, added up: their sum in tenths of a
/// point and their number. The mean is the one divided by the other, and 0
/// where there is no score.
#[derive(Clone, Copy, Debug, PartialEq, Eq, Structural)]
pub struct Tally {
    pub total: u128,
    pub count: usize,
}

/// What the analysis of one game gives: the scores of each side added up,
/// the number of moves scored, and the names of the players in lower case.
pub struct GameResult {
    pub white: Tally,
    pub black: Tally,
    pub moves: usize,
    pub white_name: String,
    pub black_name: String,
}

/// The sum of a list of scores.
pub open spec fn sum_of(scores: Seq<u32>) -> nat
    decreases scores.len(),
{
    if scores.len() == 0 {
        0
    } else {
        sum_of(scores.drop_last()) + scores.last() as nat
    }
}

/// The sum of a list of scores is at most its length times the largest
/// number of 32 bits.
pub proof fn lemma_sum_bound(scores: Seq<u32>)
    ensures
        sum_of(scores) <= scores.len() * 0xFFFF_FFFF,
    decreases scores.len(),
{
    if scores.len() > 0 {
        lemma_sum_bound(scores.drop_last());
        assert(scores.len() * 0xFFFF_FFFF == scores.drop_last().len() * 0xFFFF_FFFF + 0xFFFF_FFFF)
            by (nonlinear_arith)
            requires
                scores.len() == scores.drop_last().len() + 1,
        ;
    }
}

/// Adds up a list of scores.
pub fn tally(scores: &Vec<u32>) -> (t: Tally)
    ensures
        t.total == sum_of(scores@),
        t.count == scores.len(),
{
    let n = scores.len();
    let mut total: u128 = 0;
    let mut i: usize = 0;
    proof {
        assert(scores@.take(0) =~= Seq::<u32>::empty());
    }
    while i < n
        invariant
            n == scores.len(),
            i <= n,
            total == sum_of(scores@.take(i as int)),
        decreases n - i,
    {
        proof {
            lemma_sum_bound(scores@.take(i as int));
            assert(i * 0xFFFF_FFFF <= 0xFFFF_FFFF_FFFF_FFFF * 0xFFFF_FFFF) by (nonlinear_arith)
                requires
                    i <= 0xFFFF_FFFF_FFFF_FFFF,
            ;
            assert(scores@.take(i + 1).drop_last() =~= scores@.take(i as int));
        }
        total = total + scores[i] as u128;
        i += 1;
    }
    proof {
        assert(scores@.take(n as int) =~= scores@);
    }
    Tally { total, count: n }
}

/// What a scoresheet holds.
pub struct SheetView {
    pub replay: ReplayView,
    /// The evaluation of the position before the last move, once there is one.
    pub previous: Option<Outlook>,
    /// Whether the first player made the last move.
    pub mover_is_white: bool,
    /// The scores of the first player's moves, in order.
    pub white: Seq<u32>,
    /// The scores of the second player's moves, in order.
    pub black: Seq<u32>,
}

/// The scoresheet at the start of a game: nothing played, nothing evaluated,
/// nothing scored.
pub open spec fn initial_sheet(moves: Seq<Seq<u8>>) -> SheetView {
    SheetView {
        replay: ReplayView { moves, played: 0, position: start_encoding(), stopped: false },
        previous: None,
        mover_is_white: true,
        white: Seq::empty(),
        black: Seq::empty(),
    }
}

/// The scoresheet once the evaluation of the position reached has come in.
/// The first evaluation, that of the initial position, is only kept. Each
/// later one scores the last move: the mover's chances under the evaluation
/// kept against the mover's chances under the new one, read for the same
/// side. The score joins the mover's list and the new evaluation is kept.
pub open spec fn scored(s: SheetView, o: Outlook) -> SheetView {
    match s.previous {
        None => SheetView { previous: Some(o), ..s },
        Some(before) => {
            let score = accuracy_of(
                win_chance(before, s.mover_is_white),
                win_chance(o, s.mover_is_white),
            ) as u32;
            if s.mover_is_white {
                SheetView { white: s.white.push(score), previous: Some(o), ..s }
            } else {
                SheetView { black: s.black.push(score), previous: Some(o), ..s }
            }
        },
    }
}

/// The scoresheet once an evaluation has come in and the outcome of trying
/// the next move is known. The evaluation is scored. Then the move is played
/// if it led to a position, and its mover is the side that was to move;
/// otherwise replay stops. A scoresheet whose replay has stopped takes no
/// notice.
pub open spec fn evaluated(s: SheetView, o: Outlook, outcome: Option<Seq<u8>>) -> SheetView {
    if s.replay.stopped {
        s
    } else {
        let t = scored(s, o);
        SheetView {
            replay: recorded(t.replay, outcome),
            mover_is_white: if pending(t.replay) && outcome is Some {
                names_white(t.replay.position)
            } else {
                t.mover_is_white
            },
            ..t
        }
    }
}

/// Whether a scoresheet is one that evaluations can lead to. No more moves
/// are played than the game has, and no score exceeds full marks. Before the
/// first evaluation nothing is played or scored. After it, every move played
/// but the last has been scored while replay goes on, and every move played
/// once it has stopped.
pub open spec fn sheet_consistent(s: SheetView) -> bool {
    &&& s.replay.played <= s.replay.moves.len()
    &&& forall|i: int| 0 <= i < s.white.len() ==> #[trigger] s.white[i] <= 1000
    &&& forall|i: int| 0 <= i < s.black.len() ==> #[trigger] s.black[i] <= 1000
    &&& match s.previous {
        None => s.replay.played == 0 && s.white.len() + s.black.len() == 0 && !s.replay.stopped,
        Some(_) => if s.replay.stopped {
            s.white.len() + s.black.len() == s.replay.played
        } else {
            s.white.len() + s.black.len() + 1 == s.replay.played
        },
    }
}

/// A scoresheet is consistent at the start, and stays so whatever evaluation
/// and outcome it is told. Once its replay has stopped, each move that was
/// played has its score.
pub proof fn lemma_sheet_stays_consistent(s: SheetView, o: Outlook, outcome: Option<Seq<u8>>)
    requires
        sheet_consistent(s),
    ensures
        sheet_consistent(initial_sheet(s.replay.moves)),
        sheet_consistent(evaluated(s, o, outcome)),
        s.replay.stopped ==> s.white.len() + s.black.len() == s.replay.played,
{
    if !s.replay.stopped {
        let t = scored(s, o);
        match s.previous {
            Some(before) => {
                assert forall|i: int| 0 <= i < t.white.len() implies #[trigger] t.white[i]
                    <= 1000 by {
                    if i < s.white.len() {
                        assert(t.white[i] == s.white[i]);
                    }
                }
                assert forall|i: int| 0 <= i < t.black.len() implies #[trigger] t.black[i]
                    <= 1000 by {
                    if i < s.black.len() {
                        assert(t.black[i] == s.black[i]);
                    }
                }
            },
            None => {},
        }
    }
}

/// A move that does not lower the mover's chances, read for the mover under
/// both evaluations, is scored with full marks.
pub proof fn lemma_improvement_scores_full(s: SheetView, before: Outlook, o: Outlook)
    requires
        s.previous == Some(before),
        win_chance(o, s.mover_is_white) >= win_chance(before, s.mover_is_white),
    ensures
        s.mover_is_white ==> scored(s, o).white == s.white.push(1000) && scored(s, o).black
            == s.black,
        !s.mover_is_white ==> scored(s, o).black == s.black.push(1000) && scored(s, o).white
            == s.white,
        scored(s, o).previous == Some(o),
{
}

/// The evaluation that an optional value holds.
pub open spec fn outlook_of(w: Option<Wdl>) -> Option<Outlook> {
    match w {
        Some(wdl) => Some(wdl@),
        None => None,
    }
}

/// The scoresheet of one game: the replay of its moves and the score of each
/// move played, kept by side.
pub struct Scoresheet {
    replay: Replay,
    previous: Option<Wdl>,
    mover_is_white: bool,
    white: Vec<u32>,
    black: Vec<u32>,
}

impl View for Scoresheet {
    type V = SheetView;

    closed spec fn view(&self) -> SheetView {
        SheetView {
            replay: self.replay@,
            previous: outlook_of(self.previous),
            mover_is_white: self.mover_is_white,
            white: self.white@,
            black: self.black@,
        }
    }
}

impl Scoresheet {
    /// The scoresheet of a game with the given move tokens, at its start.
    pub fn new(moves: Vec<Vec<u8>>) -> (r: Scoresheet)
        ensures
            r@ == initial_sheet(moves.deep_view()),
    {
        Scoresheet {
            replay: Replay::new(moves),
            previous: None,
            mover_is_white: true,
            white: Vec::new(),
            black: Vec::new(),
        }
    }

    /// The replay of the game.
    pub fn replay(&self) -> (r: &Replay)
        ensures
            r@ == self@.replay,
    {
        &self.replay
    }

    /// Takes in the evaluation of the position reached.
    fn score(&mut self, wdl: Wdl)
        ensures
            final(self)@ == scored(old(self)@, wdl@),
    {
        match self.previous {
            Some(before) => {
                let score = calc_accuracy(
                    wdl_to_prob(before, self.mover_is_white),
                    wdl_to_prob(wdl, self.mover_is_white),
                );
                if self.mover_is_white {
                    self.white.push(score);
                } else {
                    self.black.push(score);
                }
            },
            None => {},
        }
        self.previous = Some(wdl);
    }

    /// Takes in the evaluation of the position reached and the outcome of
    /// trying the next move. Returns whether a move was played, so that
    /// another position is to be evaluated.
    pub fn on_evaluation(&mut self, wdl: Wdl, outcome: Option<Position>) -> (moved: bool)
        ensures
            final(self)@ == evaluated(old(self)@, wdl@, encoding_of(outcome)),
            moved == (pending(old(self)@.replay) && outcome is Some),
            moved == !final(self)@.replay.stopped,
    {
        if self.replay.is_over() {
            return false;
        }
        self.score(wdl);
        let white = self.replay.position().white_to_move();
        let moved = self.replay.record(outcome);
        if moved {
            self.mover_is_white = white;
        }
        moved
    }

    /// The scores of the two sides, added up, and the number of moves played.
    pub fn totals(&self) -> (r: (Tally, Tally, usize))
        ensures
            r.0.total == sum_of(self@.white),
            r.0.count == self@.white.len(),
            r.1.total == sum_of(self@.black),
            r.1.count == self@.black.len(),
            r.2 == self@.replay.played,
    {
        (tally(&self.white), tally(&self.black), self.replay.played())
    }
}

/// Whether a record is analysed for a player: it has a game text and both
/// names, the player is one of the two, whatever the case of the letters, and
/// the text holds a move.
pub open spec fn analysable(record: GameRecord, username: Seq<char>) -> bool {
    &&& record.pgn is Some
    &&& record.white is Some
    &&& record.black is Some
    &&& (lowercase(record.white.unwrap()@) == lowercase(username) || lowercase(
        record.black.unwrap()@,
    ) == lowercase(username))
    &&& extract(encode_utf8(record.pgn.unwrap()@)).len() > 0
}

/// How an analysis stands.
#[derive(Clone, Copy, Debug, PartialEq, Eq, Structural)]
pub enum Status {
    /// The engine is still being talked to.
    Running,
    /// Replay has ended, at the last move or at the first one that could not
    /// be played; the result stands.
    Completed,
    /// The engine could not be reached; the game gives no result.
    Abandoned,
}

/// What an analysis holds.
pub struct AnalysisView {
    pub session: SessionView,
    pub sheet: SheetView,
    pub white_name: Seq<char>,
    pub black_name: Seq<char>,
    pub status: Status,
}

/// The session once a search was asked for: searching, nothing seen yet.
pub open spec fn searching(s: SessionView) -> SessionView {
    SessionView { state: SessionState::Analyzing, latest: default_outlook(), ..s }
}

/// The analysis at its start: the handshake open, the scoresheet empty.
pub open spec fn initial_analysis(
    moves: Seq<Seq<u8>>,
    white_name: Seq<char>,
    black_name: Seq<char>,
    threads: nat,
    depth: nat,
) -> AnalysisView {
    AnalysisView {
        session: SessionView {
            state: SessionState::Created,
            threads,
            depth,
            latest: default_outlook(),
        },
        sheet: initial_sheet(moves),
        white_name,
        black_name,
        status: Status::Running,
    }
}

/// The analysis brought to its end: the session is ended.
pub open spec fn ended(a: AnalysisView, status: Status) -> AnalysisView {
    AnalysisView {
        status,
        session: SessionView { state: SessionState::Terminated, ..a.session },
        ..a
    }
}

/// The analysis once a search has ended with an evaluation and the outcome
/// of trying the next move is known. The scoresheet takes both in. Where a
/// move was played, a search of the new position starts; otherwise the
/// analysis is complete.
pub open spec fn after_evaluation(
    a: AnalysisView,
    o: Outlook,
    outcome: Option<Seq<u8>>,
) -> AnalysisView {
    let sheet = evaluated(a.sheet, o, outcome);
    if sheet.replay.stopped {
        ended(AnalysisView { sheet, ..a }, Status::Completed)
    } else {
        AnalysisView { sheet, session: searching(a.session), ..a }
    }
}

/// The lines to send once a search has ended: the request to analyse the new
/// position, or the termination command where the analysis is complete.
pub open spec fn output_of_evaluation(
    a: AnalysisView,
    o: Outlook,
    outcome: Option<Seq<u8>>,
) -> Seq<Seq<u8>> {
    let sheet = evaluated(a.sheet, o, outcome);
    if sheet.replay.stopped {
        seq![quit_command()]
    } else {
        analysis_request(sheet.replay.position, a.session.depth)
    }
}

/// The analysis after a line of the engine was read, where `outcome` is what
/// comes of trying the next move. An analysis that has ended takes no notice.
/// Otherwise the session reads the line: when the engine is ready, the search
/// of the initial position starts; when a search has ended, its evaluation
/// and the outcome are taken in.
pub open spec fn after_line_with(
    a: AnalysisView,
    line: Seq<u8>,
    outcome: Option<Seq<u8>>,
) -> AnalysisView {
    if a.status != Status::Running {
        a
    } else {
        let b = AnalysisView { session: after_line(a.session, line), ..a };
        match reply_to(a.session, line) {
            ReplyView::Ignored => b,
            ReplyView::Acknowledged(_) => b,
            ReplyView::Ready => AnalysisView { session: searching(b.session), ..b },
            ReplyView::Evaluated(o) => after_evaluation(b, o, outcome),
        }
    }
}

/// The lines to send after a line of the engine was read, where `outcome` is
/// what comes of trying the next move.
pub open spec fn output_of_line_with(
    a: AnalysisView,
    line: Seq<u8>,
    outcome: Option<Seq<u8>>,
) -> Seq<Seq<u8>> {
    if a.status != Status::Running {
        Seq::empty()
    } else {
        let b = AnalysisView { session: after_line(a.session, line), ..a };
        match reply_to(a.session, line) {
            ReplyView::Ignored => Seq::empty(),
            ReplyView::Acknowledged(commands) => commands,
            ReplyView::Ready => analysis_request(a.sheet.replay.position, a.session.depth),
            ReplyView::Evaluated(o) => output_of_evaluation(b, o, outcome),
        }
    }
}

/// The analysis after a line of the engine was read, the next move being
/// tried under the rules.
pub open spec fn after_game_line(a: AnalysisView, line: Seq<u8>) -> AnalysisView {
    after_line_with(a, line, next_outcome(a.sheet.replay))
}

/// The lines to send after a line of the engine was read, the next move
/// being tried under the rules.
pub open spec fn output_of_line(a: AnalysisView, line: Seq<u8>) -> Seq<Seq<u8>> {
    output_of_line_with(a, line, next_outcome(a.sheet.replay))
}

/// The analysis after the engine could no longer be reached: abandoned, if it
/// was still running.
pub open spec fn after_failure(a: AnalysisView) -> AnalysisView {
    if a.status == Status::Running {
        ended(a, Status::Abandoned)
    } else {
        a
    }
}

/// The lines to send after the engine could no longer be reached: the
/// termination command, for what it is worth, unless the session was ended
/// before.
pub open spec fn output_of_failure(a: AnalysisView) -> Seq<Seq<u8>> {
    if a.status == Status::Running && a.session.state != SessionState::Terminated {
        seq![quit_command()]
    } else {
        Seq::empty()
    }
}

/// Whether an analysis is one that its transitions can reach. Its scoresheet
/// is consistent. While it runs, the handshake is open or a search is under
/// way, and replay has not stopped. A complete analysis has stopped its
/// replay, and an analysis that has ended has ended its session.
pub open spec fn consistent(a: AnalysisView) -> bool {
    &&& sheet_consistent(a.sheet)
    &&& match a.status {
        Status::Running => !a.sheet.replay.stopped && (a.session.state == SessionState::Created
            || a.session.state == SessionState::Handshaking || a.session.state
            == SessionState::Analyzing),
        Status::Completed => a.session.state == SessionState::Terminated && a.sheet.replay.stopped,
        Status::Abandoned => a.session.state == SessionState::Terminated,
    }
}

/// An analysis is consistent at its start.
pub proof fn lemma_initial_analysis_is_consistent(
    moves: Seq<Seq<u8>>,
    white_name: Seq<char>,
    black_name: Seq<char>,
    threads: nat,
    depth: nat,
)
    ensures
        consistent(initial_analysis(moves, white_name, black_name, threads, depth)),
{
}

/// Whatever line is read, whatever comes of trying the next move, and
/// whenever the engine fails, a consistent analysis stays consistent.
pub proof fn lemma_consistency_is_kept(a: AnalysisView, line: Seq<u8>, outcome: Option<Seq<u8>>)
    requires
        consistent(a),
    ensures
        consistent(after_line_with(a, line, outcome)),
        consistent(after_game_line(a, line)),
        consistent(after_failure(a)),
{
    if a.status == Status::Running {
        match reply_to(a.session, line) {
            ReplyView::Evaluated(o) => {
                lemma_sheet_stays_consistent(a.sheet, o, outcome);
                lemma_sheet_stays_consistent(a.sheet, o, next_outcome(a.sheet.replay));
            },
            _ => {},
        }
    }
}

/// A complete analysis that is consistent has scored every move that was
/// played.
pub proof fn lemma_complete_analysis_scored_every_move(a: AnalysisView)
    requires
        consistent(a),
        a.status == Status::Completed,
    ensures
        a.sheet.white.len() + a.sheet.black.len() == a.sheet.replay.played,
        a.sheet.replay.played <= a.sheet.replay.moves.len(),
{
}

/// An analysis that has ended takes no notice of lines or failures and has
/// nothing more to send: once a move could not be played, none is played.
pub proof fn lemma_ended_analysis_is_final(
    a: AnalysisView,
    line: Seq<u8>,
    outcome: Option<Seq<u8>>,
)
    requires
        a.status != Status::Running,
    ensures
        after_line_with(a, line, outcome) == a,
        output_of_line_with(a, line, outcome) == Seq::<Seq<u8>>::empty(),
        after_game_line(a, line) == a,
        output_of_line(a, line) == Seq::<Seq<u8>>::empty(),
        after_failure(a) == a,
        output_of_failure(a) == Seq::<Seq<u8>>::empty(),
{
}

/// Every way out of a running analysis ends the session and sends the
/// termination command.
pub proof fn lemma_every_exit_ends_the_session(
    a: AnalysisView,
    line: Seq<u8>,
    outcome: Option<Seq<u8>>,
)
    requires
        consistent(a),
        a.status == Status::Running,
    ensures
        after_line_with(a, line, outcome).status != Status::Running ==> after_line_with(
            a,
            line,
            outcome,
        ).session.state == SessionState::Terminated && output_of_line_with(a, line, outcome)
            == seq![quit_command()],
        after_failure(a).status == Status::Abandoned,
        after_failure(a).session.state == SessionState::Terminated,
        output_of_failure(a) == seq![quit_command()],
{
}

/// The analysis of one game.
pub struct GameAnalysis {
    session: EngineSession,
    sheet: Scoresheet,
    white_name: String,
    black_name: String,
    status: Status,
}

impl View for GameAnalysis {
    type V = AnalysisView;

    closed spec fn view(&self) -> AnalysisView {
        AnalysisView {
            session: self.session@,
            sheet: self.sheet@,
            white_name: self.white_name@,
            black_name: self.black_name@,
            status: self.status,
        }
    }
}

/// No lines.
fn nothing() -> (r: Vec<Vec<u8>>)
    ensures
        r.deep_view() == Seq::<Seq<u8>>::empty(),
{
    let out: Vec<Vec<u8>> = Vec::new();
    proof {
        assert(out.deep_view() =~= Seq::<Seq<u8>>::empty());
    }
    out
}

impl GameAnalysis {
    /// Starts the analysis of a game for a player, all three names being in
    /// lower case. A game of other players, or one whose text holds no move,
    /// gives `None`: the game is skipped. Otherwise the analysis is returned
    /// with the command that opens the handshake.
    pub fn begin_game(
        pgn: &str,
        white_name: String,
        black_name: String,
        target: &String,
        threads: usize,
        depth: u32,
    ) -> (r: Option<(GameAnalysis, Vec<Vec<u8>>)>)
        ensures
            r is Some <==> (white_name@ == target@ || black_name@ == target@) && extract(
                pgn.spec_bytes(),
            ).len() > 0,
            r matches Some(started) ==> started.0@ == initial_analysis(
                extract(pgn.spec_bytes()),
                white_name@,
                black_name@,
                threads as nat,
                depth as nat,
            ) && started.1.deep_view() == seq![init_command()],
    {
        if white_name != *target && black_name != *target {
            return None;
        }
        let moves = extract_moves(pgn.as_bytes());
        if moves.len() == 0 {
            return None;
        }
        let (session, greeting) = EngineSession::open(threads, depth);
        let analysis = GameAnalysis {
            session,
            sheet: Scoresheet::new(moves),
            white_name,
            black_name,
            status: Status::Running,
        };
        Some((analysis, greeting))
    }

    /// Starts the analysis of a record for a player. A record that is not
    /// analysed gives `None`: the game is skipped. Otherwise the analysis is
    /// returned with the command that opens the handshake.
    pub fn begin(record: &GameRecord, username: &str, threads: usize, depth: u32) -> (r: Option<
        (GameAnalysis, Vec<Vec<u8>>),
    >)
        ensures
            r is Some <==> analysable(*record, username@),
            r matches Some(started) ==> started.0@ == initial_analysis(
                extract(encode_utf8(record.pgn.unwrap()@)),
                lowercase(record.white.unwrap()@),
                lowercase(record.black.unwrap()@),
                threads as nat,
                depth as nat,
            ) && started.1.deep_view() == seq![init_command()],
    {
        let pgn = match &record.pgn {
            Some(text) => text,
            None => {
                return None;
            },
        };
        let white = match &record.white {
            Some(name) => to_lowercase(name.as_str()),
            None => {
                return None;
            },
        };
        let black = match &record.black {
            Some(name) => to_lowercase(name.as_str()),
            None => {
                return None;
            },
        };
        let target = to_lowercase(username);
        GameAnalysis::begin_game(pgn.as_str(), white, black, &target, threads, depth)
    }

    /// How the analysis stands.
    pub fn status(&self) -> (r: Status)
        ensures
            r == self@.status,
    {
        self.status
    }

    /// Tells whether the analysis has ended, with a result or without.
    pub fn is_finished(&self) -> (r: bool)
        ensures
            r == (self@.status != Status::Running),
    {
        match self.status {
            Status::Running => false,
            _ => true,
        }
    }

    /// Starts the search of the position reached.
    fn request(&mut self) -> (out: Vec<Vec<u8>>)
        requires
            old(self)@.session.state == SessionState::Ready,
        ensures
            final(self)@ == (AnalysisView { session: searching(old(self)@.session), ..old(self)@ }),
            out.deep_view() == analysis_request(
                old(self)@.sheet.replay.position,
                old(self)@.session.depth,
            ),
    {
        match self.session.analyze(self.sheet.replay().position().encoding()) {
            Some(commands) => commands,
            None => nothing(),
        }
    }

    /// Takes in the evaluation with which a search has ended and the outcome
    /// of trying the next move.
    fn on_evaluation(&mut self, wdl: Wdl, outcome: Option<Position>) -> (out: Vec<Vec<u8>>)
        requires
            old(self)@.session.state == SessionState::Ready,
        ensures
            final(self)@ == after_evaluation(old(self)@, wdl@, encoding_of(outcome)),
            out.deep_view() == output_of_evaluation(old(self)@, wdl@, encoding_of(outcome)),
    {
        if self.sheet.on_evaluation(wdl, outcome) {
            self.request()
        } else {
            self.status = Status::Completed;
            self.session.quit()
        }
    }

    /// Takes in one line that the engine wrote, together with the outcome of
    /// trying the next move, and returns the lines to send in return. The
    /// outcome counts only where the line ends a search.
    pub fn on_line_with(&mut self, line: &[u8], outcome: Option<Position>) -> (out: Vec<Vec<u8>>)
        ensures
            final(self)@ == after_line_with(old(self)@, line@, encoding_of(outcome)),
            out.deep_view() == output_of_line_with(old(self)@, line@, encoding_of(outcome)),
    {
        if self.is_finished() {
            return nothing();
        }
        match self.session.on_line(line) {
            Reply::Ignored => nothing(),
            Reply::Acknowledged(commands) => commands,
            Reply::Ready => self.request(),
            Reply::Evaluated(wdl) => self.on_evaluation(wdl, outcome),
        }
    }

    /// Takes in one line that the engine wrote and returns the lines to send
    /// to it in return. Where the line ends a search, the next move is tried
    /// under the rules.
    pub fn on_line(&mut self, line: &[u8]) -> (out: Vec<Vec<u8>>)
        ensures
            final(self)@ == after_game_line(old(self)@, line@),
            out.deep_view() == output_of_line(old(self)@, line@),
    {
        if self.is_finished() {
            return nothing();
        }
        match self.session.on_line(line) {
            Reply::Ignored => nothing(),
            Reply::Acknowledged(commands) => commands,
            Reply::Ready => self.request(),
            Reply::Evaluated(wdl) => {
                let outcome = self.sheet.replay().try_next();
                self.on_evaluation(wdl, outcome)
            },
        }
    }

    /// Takes in that the engine can no longer be written to or read from, and
    /// returns the lines to send all the same.
    pub fn on_failure(&mut self) -> (out: Vec<Vec<u8>>)
        ensures
            final(self)@ == after_failure(old(self)@),
            out.deep_view() == output_of_failure(old(self)@),
    {
        if self.is_finished() {
            return nothing();
        }
        self.status = Status::Abandoned;
        self.session.quit()
    }

    /// The result of the analysis, once it is complete. An analysis that is
    /// still running or was abandoned has none.
    pub fn result(&self) -> (r: Option<GameResult>)
        ensures
            r is Some <==> self@.status == Status::Completed,
            r matches Some(g) ==> {
                &&& g.white.total == sum_of(self@.sheet.white)
                &&& g.white.count == self@.sheet.white.len()
                &&& g.black.total == sum_of(self@.sheet.black)
                &&& g.black.count == self@.sheet.black.len()
                &&& g.moves == self@.sheet.replay.played
                &&& g.white_name@ == self@.white_name
                &&& g.black_name@ == self@.black_name
            },
    {
        match self.status {
            Status::Completed => {
                let (white, black, moves) = self.sheet.totals();
                Some(
                    GameResult {
                        white,
                        black,
                        moves,
                        white_name: self.white_name.clone(),
                        black_name: self.black_name.clone(),
                    },
                )
            },
            _ => None,
        }
    }
}

} // verus!
