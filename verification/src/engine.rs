//! The engine session: a client for the line protocol of an analysis engine.
//!
//! The session does no input or output. It is told each line that the engine
//! wrote and says which lines are to be written to the engine in return.

use crate::score::{default_outlook, normalized, well_formed, Outlook, Wdl};
use crate::text::{
    append, ascii, contains, decimal_text, field_end, find, first_occurrence, i32_value,
    ink_start, lemma_first_occurrence_unique, occurs, occurs_at, parse_i32, push_decimal,
    skip_field, skip_space, to_bytes,
};
use vstd::prelude::*;
use vstd::slice::slice_subrange;
use vstd::string::*;

verus! {

/// The command that opens the handshake.
pub open spec fn init_command() -> Seq<u8> {
    ascii("uci"@)
}

/// The token by which the engine acknowledges the handshake.
pub open spec fn handshake_token() -> Seq<u8> {
    ascii("uciok"@)
}

/// The command that sets the number of threads of the engine.
pub open spec fn threads_command(threads: nat) -> Seq<u8> {
    ascii("setoption name Threads value "@) + decimal_text(threads)
}

/// The command that asks the engine to report win, draw and loss chances.
pub open spec fn show_wdl_command() -> Seq<u8> {
    ascii("setoption name UCI_ShowWDL value true"@)
}

/// The command that asks the engine whether it is ready.
pub open spec fn ready_command() -> Seq<u8> {
    ascii("isready"@)
}

/// The token by which the engine says that it is ready.
pub open spec fn ready_token() -> Seq<u8> {
    ascii("readyok"@)
}

/// The command that sets the position to analyse.
pub open spec fn position_command(encoding: Seq<u8>) -> Seq<u8> {
    ascii("position fen "@) + encoding
}

/// The command that starts a search to a fixed depth.
pub open spec fn go_command(depth: nat) -> Seq<u8> {
    ascii("go depth "@) + decimal_text(depth)
}

/// The token that marks the line which ends a search.
pub open spec fn best_move_token() -> Seq<u8> {
    ascii("bestmove"@)
}

/// The command that ends the session.
pub open spec fn quit_command() -> Seq<u8> {
    ascii("quit"@)
}

/// The text behind which a line reports win, draw and loss chances.
pub open spec fn wdl_marker() -> Seq<u8> {
    ascii(" wdl "@)
}

/// The commands that configure the engine once it has acknowledged the
/// handshake, the readiness check last.
pub open spec fn configuration(threads: nat) -> Seq<Seq<u8>> {
    seq![threads_command(threads), show_wdl_command(), ready_command()]
}

/// The commands that start the analysis of a position.
pub open spec fn analysis_request(encoding: Seq<u8>, depth: nat) -> Seq<Seq<u8>> {
    seq![position_command(encoding), go_command(depth)]
}

/// The evaluation that three fields state: their three integers where each
/// field is a 32-bit integer and the three are well formed, the default
/// evaluation otherwise.
pub open spec fn fields_outlook(win: Seq<u8>, draw: Seq<u8>, loss: Seq<u8>) -> Outlook {
    match (i32_value(win), i32_value(draw), i32_value(loss)) {
        (Some(w), Some(d), Some(l)) => normalized(w, d, l),
        _ => default_outlook(),
    }
}

/// The evaluation that a line reports: that of the first three fields behind
/// the first marker in it, fields being separated by white space. A line
/// without the marker, or with fewer than three fields behind it, reports
/// none.
pub open spec fn reported_outlook(line: Seq<u8>) -> Option<Outlook> {
    if !occurs(line, wdl_marker()) {
        None
    } else {
        let p = choose|p: int| first_occurrence(line, wdl_marker(), p);
        let a1 = ink_start(line, p + wdl_marker().len());
        let e1 = field_end(line, a1);
        let a2 = ink_start(line, e1);
        let e2 = field_end(line, a2);
        let a3 = ink_start(line, e2);
        let e3 = field_end(line, a3);
        if a3 >= line.len() {
            None
        } else {
            Some(
                fields_outlook(
                    line.subrange(a1, e1),
                    line.subrange(a2, e2),
                    line.subrange(a3, e3),
                ),
            )
        }
    }
}

/// The latest evaluation once a line has been read: the one that the line
/// reports, or the one held before where it reports none.
pub open spec fn seen(latest: Outlook, line: Seq<u8>) -> Outlook {
    match reported_outlook(line) {
        Some(o) => o,
        None => latest,
    }
}

/// Builds the evaluation that three fields state.
pub fn wdl_from_fields(win: &[u8], draw: &[u8], loss: &[u8]) -> (r: Wdl)
    ensures
        r@ == fields_outlook(win@, draw@, loss@),
        well_formed(r@),
{
    match (parse_i32(win), parse_i32(draw), parse_i32(loss)) {
        (Some(w), Some(d), Some(l)) => Wdl::new(w, d, l),
        _ => Wdl::unknown(),
    }
}

/// Reads the evaluation that a line reports, if it reports one.
pub fn scan_wdl(line: &[u8]) -> (r: Option<Wdl>)
    ensures
        match r {
            Some(wdl) => reported_outlook(line@) == Some(wdl@) && well_formed(wdl@),
            None => reported_outlook(line@) is None,
        },
{
    proof {
        reveal_strlit(" wdl ");
    }
    let marker = to_bytes(" wdl ");
    let n = line.len();
    match find(line, marker.as_slice()) {
        None => None,
        Some(p) => {
            proof {
                assert(occurs_at(line@, wdl_marker(), p as int));
                let q = choose|q: int| first_occurrence(line@, wdl_marker(), q);
                lemma_first_occurrence_unique(line@, wdl_marker(), p as int, q);
                assert(p + marker@.len() <= line@.len());
            }
            let a1 = skip_space(line, p + marker.len());
            let e1 = skip_field(line, a1);
            let a2 = skip_space(line, e1);
            let e2 = skip_field(line, a2);
            let a3 = skip_space(line, e2);
            let e3 = skip_field(line, a3);
            if a3 >= n {
                None
            } else {
                Some(
                    wdl_from_fields(
                        slice_subrange(line, a1, e1),
                        slice_subrange(line, a2, e2),
                        slice_subrange(line, a3, e3),
                    ),
                )
            }
        },
    }
}

/// Where a session stands in its life.
#[derive(Clone, Copy, Debug, PartialEq, Eq, Structural)]
pub enum SessionState {
    /// The handshake was opened and is not acknowledged yet.
    Created,
    /// The engine was configured and has not said yet that it is ready.
    Handshaking,
    /// The engine waits for a position.
    Ready,
    /// The engine searches; its lines are read up to the one that ends the
    /// search.
    Analyzing,
    /// The session was ended.
    Terminated,
}

/// What a session holds.
pub struct SessionView {
    pub state: SessionState,
    pub threads: nat,
    pub depth: nat,
    /// The latest evaluation seen in the search under way.
    pub latest: Outlook,
}

/// A session with one engine. Threads and depth are fixed when it is opened.
pub struct EngineSession {
    state: SessionState,
    threads: usize,
    depth: u32,
    latest: Wdl,
}

impl View for EngineSession {
    type V = SessionView;

    closed spec fn view(&self) -> SessionView {
        SessionView {
            state: self.state,
            threads: self.threads as nat,
            depth: self.depth as nat,
            latest: self.latest@,
        }
    }
}

/// What a line of the engine amounts to for the session.
pub enum Reply {
    /// Nothing is complete yet: the next line is to be read.
    Ignored,
    /// The handshake was acknowledged: these commands are to be sent.
    Acknowledged(Vec<Vec<u8>>),
    /// The engine is ready for a position.
    Ready,
    /// The search has ended with this evaluation.
    Evaluated(Wdl),
}

/// The content of a reply.
pub enum ReplyView {
    Ignored,
    Acknowledged(Seq<Seq<u8>>),
    Ready,
    Evaluated(Outlook),
}

impl View for Reply {
    type V = ReplyView;

    open spec fn view(&self) -> ReplyView {
        match self {
            Reply::Ignored => ReplyView::Ignored,
            Reply::Acknowledged(commands) => ReplyView::Acknowledged(commands.deep_view()),
            Reply::Ready => ReplyView::Ready,
            Reply::Evaluated(wdl) => ReplyView::Evaluated(wdl@),
        }
    }
}

/// The session after a line of the engine was read. While the handshake is
/// open, the line that holds its acknowledgement leads on; so does the line
/// that holds the readiness token once the engine is configured. During a
/// search every line may report an evaluation, the latest of which is kept,
/// and the line that holds the best-move token ends the search. All other
/// lines change nothing.
pub open spec fn after_line(s: SessionView, line: Seq<u8>) -> SessionView {
    match s.state {
        SessionState::Created => if occurs(line, handshake_token()) {
            SessionView { state: SessionState::Handshaking, ..s }
        } else {
            s
        },
        SessionState::Handshaking => if occurs(line, ready_token()) {
            SessionView { state: SessionState::Ready, ..s }
        } else {
            s
        },
        SessionState::Analyzing => SessionView {
            state: if occurs(line, best_move_token()) {
                SessionState::Ready
            } else {
                SessionState::Analyzing
            },
            latest: seen(s.latest, line),
            ..s
        },
        SessionState::Ready => s,
        SessionState::Terminated => s,
    }
}

/// What a line of the engine amounts to for a session.
pub open spec fn reply_to(s: SessionView, line: Seq<u8>) -> ReplyView {
    match s.state {
        SessionState::Created => if occurs(line, handshake_token()) {
            ReplyView::Acknowledged(configuration(s.threads))
        } else {
            ReplyView::Ignored
        },
        SessionState::Handshaking => if occurs(line, ready_token()) {
            ReplyView::Ready
        } else {
            ReplyView::Ignored
        },
        SessionState::Analyzing => if occurs(line, best_move_token()) {
            ReplyView::Evaluated(seen(s.latest, line))
        } else {
            ReplyView::Ignored
        },
        SessionState::Ready => ReplyView::Ignored,
        SessionState::Terminated => ReplyView::Ignored,
    }
}

/// The session after a run of lines was read, one after another.
pub open spec fn after_lines(s: SessionView, lines: Seq<Seq<u8>>) -> SessionView
    decreases lines.len(),
{
    if lines.len() == 0 {
        s
    } else {
        after_line(after_lines(s, lines.drop_last()), lines.last())
    }
}

/// The evaluation of the last line of a run that reports one, or the fallback
/// where no line does.
pub open spec fn last_report(fallback: Outlook, lines: Seq<Seq<u8>>) -> Outlook
    decreases lines.len(),
{
    if lines.len() == 0 {
        fallback
    } else {
        seen(last_report(fallback, lines.drop_last()), lines.last())
    }
}

/// While a search is under way and no line holds the best-move token, the
/// session stays in the search and keeps the evaluation of the last line that
/// reported one.
pub proof fn lemma_drain_keeps_last_report(s: SessionView, lines: Seq<Seq<u8>>)
    requires
        s.state == SessionState::Analyzing,
        forall|i: int| 0 <= i < lines.len() ==> !occurs(#[trigger] lines[i], best_move_token()),
    ensures
        after_lines(s, lines) == (SessionView { latest: last_report(s.latest, lines), ..s }),
    decreases lines.len(),
{
    if lines.len() > 0 {
        let front = lines.drop_last();
        assert forall|i: int| 0 <= i < front.len() implies !occurs(
            #[trigger] front[i],
            best_move_token(),
        ) by {
            assert(front[i] == lines[i]);
        }
        lemma_drain_keeps_last_report(s, front);
        assert(!occurs(lines[lines.len() - 1], best_move_token()));
    }
}

/// The line that holds the best-move token ends the search with the
/// evaluation of the last line that reported one, itself included, and with
/// the fallback where none did.
pub proof fn lemma_search_result(s: SessionView, lines: Seq<Seq<u8>>, last: Seq<u8>)
    requires
        s.state == SessionState::Analyzing,
        forall|i: int| 0 <= i < lines.len() ==> !occurs(#[trigger] lines[i], best_move_token()),
        occurs(last, best_move_token()),
    ensures
        reply_to(after_lines(s, lines), last) == ReplyView::Evaluated(
            last_report(s.latest, lines.push(last)),
        ),
        after_line(after_lines(s, lines), last).state == SessionState::Ready,
        (forall|i: int| 0 <= i < lines.len() ==> reported_outlook(#[trigger] lines[i]) is None)
            && reported_outlook(last) is None ==> last_report(s.latest, lines.push(last))
            == s.latest,
{
    lemma_drain_keeps_last_report(s, lines);
    assert(lines.push(last).drop_last() =~= lines);
    if (forall|i: int| 0 <= i < lines.len() ==> reported_outlook(#[trigger] lines[i]) is None) {
        lemma_silent_lines(s.latest, lines);
    }
}

/// Lines that report no evaluation leave the fallback in place.
pub proof fn lemma_silent_lines(fallback: Outlook, lines: Seq<Seq<u8>>)
    requires
        forall|i: int| 0 <= i < lines.len() ==> reported_outlook(#[trigger] lines[i]) is None,
    ensures
        last_report(fallback, lines) == fallback,
    decreases lines.len(),
{
    if lines.len() > 0 {
        let front = lines.drop_last();
        assert forall|i: int| 0 <= i < front.len() implies reported_outlook(
            #[trigger] front[i],
        ) is None by {
            assert(front[i] == lines[i]);
        }
        lemma_silent_lines(fallback, front);
        assert(reported_outlook(lines[lines.len() - 1]) is None);
    }
}

/// The line that sets the number of threads.
fn threads_line(threads: usize) -> (r: Vec<u8>)
    ensures
        r@ == threads_command(threads as nat),
{
    proof {
        reveal_strlit("setoption name Threads value ");
    }
    let mut out = to_bytes("setoption name Threads value ");
    push_decimal(&mut out, threads as u64);
    out
}

/// The line that starts a search to the given depth.
fn go_line(depth: u32) -> (r: Vec<u8>)
    ensures
        r@ == go_command(depth as nat),
{
    proof {
        reveal_strlit("go depth ");
    }
    let mut out = to_bytes("go depth ");
    push_decimal(&mut out, depth as u64);
    out
}

/// The line that sets the position to analyse.
fn position_line(encoding: &[u8]) -> (r: Vec<u8>)
    ensures
        r@ == position_command(encoding@),
{
    proof {
        reveal_strlit("position fen ");
    }
    let mut out = to_bytes("position fen ");
    append(&mut out, encoding);
    out
}

/// The lines that configure the engine.
fn configuration_lines(threads: usize) -> (r: Vec<Vec<u8>>)
    ensures
        r.deep_view() == configuration(threads as nat),
{
    proof {
        reveal_strlit("setoption name UCI_ShowWDL value true");
        reveal_strlit("isready");
    }
    let mut out: Vec<Vec<u8>> = Vec::new();
    out.push(threads_line(threads));
    out.push(to_bytes("setoption name UCI_ShowWDL value true"));
    out.push(to_bytes("isready"));
    proof {
        assert(out[0].deep_view() =~= out[0]@);
        assert(out[1].deep_view() =~= out[1]@);
        assert(out[2].deep_view() =~= out[2]@);
        assert(out.deep_view() =~= configuration(threads as nat));
    }
    out
}

/// A list that holds one line.
fn single_line(line: Vec<u8>) -> (r: Vec<Vec<u8>>)
    ensures
        r.deep_view() == seq![line@],
{
    let mut out: Vec<Vec<u8>> = Vec::new();
    out.push(line);
    proof {
        assert(out[0].deep_view() =~= out[0]@);
        assert(out.deep_view() =~= seq![line@]);
    }
    out
}

impl EngineSession {
    /// Opens a session. Returns it with the command that opens the handshake,
    /// which is to be sent to the engine.
    pub fn open(threads: usize, depth: u32) -> (r: (EngineSession, Vec<Vec<u8>>))
        ensures
            r.0@ == (SessionView {
                state: SessionState::Created,
                threads: threads as nat,
                depth: depth as nat,
                latest: default_outlook(),
            }),
            r.1.deep_view() == seq![init_command()],
    {
        proof {
            reveal_strlit("uci");
        }
        let session = EngineSession {
            state: SessionState::Created,
            threads,
            depth,
            latest: Wdl::unknown(),
        };
        (session, single_line(to_bytes("uci")))
    }

    /// Where the session stands.
    pub fn state(&self) -> (r: SessionState)
        ensures
            r == self@.state,
    {
        self.state
    }

    /// Takes in one line that the engine wrote.
    pub fn on_line(&mut self, line: &[u8]) -> (reply: Reply)
        ensures
            final(self)@ == after_line(old(self)@, line@),
            reply@ == reply_to(old(self)@, line@),
    {
        proof {
            reveal_strlit("uciok");
            reveal_strlit("readyok");
            reveal_strlit("bestmove");
        }
        match self.state {
            SessionState::Created => {
                if contains(line, to_bytes("uciok").as_slice()) {
                    self.state = SessionState::Handshaking;
                    Reply::Acknowledged(configuration_lines(self.threads))
                } else {
                    Reply::Ignored
                }
            },
            SessionState::Handshaking => {
                if contains(line, to_bytes("readyok").as_slice()) {
                    self.state = SessionState::Ready;
                    Reply::Ready
                } else {
                    Reply::Ignored
                }
            },
            SessionState::Analyzing => {
                match scan_wdl(line) {
                    Some(wdl) => {
                        self.latest = wdl;
                    },
                    None => {},
                }
                if contains(line, to_bytes("bestmove").as_slice()) {
                    self.state = SessionState::Ready;
                    Reply::Evaluated(self.latest)
                } else {
                    Reply::Ignored
                }
            },
            SessionState::Ready => Reply::Ignored,
            SessionState::Terminated => Reply::Ignored,
        }
    }

    /// Asks for the analysis of a position. A session that is ready starts a
    /// search, with no evaluation seen yet, and returns the commands to send;
    /// in any other state nothing changes and nothing is to be sent.
    pub fn analyze(&mut self, encoding: &[u8]) -> (r: Option<Vec<Vec<u8>>>)
        ensures
            old(self)@.state == SessionState::Ready ==> final(self)@ == (SessionView {
                state: SessionState::Analyzing,
                latest: default_outlook(),
                ..old(self)@
            }) && r.is_some() && r.unwrap().deep_view() == analysis_request(
                encoding@,
                old(self)@.depth,
            ),
            old(self)@.state != SessionState::Ready ==> final(self)@ == old(self)@ && r.is_none(),
    {
        match self.state {
            SessionState::Ready => {
                self.state = SessionState::Analyzing;
                self.latest = Wdl::unknown();
                let mut out: Vec<Vec<u8>> = Vec::new();
                out.push(position_line(encoding));
                out.push(go_line(self.depth));
                proof {
                    assert(out[0].deep_view() =~= out[0]@);
                    assert(out[1].deep_view() =~= out[1]@);
                    assert(out.deep_view() =~= analysis_request(encoding@, self.depth as nat));
                }
                Some(out)
            },
            _ => None,
        }
    }

    /// Ends the session and returns the command to send: the termination
    /// command, or nothing where the session was ended before.
    pub fn quit(&mut self) -> (r: Vec<Vec<u8>>)
        ensures
            final(self)@ == (SessionView { state: SessionState::Terminated, ..old(self)@ }),
            r.deep_view() == if old(self)@.state == SessionState::Terminated {
                Seq::<Seq<u8>>::empty()
            } else {
                seq![quit_command()]
            },
    {
        proof {
            reveal_strlit("quit");
        }
        match self.state {
            SessionState::Terminated => {
                let out: Vec<Vec<u8>> = Vec::new();
                proof {
                    assert(out.deep_view() =~= Seq::<Seq<u8>>::empty());
                }
                out
            },
            _ => {
                self.state = SessionState::Terminated;
                single_line(to_bytes("quit"))
            },
        }
    }
}

} // verus!
