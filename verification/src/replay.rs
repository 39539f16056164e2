//! Position replay: applying move tokens to a position, one after another.
//!
//! A position is held as its canonical text encoding. The rules of chess are
//! those of the `shakmaty` crate, which decides whether a token is a legal
//! move and what position it leads to.

use crate::pgn::{extract, extract_moves, SPACE};
use crate::text::ascii;
use vstd::prelude::*;
use vstd::string::*;

verus! {

/// The encoding of the position that a token leads to from an encoded
/// position, or none where the encoding is no valid position, the token is no
/// move in standard algebraic notation, or the move is not legal there.
pub uninterp spec fn successor(encoding: Seq<u8>, san: Seq<u8>) -> Option<Seq<u8>>;

/// The encoding of the initial position of a game.
pub open spec fn start_encoding() -> Seq<u8> {
    ascii("rnbqkbnr/pppppppp/8/8/8/8/PPPPPPPP/RNBQKBNR w KQkq - 0 1"@)
}

/// Whether an encoding names the first player as the side to move: its second
/// field, behind the first space, starts with `w`.
pub open spec fn names_white(encoding: Seq<u8>) -> bool {
    exists|i: int|
        0 <= i && i + 1 < encoding.len() && #[trigger] encoding[i] == SPACE && encoding[i + 1]
            == 0x77 && forall|j: int| 0 <= j < i ==> encoding[j] != SPACE
}

/// How many of the given tokens can be played one after another, starting
/// from the encoded position: replay stops for good at the first token that
/// is no legal move.
pub open spec fn replayed(encoding: Seq<u8>, moves: Seq<Seq<u8>>) -> nat
    decreases moves.len(),
{
    if moves.len() == 0 {
        0
    } else {
        match successor(encoding, moves[0]) {
            Some(next) => 1 + replayed(next, moves.skip(1)),
            None => 0,
        }
    }
}

/// Encodes the initial position with `shakmaty`: `Chess::default()`, turned
/// into a `Fen` by `Fen::from_position` and written by `Fen::append_ascii_to`.
/// The contract states the text that the crate documents for that position.
#[verifier::external_body]
fn initial_encoding() -> (r: Vec<u8>)
    ensures
        r@ == start_encoding(),
{
    let mut out = Vec::new();
    let start = shakmaty::Chess::default();
    shakmaty::fen::Fen::from_position(&start, shakmaty::EnPassantMode::Legal).append_ascii_to(
        &mut out,
    );
    out
}

/// Plays one token with `shakmaty`: the encoding is read by `Fen::from_ascii`
/// and set up by `Fen::into_position`, the token is read by `San::from_ascii`
/// and resolved by `San::to_move`, the move is made by `Position::play`, and
/// the new position is written as the initial one is. Any failure on the way
/// gives `None`. The contract claims only that the outcome depends on the two
/// texts alone, and gives it its name.
#[verifier::external_body]
fn successor_encoding(encoding: &[u8], san: &[u8]) -> (r: Option<Vec<u8>>)
    ensures
        match r {
            Some(next) => successor(encoding@, san@) == Some(next@),
            None => successor(encoding@, san@) is None,
        },
{
    let fen = shakmaty::fen::Fen::from_ascii(encoding).ok()?;
    let pos: shakmaty::Chess = fen.into_position(shakmaty::CastlingMode::Standard).ok()?;
    let mv = shakmaty::san::San::from_ascii(san).ok()?.to_move(&pos).ok()?;
    let next = shakmaty::Position::play(pos, mv).ok()?;
    let mut out = Vec::new();
    shakmaty::fen::Fen::from_position(&next, shakmaty::EnPassantMode::Legal).append_ascii_to(
        &mut out,
    );
    Some(out)
}

/// The state of the board in one game, held as its canonical encoding.
pub struct Position {
    encoding: Vec<u8>,
}

impl View for Position {
    type V = Seq<u8>;

    closed spec fn view(&self) -> Seq<u8> {
        self.encoding@
    }
}

impl Position {
    /// The initial position.
    pub fn start() -> (r: Position)
        ensures
            r@ == start_encoding(),
    {
        Position { encoding: initial_encoding() }
    }

    /// The position that an encoding stands for. Nothing is asked of the
    /// text here: from one that encodes no position no move can be played.
    pub fn from_encoding(encoding: Vec<u8>) -> (r: Position)
        ensures
            r@ == encoding@,
    {
        Position { encoding }
    }

    /// The canonical encoding of the position.
    pub fn encoding(&self) -> (r: &[u8])
        ensures
            r@ == self@,
    {
        self.encoding.as_slice()
    }

    /// Tells whether the first player is to move.
    pub fn white_to_move(&self) -> (r: bool)
        ensures
            r == names_white(self@),
    {
        let n = self.encoding.len();
        let mut i: usize = 0;
        while i < n && self.encoding[i] != SPACE
            invariant
                n == self.encoding@.len(),
                i <= n,
                forall|j: int| 0 <= j < i ==> self.encoding@[j] != SPACE,
            decreases n - i,
        {
            i += 1;
        }
        i < n && n - i > 1 && self.encoding[i + 1] == 0x77
    }

    /// Plays a move token. Returns the position it leads to, or `None` where
    /// the token is no legal move here; the position itself stays as it is.
    pub fn play_san(&self, san: &[u8]) -> (r: Option<Position>)
        ensures
            match r {
                Some(next) => successor(self@, san@) == Some(next@),
                None => successor(self@, san@) is None,
            },
    {
        match successor_encoding(self.encoding.as_slice(), san) {
            Some(encoding) => Some(Position { encoding }),
            None => None,
        }
    }
}

/// The encoding of a position that may be missing.
pub open spec fn encoding_of(position: Option<Position>) -> Option<Seq<u8>> {
    match position {
        Some(p) => Some(p@),
        None => None,
    }
}

/// What a replay holds.
pub struct ReplayView {
    /// The move tokens of the game.
    pub moves: Seq<Seq<u8>>,
    /// How many of them have been played.
    pub played: nat,
    /// The encoding of the position reached.
    pub position: Seq<u8>,
    /// Whether replay has stopped for good.
    pub stopped: bool,
}

/// Whether a move is still to be tried.
pub open spec fn pending(r: ReplayView) -> bool {
    !r.stopped && r.played < r.moves.len()
}

/// What comes of trying the next move under the rules: the position it leads
/// to, or none where no move is to be tried or the next one is not legal.
pub open spec fn next_outcome(r: ReplayView) -> Option<Seq<u8>> {
    if pending(r) {
        successor(r.position, r.moves[r.played as int])
    } else {
        None
    }
}

/// The replay once the outcome of trying the next move is known. A move that
/// led to a position is played. In every other case replay stops: no later
/// move is ever tried.
pub open spec fn recorded(r: ReplayView, outcome: Option<Seq<u8>>) -> ReplayView {
    if pending(r) && outcome is Some {
        ReplayView { position: outcome.unwrap(), played: r.played + 1, ..r }
    } else {
        ReplayView { stopped: true, ..r }
    }
}

/// A replay that has stopped stays as it is, whatever outcome it is told.
pub proof fn lemma_replay_is_monotonic(r: ReplayView, outcome: Option<Seq<u8>>)
    requires
        r.stopped,
    ensures
        recorded(r, outcome) == r,
        next_outcome(r) is None,
{
}

/// A replay plays no more moves than the game has, and every outcome leaves
/// the moves of the game and the moves played so far in place.
pub proof fn lemma_replay_stays_in_bounds(r: ReplayView, outcome: Option<Seq<u8>>)
    requires
        r.played <= r.moves.len(),
    ensures
        recorded(r, outcome).played <= r.moves.len(),
        recorded(r, outcome).moves == r.moves,
        r.played <= recorded(r, outcome).played <= r.played + 1,
{
}

/// The replay of one game: its move tokens, how many of them have been
/// played, and the position reached.
pub struct Replay {
    moves: Vec<Vec<u8>>,
    played: usize,
    position: Position,
    stopped: bool,
}

impl View for Replay {
    type V = ReplayView;

    closed spec fn view(&self) -> ReplayView {
        ReplayView {
            moves: self.moves.deep_view(),
            played: self.played as nat,
            position: self.position@,
            stopped: self.stopped,
        }
    }
}

impl Replay {
    /// A replay of the given tokens that stands at the initial position.
    pub fn new(moves: Vec<Vec<u8>>) -> (r: Replay)
        ensures
            r@ == (ReplayView {
                moves: moves.deep_view(),
                played: 0,
                position: start_encoding(),
                stopped: false,
            }),
    {
        Replay { moves, played: 0, position: Position::start(), stopped: false }
    }

    /// How many moves have been played.
    pub fn played(&self) -> (r: usize)
        ensures
            r == self@.played,
    {
        self.played
    }

    /// The position reached.
    pub fn position(&self) -> (r: &Position)
        ensures
            r@ == self@.position,
    {
        &self.position
    }

    /// Tells whether replay has stopped.
    pub fn is_over(&self) -> (r: bool)
        ensures
            r == self@.stopped,
    {
        self.stopped
    }

    /// Tries the next move under the rules, without playing it.
    pub fn try_next(&self) -> (r: Option<Position>)
        ensures
            encoding_of(r) == next_outcome(self@),
    {
        if !self.stopped && self.played < self.moves.len() {
            proof {
                assert(self.moves[self.played as int].deep_view() =~= self.moves[self.played as int]@);
            }
            self.position.play_san(self.moves[self.played].as_slice())
        } else {
            None
        }
    }

    /// Takes in the outcome of trying the next move. Returns whether the
    /// move was played.
    pub fn record(&mut self, outcome: Option<Position>) -> (moved: bool)
        ensures
            final(self)@ == recorded(old(self)@, encoding_of(outcome)),
            moved == (pending(old(self)@) && outcome is Some),
            moved == !final(self)@.stopped,
    {
        if !self.stopped && self.played < self.moves.len() {
            match outcome {
                Some(next) => {
                    self.position = next;
                    self.played = self.played + 1;
                    return true;
                },
                None => {},
            }
        }
        self.stopped = true;
        false
    }

    /// Tries the next move under the rules and plays it if it is legal.
    /// Returns whether it was played.
    pub fn advance(&mut self) -> (moved: bool)
        ensures
            final(self)@ == recorded(old(self)@, next_outcome(old(self)@)),
            moved == next_outcome(old(self)@) is Some,
            moved == !final(self)@.stopped,
    {
        let outcome = self.try_next();
        self.record(outcome)
    }
}

/// Replays the given tokens from the initial position and returns how many
/// of them were played.
pub fn replay_moves(moves: Vec<Vec<u8>>) -> (played: usize)
    ensures
        played == replayed(start_encoding(), moves.deep_view()),
        played <= moves.len(),
{
    let ghost all = moves.deep_view();
    let mut replay = Replay::new(moves);
    proof {
        assert(all.skip(0) =~= all);
    }
    loop
        invariant_except_break
            !replay@.stopped,
            replay@.played + replayed(replay@.position, all.skip(replay@.played as int))
                == replayed(start_encoding(), all),
        invariant
            replay@.moves == all,
            replay@.played <= all.len(),
        ensures
            replay@.played <= all.len(),
            replay@.played == replayed(start_encoding(), all),
        decreases all.len() - replay@.played,
    {
        proof {
            let rest = all.skip(replay@.played as int);
            if replay@.played < all.len() {
                assert(rest[0] == all[replay@.played as int]);
                assert(rest.skip(1) =~= all.skip(replay@.played as int + 1));
            }
        }
        if !replay.advance() {
            break ;
        }
    }
    replay.played()
}

/// Replays the moves of a game text from the initial position. Returns the
/// number of moves played and the number of positions seen, the initial one
/// included; a text without moves gives no position at all.
pub fn parse_game(pgn: &str) -> (r: (usize, usize))
    ensures
        r.0 == replayed(start_encoding(), extract(pgn.spec_bytes())),
        r.1 == if extract(pgn.spec_bytes()).len() == 0 {
            0
        } else {
            r.0 + 1
        },
{
    let moves = extract_moves(pgn.as_bytes());
    if moves.len() == 0 {
        return (0, 0);
    }
    let played = replay_moves(moves);
    (played, played + 1)
}

} // verus!
