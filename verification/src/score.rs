//! Accuracy scoring in exact integer units.
//!
//! An engine evaluation is a win/draw/loss triple in per-mille. Winning
//! chances are counted in units of 1/2000, so that half a draw is a whole
//! number, and a move's score in tenths of a point, from 0 to 1000.

use vstd::prelude::*;

verus! {

/// The score of a move that loses no winning chances, in tenths of a point.
pub const FULL_SCORE: u32 = 1000;

/// Certainty, in units of 1/2000.
pub const CERTAIN: u32 = 2000;

/// The three components of an evaluation, seen from the side to move.
pub struct Outlook {
    pub win: int,
    pub draw: int,
    pub loss: int,
}

/// The evaluation that stands in for a missing or malformed one.
pub open spec fn default_outlook() -> Outlook {
    Outlook { win: 333, draw: 334, loss: 333 }
}

/// Three non-negative per-mille components that sum to 1000.
pub open spec fn well_formed(o: Outlook) -> bool {
    &&& 0 <= o.win
    &&& 0 <= o.draw
    &&& 0 <= o.loss
    &&& o.win + o.draw + o.loss == 1000
}

/// The given components where they are well formed, the default otherwise.
pub open spec fn normalized(win: int, draw: int, loss: int) -> Outlook {
    let o = Outlook { win, draw, loss };
    if well_formed(o) {
        o
    } else {
        default_outlook()
    }
}

/// The same evaluation seen from the other side: wins and losses trade places.
pub open spec fn reversed(o: Outlook) -> Outlook {
    Outlook { win: o.loss, draw: o.draw, loss: o.win }
}

/// Winning chances of one side in units of 1/2000: a win counts twice, a draw
/// once. The first player reads the triple as it stands, the second player
/// with wins and losses exchanged.
pub open spec fn win_chance(o: Outlook, first_player: bool) -> int {
    if first_player {
        2 * o.win + o.draw
    } else {
        2 * o.loss + o.draw
    }
}

/// The score of a move, in tenths of a point, as a function of the mover's
/// winning chances before and after it, both in units of 1/2000: full marks
/// when nothing was lost, otherwise one tenth less for each unit lost, and
/// never below zero.
pub open spec fn accuracy_of(before: int, after: int) -> int {
    if after >= before {
        1000
    } else if before - after >= 1000 {
        0
    } else {
        1000 - (before - after)
    }
}

/// An engine evaluation. Every value of this type is well formed.
#[derive(Clone, Copy, Debug)]
pub struct Wdl {
    win: u32,
    draw: u32,
    loss: u32,
}

impl View for Wdl {
    type V = Outlook;

    closed spec fn view(&self) -> Outlook {
        Outlook { win: self.win as int, draw: self.draw as int, loss: self.loss as int }
    }
}

impl Wdl {
    #[verifier::type_invariant]
    spec fn inv(self) -> bool {
        well_formed(self@)
    }

    /// Builds an evaluation from three integers. Components that are not well
    /// formed give the default evaluation.
    pub fn new(win: i32, draw: i32, loss: i32) -> (r: Wdl)
        ensures
            r@ == normalized(win as int, draw as int, loss as int),
            well_formed(r@),
    {
        if win >= 0 && draw >= 0 && loss >= 0 && win as i64 + draw as i64 + loss as i64 == 1000 {
            Wdl { win: win as u32, draw: draw as u32, loss: loss as u32 }
        } else {
            Wdl { win: 333, draw: 334, loss: 333 }
        }
    }

    /// The evaluation used when the engine reported none.
    pub fn unknown() -> (r: Wdl)
        ensures
            r@ == default_outlook(),
            well_formed(r@),
    {
        Wdl { win: 333, draw: 334, loss: 333 }
    }

    /// Wins of the side to move, per mille.
    pub fn win(&self) -> (r: u32)
        ensures
            r == self@.win,
            well_formed(self@),
    {
        proof {
            use_type_invariant(self);
        }
        self.win
    }

    /// Draws, per mille.
    pub fn draw(&self) -> (r: u32)
        ensures
            r == self@.draw,
            well_formed(self@),
    {
        proof {
            use_type_invariant(self);
        }
        self.draw
    }

    /// Losses of the side to move, per mille.
    pub fn loss(&self) -> (r: u32)
        ensures
            r == self@.loss,
            well_formed(self@),
    {
        proof {
            use_type_invariant(self);
        }
        self.loss
    }
}

/// Winning chances of one side under an evaluation, in units of 1/2000.
pub fn wdl_to_prob(wdl: Wdl, is_white: bool) -> (p: u32)
    ensures
        p == win_chance(wdl@, is_white),
        p <= CERTAIN,
{
    let w: u32 = wdl.win();
    let d: u32 = wdl.draw();
    let l: u32 = wdl.loss();
    if is_white {
        2 * w + d
    } else {
        2 * l + d
    }
}

/// Scores one move from the mover's winning chances before and after it.
pub fn calc_accuracy(before: u32, after: u32) -> (score: u32)
    ensures
        score == accuracy_of(before as int, after as int),
        score <= FULL_SCORE,
{
    if after >= before {
        FULL_SCORE
    } else {
        let drop: u32 = before - after;
        if drop >= FULL_SCORE {
            0
        } else {
            FULL_SCORE - drop
        }
    }
}

/// A move that does not lower the mover's winning chances scores full marks,
/// and one that lowers them by a half or more scores nothing.
pub proof fn lemma_accuracy_extremes(before: int, after: int)
    ensures
        after >= before ==> accuracy_of(before, after) == 1000,
        before - after >= 1000 ==> accuracy_of(before, after) == 0,
        0 <= accuracy_of(before, after) <= 1000,
{
}

/// Between no loss and the loss of a half, a larger loss scores strictly less.
pub proof fn lemma_accuracy_strictly_decreasing(
    before1: int,
    after1: int,
    before2: int,
    after2: int,
)
    requires
        0 < before1 - after1 < before2 - after2 < 1000,
    ensures
        accuracy_of(before1, after1) > accuracy_of(before2, after2),
{
}

/// Reading an evaluation for the second player is reading the reversed
/// evaluation for the first player, and the other way round.
pub proof fn lemma_perspective_flip(o: Outlook)
    ensures
        win_chance(o, true) == win_chance(reversed(o), false),
        win_chance(o, false) == win_chance(reversed(o), true),
        reversed(reversed(o)) == o,
        well_formed(o) <==> well_formed(reversed(o)),
{
}

/// Under a well-formed evaluation the chances of the two sides lie between
/// nothing and certainty and add up to certainty.
pub proof fn lemma_chances_complement(o: Outlook)
    requires
        well_formed(o),
    ensures
        win_chance(o, true) + win_chance(o, false) == 2000,
        0 <= win_chance(o, true) <= 2000,
        0 <= win_chance(o, false) <= 2000,
{
}

/// Whatever three integers are offered, the evaluation built from them is
/// well formed: its components are non-negative and sum to 1000.
pub proof fn lemma_normalized_is_well_formed(win: int, draw: int, loss: int)
    ensures
        well_formed(normalized(win, draw, loss)),
        well_formed(Outlook { win, draw, loss }) ==> normalized(win, draw, loss) == (Outlook {
            win,
            draw,
            loss,
        }),
        !well_formed(Outlook { win, draw, loss }) ==> normalized(win, draw, loss)
            == default_outlook(),
{
}

} // verus!
