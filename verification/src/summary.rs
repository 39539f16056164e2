//! What a run over many games adds up to, and when progress is reported.

use crate::game::{lowercase, to_lowercase, GameResult, Tally};
use vstd::prelude::*;

verus! {

/// The scores of the tracked player in one game: those of the first player
/// where the tracked player's name is the first player's, those of the second
/// player otherwise.
pub open spec fn user_tally(game: GameResult, target: Seq<char>) -> Tally {
    if game.white_name@ == target {
        game.white
    } else {
        game.black
    }
}

/// The number of games that gave a result.
pub open spec fn analyzed_count(results: Seq<Option<GameResult>>) -> nat
    decreases results.len(),
{
    if results.len() == 0 {
        0
    } else {
        analyzed_count(results.drop_last()) + if results.last() is Some {
            1nat
        } else {
            0nat
        }
    }
}

/// The number of moves scored in all games together.
pub open spec fn moves_sum(results: Seq<Option<GameResult>>) -> nat
    decreases results.len(),
{
    if results.len() == 0 {
        0
    } else {
        moves_sum(results.drop_last()) + match results.last() {
            Some(game) => game.moves as nat,
            None => 0nat,
        }
    }
}

/// The tracked player's scores, game by game, for the games that gave a
/// result, in their order.
pub open spec fn user_tallies(results: Seq<Option<GameResult>>, target: Seq<char>) -> Seq<Tally>
    decreases results.len(),
{
    if results.len() == 0 {
        Seq::empty()
    } else {
        match results.last() {
            Some(game) => user_tallies(results.drop_last(), target).push(user_tally(game, target)),
            None => user_tallies(results.drop_last(), target),
        }
    }
}

/// What a run adds up to: the games that gave a result, the moves scored in
/// them, and the tracked player's scores game by game. The player's average
/// is the mean of the means of these, each game counting once.
pub struct Summary {
    pub analyzed: usize,
    pub total_moves: u128,
    pub user: Vec<Tally>,
}

/// Adds up the results of a run for the tracked player, whatever the case of
/// the letters of the name. Games that were skipped or abandoned, which have
/// no result, count for nothing.
pub fn summarize(results: &Vec<Option<GameResult>>, username: &str) -> (s: Summary)
    ensures
        s.analyzed == analyzed_count(results@),
        s.total_moves == moves_sum(results@),
        s.user@ == user_tallies(results@, lowercase(username@)),
{
    let target = to_lowercase(username);
    summarize_for(results, &target)
}

/// Adds up the results of a run for the player of the given name, which is
/// in lower case as the names in the results are.
pub fn summarize_for(results: &Vec<Option<GameResult>>, target: &String) -> (s: Summary)
    ensures
        s.analyzed == analyzed_count(results@),
        s.total_moves == moves_sum(results@),
        s.user@ == user_tallies(results@, target@),
{
    let n = results.len();
    let mut analyzed: usize = 0;
    let mut total_moves: u128 = 0;
    let mut user: Vec<Tally> = Vec::new();
    let mut i: usize = 0;
    proof {
        assert(results@.take(0) =~= Seq::<Option<GameResult>>::empty());
    }
    while i < n
        invariant
            n == results.len(),
            i <= n,
            analyzed == analyzed_count(results@.take(i as int)),
            analyzed <= i,
            total_moves == moves_sum(results@.take(i as int)),
            total_moves <= i * 0xFFFF_FFFF_FFFF_FFFF,
            user@ == user_tallies(results@.take(i as int), target@),
        decreases n - i,
    {
        proof {
            assert(results@.take(i + 1).drop_last() =~= results@.take(i as int));
            assert((i + 1) * 0xFFFF_FFFF_FFFF_FFFF == i * 0xFFFF_FFFF_FFFF_FFFF
                + 0xFFFF_FFFF_FFFF_FFFF) by (nonlinear_arith);
            assert(i * 0xFFFF_FFFF_FFFF_FFFF <= 0xFFFF_FFFF_FFFF_FFFF * 0xFFFF_FFFF_FFFF_FFFF)
                by (nonlinear_arith)
                requires
                    i <= 0xFFFF_FFFF_FFFF_FFFF,
            ;
        }
        match &results[i] {
            Some(game) => {
                analyzed = analyzed + 1;
                total_moves = total_moves + game.moves as u128;
                if game.white_name == *target {
                    user.push(game.white);
                } else {
                    user.push(game.black);
                }
            },
            None => {},
        }
        i += 1;
    }
    proof {
        assert(results@.take(n as int) =~= results@);
    }
    Summary { analyzed, total_moves, user }
}

/// Whether progress is reported once `completed` games are done: at every
/// multiple of `every`, and when all `total` games are done.
pub open spec fn is_report_point(completed: nat, total: nat, every: nat) -> bool {
    (every > 0 && completed % every == 0) || completed == total
}

/// Tells whether progress is reported once `completed` games are done.
pub fn should_report(completed: usize, total: usize, every: usize) -> (r: bool)
    ensures
        r == is_report_point(completed as nat, total as nat, every as nat),
{
    (every > 0 && completed % every == 0) || completed == total
}

} // verus!
