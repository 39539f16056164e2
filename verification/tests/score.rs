use chess_benchmark::score::{calc_accuracy, wdl_to_prob, Wdl, CERTAIN, FULL_SCORE};

fn parts(w: Wdl) -> (u32, u32, u32) {
    (w.win(), w.draw(), w.loss())
}

#[test]
fn a_well_formed_triple_is_kept() {
    assert_eq!(parts(Wdl::new(500, 300, 200)), (500, 300, 200));
    assert_eq!(parts(Wdl::new(0, 0, 1000)), (0, 0, 1000));
    assert_eq!(parts(Wdl::new(1000, 0, 0)), (1000, 0, 0));
}

#[test]
fn the_unknown_evaluation_is_the_default() {
    assert_eq!(parts(Wdl::unknown()), (333, 334, 333));
}

#[test]
fn a_triple_that_is_not_well_formed_gives_the_default() {
    assert_eq!(parts(Wdl::new(600, 300, 200)), (333, 334, 333));
    assert_eq!(parts(Wdl::new(0, 0, 0)), (333, 334, 333));
    assert_eq!(parts(Wdl::new(-1, 500, 501)), (333, 334, 333));
    assert_eq!(parts(Wdl::new(2000, -500, -500)), (333, 334, 333));
    assert_eq!(parts(Wdl::new(i32::MAX, i32::MAX, i32::MAX)), (333, 334, 333));
    assert_eq!(parts(Wdl::new(i32::MIN, i32::MIN, 1000)), (333, 334, 333));
}

#[test]
fn components_always_sum_to_a_thousand() {
    for (w, d, l) in [(1, 2, 3), (333, 334, 333), (999, 1, 0), (-5, 1005, 0), (400, 400, 200)] {
        let wdl = Wdl::new(w, d, l);
        assert_eq!(wdl.win() + wdl.draw() + wdl.loss(), 1000);
    }
}

#[test]
fn chances_count_a_win_twice_and_a_draw_once() {
    let wdl = Wdl::new(500, 300, 200);
    assert_eq!(wdl_to_prob(wdl, true), 1300);
    assert_eq!(wdl_to_prob(wdl, false), 700);
    assert_eq!(wdl_to_prob(Wdl::unknown(), true), 1000);
    assert_eq!(wdl_to_prob(Wdl::unknown(), false), 1000);
    assert_eq!(wdl_to_prob(Wdl::new(1000, 0, 0), true), CERTAIN);
    assert_eq!(wdl_to_prob(Wdl::new(1000, 0, 0), false), 0);
}

#[test]
fn flipping_the_side_is_swapping_wins_and_losses() {
    for (w, d, l) in [(500, 300, 200), (0, 1000, 0), (10, 90, 900), (333, 334, 333)] {
        let wdl = Wdl::new(w, d, l);
        let reversed = Wdl::new(l, d, w);
        assert_eq!(wdl_to_prob(wdl, true), wdl_to_prob(reversed, false));
        assert_eq!(wdl_to_prob(wdl, false), wdl_to_prob(reversed, true));
        assert_eq!(wdl_to_prob(wdl, true) + wdl_to_prob(wdl, false), CERTAIN);
    }
}

#[test]
fn no_loss_scores_full_marks() {
    assert_eq!(calc_accuracy(1000, 1000), FULL_SCORE);
    assert_eq!(calc_accuracy(1000, 1200), 1000);
    assert_eq!(calc_accuracy(0, 0), 1000);
    assert_eq!(calc_accuracy(0, 2000), 1000);
}

#[test]
fn a_loss_costs_a_tenth_of_a_point_for_each_unit() {
    assert_eq!(calc_accuracy(1200, 1000), 800);
    assert_eq!(calc_accuracy(1500, 1499), 999);
    assert_eq!(calc_accuracy(1300, 700), 400);
    assert_eq!(calc_accuracy(1000, 1), 1);
}

#[test]
fn the_loss_of_a_half_or_more_scores_nothing() {
    assert_eq!(calc_accuracy(2000, 1000), 0);
    assert_eq!(calc_accuracy(1000, 0), 0);
    assert_eq!(calc_accuracy(2000, 0), 0);
    assert_eq!(calc_accuracy(1500, 499), 0);
    assert_eq!(calc_accuracy(u32::MAX, 0), 0);
}

#[test]
fn a_larger_loss_scores_strictly_less_below_a_half() {
    let mut last = calc_accuracy(2000, 2000);
    for drop in 1..1000u32 {
        let score = calc_accuracy(2000, 2000 - drop);
        assert!(score < last);
        last = score;
    }
    assert_eq!(last, 1);
}
