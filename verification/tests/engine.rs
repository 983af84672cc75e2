use std::str::FromStr;

use negamax::engine::alpha_step;
use negamax::KING;
use negamax::bestmove;
use negamax::evaluate;
use negamax::search;
use negamax::Position;

fn pos(fen: &str) -> Position {
    Position::from_board(chess::Board::from_str(fen).unwrap())
}

// The side to move can take a queen with a pawn: white king a1, pawn e4,
// black king a8, queen d5, white to move.
const QUEEN_HANGS: &str = "k7/8/8/3q4/4P3/8/8/K7 w - - 0 1";

// The color-reversed mirror of QUEEN_HANGS: every piece swaps color and
// rank, and the turn flips.
const QUEEN_HANGS_MIRROR: &str = "K7/8/8/4p3/3Q4/8/8/k7 b - - 0 1";

// Black to move is checkmated: rook a2 checks along the a-file, rook b1
// seals the b-file.
const MATED: &str = "k7/8/8/8/8/8/R7/1R5K b - - 0 1";

// Black to move is stalemated: the queen on b6 covers a7, b7 and b8
// without giving check.
const STALEMATED: &str = "k7/8/1Q6/8/8/8/8/7K b - - 0 1";

#[test]
fn evaluate_start_is_zero() {
    let p = Position::from_board(chess::Board::default());
    assert_eq!(evaluate(&p), 0);
}

#[test]
fn evaluate_material_balance() {
    // White: two pawns. Black: a knight and a bishop.
    let p = pos("1nb1k3/8/8/8/8/8/PP6/4K3 w - - 0 1");
    assert_eq!(evaluate(&p), 2 * 100 - (300 + 300));
}

#[test]
fn evaluate_pawn_versus_queen() {
    let p = pos(QUEEN_HANGS);
    assert_eq!(evaluate(&p), 100 - 900);
}

#[test]
fn evaluate_checkmate_is_lost_king() {
    let p = pos(MATED);
    assert_eq!(evaluate(&p), -KING);
}

#[test]
fn evaluate_stalemate_is_draw() {
    let p = pos(STALEMATED);
    assert_eq!(evaluate(&p), 0);
}

#[test]
fn evaluate_mirror_symmetry() {
    let p = pos(QUEEN_HANGS);
    let mirrored = pos(QUEEN_HANGS_MIRROR);
    assert_eq!(evaluate(&p), evaluate(&mirrored));
    assert_eq!(evaluate(&p), -800);
}

#[test]
fn search_depth_zero_is_evaluate() {
    let p = pos(QUEEN_HANGS);
    let static_score = evaluate(&p);
    assert_eq!(search(&p, 0, -KING, KING), static_score);
    assert_eq!(search(&p, 0, -1, 1), static_score);
    assert_eq!(search(&p, 0, 100, 101), static_score);
}

#[test]
fn search_depth_zero_ignores_window_at_checkmate() {
    // The terminal score passes through even a window that excludes it.
    let p = pos(MATED);
    assert_eq!(search(&p, 0, -1, 1), -KING);
}

#[test]
fn search_depth_one_finds_queen_capture_value() {
    let p = pos(QUEEN_HANGS);
    assert_eq!(search(&p, 1, -KING, KING), 100);
}

#[test]
fn search_fail_hard_returns_beta_on_cutoff() {
    // The capture is worth 100, beyond the window's ceiling of 50: the
    // search reports the bound itself, not the true score.
    let p = pos(QUEEN_HANGS);
    assert_eq!(search(&p, 1, -50, 50), 50);
}

#[test]
fn search_no_moves_at_positive_depth_returns_alpha() {
    // A childless node above depth zero falls through both passes and
    // hands back the incoming lower bound unchanged.
    let p = pos(STALEMATED);
    assert_eq!(search(&p, 1, -KING, KING), -KING);
    assert_eq!(search(&p, 1, -7, 7), -7);
}

#[test]
fn bestmove_start_depth_one_scores_zero() {
    let p = Position::from_board(chess::Board::default());
    let (_, score) = bestmove(&p, 1);
    assert_eq!(score, 0);
}

#[test]
fn bestmove_takes_the_hanging_queen() {
    let p = pos(QUEEN_HANGS);
    let (mv, score) = bestmove(&p, 1);
    let capture = chess::ChessMove::new(chess::Square::E4, chess::Square::D5, None);
    assert_eq!(mv, Some(capture));
    assert_eq!(score, 100);
}

#[test]
fn bestmove_stalemate_returns_no_move_sentinel() {
    let p = pos(STALEMATED);
    let (mv, score) = bestmove(&p, 1);
    assert_eq!(mv, None);
    assert_eq!(score, -KING);
}

#[test]
fn bestmove_checkmate_returns_no_move_sentinel() {
    let p = pos(MATED);
    let (mv, score) = bestmove(&p, 1);
    assert_eq!(mv, None);
    assert_eq!(score, -KING);
}

#[test]
fn alpha_step_cutoff_exactly_at_beta() {
    assert_eq!(alpha_step(0, 50, 100), (true, 0));
    assert_eq!(alpha_step(0, 50, 50), (true, 0));
    assert_eq!(alpha_step(0, 50, 49), (false, 49));
}

#[test]
fn alpha_step_raises_alpha_monotonically() {
    assert_eq!(alpha_step(0, 50, 30), (false, 30));
    assert_eq!(alpha_step(30, 50, 10), (false, 30));
    assert_eq!(alpha_step(0, 50, -5), (false, 0));
}
