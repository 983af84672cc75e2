//! The evaluator and the negamax searcher. Scores are signed integers,
//! always relative to the side to move at the node being scored: negating
//! a child's score turns the opponent's view into the mover's, which is
//! all that implements the adversarial alternation. Each searcher's
//! result is pinned to the fail-hard alpha-beta value of the position's
//! game-tree model.

use vstd::prelude::*;

use crate::model::ab_scan;
use crate::model::alphabeta;
use crate::model::counts_wf;
use crate::model::eval_value;
use crate::model::lemma_child_wf;
use crate::model::lemma_root_wf;
use crate::model::material_value;
use crate::model::node_eval;
use crate::model::node_wf;
use crate::model::root_result;
use crate::model::root_scan;
use crate::model::Counts;
use crate::model::Status;
use crate::model::BISHOP;
use crate::model::KING;
use crate::model::KNIGHT;
use crate::model::PAWN;
use crate::model::QUEEN;
use crate::model::ROOK;
use crate::model::SCORE_BOUND;
use crate::position::capture_moves;
use crate::position::game_status;
use crate::position::legal_moves;
use crate::position::our_counts;
use crate::position::their_counts;
use crate::position::Position;

verus! {

fn material(c: Counts) -> (r: i32)
    requires
        counts_wf(c),
    ensures
        r as int == material_value(c),
        0 <= r <= SCORE_BOUND,
{
    PAWN * (c.pawns as i32) + KNIGHT * (c.knights as i32) + BISHOP * (c.bishops as i32) + ROOK * (
    c.rooks as i32) + QUEEN * (c.queens as i32)
}

/// The static value of the given position from the point of view of the
/// side to move: the lost-position score against a checkmated mover, a
/// draw score of zero for a stalemate, and the material balance otherwise.
pub fn evaluate(p: &Position) -> (r: i32)
    requires
        p.wf(),
    ensures
        r as int == node_eval(p.model().root()),
        r as int == eval_value(p.status(), p.ours(), p.theirs()),
        p.status() is Checkmate ==> r == -KING,
        p.status() is Stalemate ==> r == 0,
        -SCORE_BOUND <= r <= SCORE_BOUND,
{
    proof {
        lemma_root_wf(p.model());
    }
    match game_status(p) {
        Status::Checkmate => -KING,
        Status::Stalemate => 0,
        Status::Normal => material(our_counts(p)) - material(their_counts(p)),
    }
}

/// One pruning step, shared by the recursive searcher and the root: given
/// the current window and a child's score seen from the mover, report
/// whether the opponent cuts the node off (the score reaches `beta`), and
/// the raised lower bound otherwise. The running lower bound never
/// decreases, and short of a cutoff it stays below `beta`.
pub fn alpha_step(alpha: i32, beta: i32, evaluation: i32) -> (r: (bool, i32))
    requires
        alpha < beta,
    ensures
        r.0 <==> evaluation >= beta,
        r.1 == (if !r.0 && evaluation > alpha {
            evaluation
        } else {
            alpha
        }),
        alpha <= r.1,
        !r.0 ==> r.1 < beta,
{
    if evaluation >= beta {
        (true, alpha)
    } else if evaluation > alpha {
        (false, evaluation)
    } else {
        (false, alpha)
    }
}

/// Fail-hard negamax search of the game tree below `p`, `depth` plies
/// deep, within the window `alpha < beta`: the result is exactly the
/// `alphabeta` value of the position's model. At depth zero the window
/// goes unused and the static evaluation is returned as it stands,
/// terminal statuses included. At positive depth the node examines
/// capture moves first and then every legal move, scoring each successor
/// through the negated, swapped window; it reports `beta` as soon as a
/// child's score reaches it, and the final lower bound otherwise. A node
/// with no legal moves at positive depth falls through both passes and
/// hands back the incoming `alpha` unchanged.
pub fn search(p: &Position, depth: i32, alpha: i32, beta: i32) -> (r: i32)
    requires
        p.wf(),
        depth >= 0,
        -KING <= alpha,
        alpha < beta,
        beta <= KING,
    ensures
        r as int == alphabeta(p.model(), depth as nat, alpha as int, beta as int),
        -SCORE_BOUND <= r <= SCORE_BOUND,
        depth == 0 ==> r as int == eval_value(p.status(), p.ours(), p.theirs()),
        depth > 0 ==> alpha <= r <= beta,
        depth > 0 && !(p.status() is Normal) ==> r == alpha,
    decreases depth,
{
    if depth == 0 {
        return evaluate(p);
    }
    let ghost t = p.model();
    let ghost cd = ((depth as nat) - 1) as nat;
    proof {
        lemma_root_wf(t);
    }
    let mut a = alpha;
    let captures = capture_moves(p);
    let mut i: usize = 0;
    while i < captures.len()
        invariant
            p.wf(),
            t == p.model(),
            node_wf(t.root()),
            depth >= 1,
            cd == ((depth as nat) - 1) as nat,
            -KING <= alpha <= a < beta <= KING,
            i <= captures@.len(),
            captures@ == t.root().caps,
            ab_scan(t, t.root().caps, 0, cd, alpha as int, beta as int) == ab_scan(
                t,
                t.root().caps,
                i as int,
                cd,
                a as int,
                beta as int,
            ),
            !(t.root().status is Normal) ==> a == alpha,
        decreases captures@.len() - i,
    {
        let m = captures[i];
        proof {
            assert(t.root().caps[i as int] == m);
            assert(t.root().caps.contains(m));
            lemma_child_wf(t, m);
        }
        let child = p.after_move(m);
        let value = search(&child, depth - 1, -beta, -a);
        let step = alpha_step(a, beta, -value);
        proof {
            assert(value as int == alphabeta(
                t.child(t.root().caps[i as int]),
                cd,
                -(beta as int),
                -(a as int),
            ));
        }
        if step.0 {
            proof {
                assert(ab_scan(t, t.root().caps, i as int, cd, a as int, beta as int) == (
                    true,
                    beta as int,
                ));
                assert(alphabeta(t, depth as nat, alpha as int, beta as int) == beta as int);
            }
            return beta;
        }
        proof {
            assert(ab_scan(t, t.root().caps, i as int, cd, a as int, beta as int) == ab_scan(
                t,
                t.root().caps,
                i as int + 1,
                cd,
                step.1 as int,
                beta as int,
            ));
        }
        a = step.1;
        i = i + 1;
    }
    proof {
        assert(ab_scan(t, t.root().caps, captures@.len() as int, cd, a as int, beta as int) == (
            false,
            a as int,
        ));
    }
    let ghost amid = a as int;
    let all = legal_moves(p);
    let mut j: usize = 0;
    while j < all.len()
        invariant
            p.wf(),
            t == p.model(),
            node_wf(t.root()),
            depth >= 1,
            cd == ((depth as nat) - 1) as nat,
            -KING <= alpha <= amid <= a < beta <= KING,
            j <= all@.len(),
            all@ == t.root().all,
            ab_scan(t, t.root().caps, 0, cd, alpha as int, beta as int) == (false, amid),
            ab_scan(t, t.root().all, 0, cd, amid, beta as int) == ab_scan(
                t,
                t.root().all,
                j as int,
                cd,
                a as int,
                beta as int,
            ),
            !(t.root().status is Normal) ==> a == alpha,
        decreases all@.len() - j,
    {
        let m = all[j];
        proof {
            assert(t.root().all[j as int] == m);
            assert(t.root().all.contains(m));
            lemma_child_wf(t, m);
        }
        let child = p.after_move(m);
        let value = search(&child, depth - 1, -beta, -a);
        let step = alpha_step(a, beta, -value);
        proof {
            assert(value as int == alphabeta(
                t.child(t.root().all[j as int]),
                cd,
                -(beta as int),
                -(a as int),
            ));
        }
        if step.0 {
            proof {
                assert(ab_scan(t, t.root().all, j as int, cd, a as int, beta as int) == (
                    true,
                    beta as int,
                ));
                assert(alphabeta(t, depth as nat, alpha as int, beta as int) == beta as int);
            }
            return beta;
        }
        proof {
            assert(ab_scan(t, t.root().all, j as int, cd, a as int, beta as int) == ab_scan(
                t,
                t.root().all,
                j as int + 1,
                cd,
                step.1 as int,
                beta as int,
            ));
        }
        a = step.1;
        j = j + 1;
    }
    proof {
        assert(ab_scan(t, t.root().all, all@.len() as int, cd, a as int, beta as int) == (
            false,
            a as int,
        ));
        assert(alphabeta(t, depth as nat, alpha as int, beta as int) == a as int);
    }
    a
}

/// The root of the search: the same two passes and pruning as `search`
/// under the maximal window, additionally remembering which move raised
/// the lower bound — the pair returned is exactly `root_result` of the
/// position's model. On an early cutoff it reports the cutoff-causing
/// move with the bound itself; otherwise the best move found with its
/// exact score. A position with no legal move — its status `Checkmate`
/// or `Stalemate` — yields no move (`None`) paired with the unraised
/// lost-position bound; the caller tells those two states apart through
/// the position's status, not through the score.
pub fn bestmove(p: &Position, depth: i32) -> (r: (Option<chess::ChessMove>, i32))
    requires
        p.wf(),
        depth >= 1,
    ensures
        (r.0, r.1 as int) == root_result(p.model(), depth as nat),
        -KING <= r.1 <= KING,
        !(p.status() is Normal) ==> r.0 is None && r.1 == -KING,
{
    let ghost t = p.model();
    let ghost cd = ((depth as nat) - 1) as nat;
    proof {
        lemma_root_wf(t);
    }
    let mut mov: Option<chess::ChessMove> = None;
    let mut a: i32 = -KING;
    let beta: i32 = KING;
    let captures = capture_moves(p);
    let mut i: usize = 0;
    while i < captures.len()
        invariant
            p.wf(),
            t == p.model(),
            node_wf(t.root()),
            depth >= 1,
            cd == ((depth as nat) - 1) as nat,
            -KING <= a < beta,
            beta == KING,
            i <= captures@.len(),
            captures@ == t.root().caps,
            root_scan(t, t.root().caps, 0, cd, None, -(KING as int)) == root_scan(
                t,
                t.root().caps,
                i as int,
                cd,
                mov,
                a as int,
            ),
            !(t.root().status is Normal) ==> mov is None && a == -KING,
        decreases captures@.len() - i,
    {
        let m = captures[i];
        proof {
            assert(t.root().caps[i as int] == m);
            assert(t.root().caps.contains(m));
            lemma_child_wf(t, m);
        }
        let child = p.after_move(m);
        let value = search(&child, depth - 1, -beta, -a);
        let step = alpha_step(a, beta, -value);
        proof {
            assert(value as int == alphabeta(
                t.child(t.root().caps[i as int]),
                cd,
                -(KING as int),
                -(a as int),
            ));
        }
        if step.0 {
            proof {
                assert(root_scan(t, t.root().caps, i as int, cd, mov, a as int) == (
                    true,
                    Some(m),
                    KING as int,
                ));
                assert(root_result(t, depth as nat) == (Some(m), KING as int));
            }
            return (Some(m), beta);
        }
        let ghost mov0 = mov;
        let ghost a0 = a as int;
        if step.1 > a {
            mov = Some(m);
        }
        a = step.1;
        proof {
            assert(root_scan(t, t.root().caps, i as int, cd, mov0, a0) == root_scan(
                t,
                t.root().caps,
                i as int + 1,
                cd,
                mov,
                a as int,
            ));
        }
        i = i + 1;
    }
    proof {
        assert(root_scan(t, t.root().caps, captures@.len() as int, cd, mov, a as int) == (
            false,
            mov,
            a as int,
        ));
    }
    let ghost mov_mid = mov;
    let ghost amid = a as int;
    let all = legal_moves(p);
    let mut j: usize = 0;
    while j < all.len()
        invariant
            p.wf(),
            t == p.model(),
            node_wf(t.root()),
            depth >= 1,
            cd == ((depth as nat) - 1) as nat,
            -KING <= a < beta,
            beta == KING,
            j <= all@.len(),
            all@ == t.root().all,
            root_scan(t, t.root().caps, 0, cd, None, -(KING as int)) == (false, mov_mid, amid),
            root_scan(t, t.root().all, 0, cd, mov_mid, amid) == root_scan(
                t,
                t.root().all,
                j as int,
                cd,
                mov,
                a as int,
            ),
            !(t.root().status is Normal) ==> mov is None && a == -KING,
        decreases all@.len() - j,
    {
        let m = all[j];
        proof {
            assert(t.root().all[j as int] == m);
            assert(t.root().all.contains(m));
            lemma_child_wf(t, m);
        }
        let child = p.after_move(m);
        let value = search(&child, depth - 1, -beta, -a);
        let step = alpha_step(a, beta, -value);
        proof {
            assert(value as int == alphabeta(
                t.child(t.root().all[j as int]),
                cd,
                -(KING as int),
                -(a as int),
            ));
        }
        if step.0 {
            proof {
                assert(root_scan(t, t.root().all, j as int, cd, mov, a as int) == (
                    true,
                    Some(m),
                    KING as int,
                ));
                assert(root_result(t, depth as nat) == (Some(m), KING as int));
            }
            return (Some(m), beta);
        }
        let ghost mov0 = mov;
        let ghost a0 = a as int;
        if step.1 > a {
            mov = Some(m);
        }
        a = step.1;
        proof {
            assert(root_scan(t, t.root().all, j as int, cd, mov0, a0) == root_scan(
                t,
                t.root().all,
                j as int + 1,
                cd,
                mov,
                a as int,
            ));
        }
        j = j + 1;
    }
    proof {
        assert(root_scan(t, t.root().all, all@.len() as int, cd, mov, a as int) == (
            false,
            mov,
            a as int,
        ));
        assert(root_result(t, depth as nat) == (mov, a as int));
    }
    (mov, a)
}

} // verus!
