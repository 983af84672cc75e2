//! The mathematical model behind the contracts: scores and piece counts,
//! the game tree a position spans, and the fail-hard alpha-beta value of
//! that tree — the reference that the searcher's contracts are pinned to.

use vstd::prelude::*;

verus! {

/// The score of a won position; a checkmate against the side to move
/// scores its negation. Never summed into the material balance.
pub const KING: i32 = 10000;

pub const PAWN: i32 = 100;

pub const KNIGHT: i32 = 300;

pub const BISHOP: i32 = 300;

pub const ROOK: i32 = 500;

pub const QUEEN: i32 = 900;

/// No score the evaluator can produce leaves this range: one side's
/// material is at most 64 pieces of worth at most 2100 each, and the
/// won-position constant is far smaller.
pub const SCORE_BOUND: i32 = 64 * 2100;

/// The rules engine's verdict on a position, for the side to move.
#[derive(Clone, Copy)]
pub enum Status {
    /// The side to move has at least one legal move.
    Normal,
    /// The side to move has no legal moves and is in check.
    Checkmate,
    /// The side to move has no legal moves and is not in check.
    Stalemate,
}

/// One side's piece counts, king excluded: the king never enters the
/// material balance.
#[derive(Clone, Copy)]
pub struct Counts {
    pub pawns: u32,
    pub knights: u32,
    pub bishops: u32,
    pub rooks: u32,
    pub queens: u32,
}

/// A board has 64 squares and at most one piece on each, so no count of
/// pieces of one kind and color can exceed 64.
pub open spec fn counts_wf(c: Counts) -> bool {
    c.pawns <= 64 && c.knights <= 64 && c.bishops <= 64 && c.rooks <= 64 && c.queens <= 64
}

/// The worth of one side's material: each piece kind's value times its
/// count, the king excluded.
pub open spec fn material_value(c: Counts) -> int {
    PAWN * (c.pawns as int) + KNIGHT * (c.knights as int) + BISHOP * (c.bishops as int)
        + ROOK * (c.rooks as int) + QUEEN * (c.queens as int)
}

/// What the evaluator reports for a position with the given status and
/// piece counts, from the side to move's point of view.
pub open spec fn eval_value(status: Status, ours: Counts, theirs: Counts) -> int {
    match status {
        Status::Checkmate => -(KING as int),
        Status::Stalemate => 0,
        Status::Normal => material_value(ours) - material_value(theirs),
    }
}

/// One node of the game tree, as the searcher meets it: the status and
/// both sides' counts relative to the side to move there, the capture
/// moves and the full legal-move list, each in generation order.
pub struct NodeData {
    pub status: Status,
    pub ours: Counts,
    pub theirs: Counts,
    pub caps: Seq<chess::ChessMove>,
    pub all: Seq<chess::ChessMove>,
}

/// The game tree below a position: the node met after each sequence of
/// played moves. A function of paths, so the unbounded tree of a game
/// with repeatable states is a single value.
pub struct Tree {
    pub f: spec_fn(Seq<chess::ChessMove>) -> NodeData,
}

impl Tree {
    pub open spec fn node_at(self, path: Seq<chess::ChessMove>) -> NodeData {
        (self.f)(path)
    }

    pub open spec fn root(self) -> NodeData {
        self.node_at(Seq::empty())
    }

    /// The subtree below one played move.
    pub open spec fn child(self, m: chess::ChessMove) -> Tree {
        Tree { f: |path: Seq<chess::ChessMove>| self.node_at(seq![m] + path) }
    }
}

/// Sanity of one node: counts read from a 64-square board, and move lists
/// empty exactly at the terminal statuses.
pub open spec fn node_wf(nd: NodeData) -> bool {
    &&& counts_wf(nd.ours)
    &&& counts_wf(nd.theirs)
    &&& !(nd.status is Normal) ==> nd.caps.len() == 0 && nd.all.len() == 0
    &&& nd.status is Normal ==> nd.all.len() >= 1
}

/// Sanity of every node of the tree.
pub open spec fn tree_wf(t: Tree) -> bool {
    forall|path: Seq<chess::ChessMove>| node_wf(#[trigger] t.node_at(path))
}

/// A well-formed tree has a well-formed root.
pub proof fn lemma_root_wf(t: Tree)
    requires
        tree_wf(t),
    ensures
        node_wf(t.root()),
{
    assert(node_wf(t.node_at(Seq::<chess::ChessMove>::empty())));
}

/// Well-formedness descends to every subtree.
pub proof fn lemma_child_wf(t: Tree, m: chess::ChessMove)
    requires
        tree_wf(t),
    ensures
        tree_wf(t.child(m)),
{
    assert forall|path: Seq<chess::ChessMove>| node_wf(#[trigger] t.child(m).node_at(path)) by {
        assert(t.child(m).node_at(path) == t.node_at(seq![m] + path));
    }
}

/// The static evaluation of one node.
pub open spec fn node_eval(nd: NodeData) -> int {
    eval_value(nd.status, nd.ours, nd.theirs)
}

/// One pass of fail-hard alpha-beta over the children for the moves
/// `s[i..]`, each searched `cd` plies deep: the first component reports a
/// cutoff — some child's negated score reached `beta`, and the node
/// reports `beta` itself — and the second carries the running lower
/// bound, raised by every strictly improving child.
pub open spec fn ab_scan(
    t: Tree,
    s: Seq<chess::ChessMove>,
    i: int,
    cd: nat,
    alpha: int,
    beta: int,
) -> (bool, int)
    decreases cd, 1int, s.len() - i,
{
    if i < 0 || i >= s.len() {
        (false, alpha)
    } else {
        let v = -alphabeta(t.child(s[i]), cd, -beta, -alpha);
        if v >= beta {
            (true, beta)
        } else if v > alpha {
            ab_scan(t, s, i + 1, cd, v, beta)
        } else {
            ab_scan(t, s, i + 1, cd, alpha, beta)
        }
    }
}

/// The fail-hard alpha-beta value of the tree, `depth` plies deep, within
/// the window (`alpha`, `beta`): at depth zero the static evaluation of
/// the root, the window unused; at positive depth the capture pass and
/// then the pass over every legal move, `beta` the moment either pass
/// cuts off, the final lower bound otherwise.
pub open spec fn alphabeta(t: Tree, depth: nat, alpha: int, beta: int) -> int
    decreases depth, 0int, 0int,
{
    if depth == 0 {
        node_eval(t.root())
    } else {
        let first = ab_scan(t, t.root().caps, 0, (depth - 1) as nat, alpha, beta);
        if first.0 {
            beta
        } else {
            let second = ab_scan(t, t.root().all, 0, (depth - 1) as nat, first.1, beta);
            if second.0 {
                beta
            } else {
                second.1
            }
        }
    }
}

/// One pass of the root's scan: fail-hard alpha-beta under the fixed
/// maximal window, additionally remembering which move last raised the
/// lower bound; a cutoff reports the cutoff-causing move with the bound.
pub open spec fn root_scan(
    t: Tree,
    s: Seq<chess::ChessMove>,
    i: int,
    cd: nat,
    best: Option<chess::ChessMove>,
    alpha: int,
) -> (bool, Option<chess::ChessMove>, int)
    decreases s.len() - i,
{
    if i < 0 || i >= s.len() {
        (false, best, alpha)
    } else {
        let v = -alphabeta(t.child(s[i]), cd, -(KING as int), -alpha);
        if v >= KING as int {
            (true, Some(s[i]), KING as int)
        } else if v > alpha {
            root_scan(t, s, i + 1, cd, Some(s[i]), v)
        } else {
            root_scan(t, s, i + 1, cd, best, alpha)
        }
    }
}

/// What the root search reports for the tree at a positive depth: the
/// chosen move — `None` while nothing ever raised the bound — and the
/// score, starting from no move and the lost-position bound.
pub open spec fn root_result(t: Tree, depth: nat) -> (Option<chess::ChessMove>, int) {
    let cd = (depth - 1) as nat;
    let first = root_scan(t, t.root().caps, 0, cd, None, -(KING as int));
    if first.0 {
        (first.1, first.2)
    } else {
        let second = root_scan(t, t.root().all, 0, cd, first.1, first.2);
        (second.1, second.2)
    }
}

/// Negamax consistency: the value a node examining the move `s[i]` holds
/// against `beta` and its lower bound is the exact negation of the
/// child's value under the swapped, negated window — "my alpha is your
/// ceiling, my beta is your floor".
pub proof fn lemma_negamax_consistency(
    t: Tree,
    s: Seq<chess::ChessMove>,
    i: int,
    cd: nat,
    alpha: int,
    beta: int,
)
    requires
        0 <= i < s.len(),
    ensures
        ({
            let v = -alphabeta(t.child(s[i]), cd, -beta, -alpha);
            ab_scan(t, s, i, cd, alpha, beta) == (if v >= beta {
                (true, beta)
            } else if v > alpha {
                ab_scan(t, s, i + 1, cd, v, beta)
            } else {
                ab_scan(t, s, i + 1, cd, alpha, beta)
            })
        }),
{
}

/// Fail-hard window discipline of one pass: the running lower bound never
/// falls below the incoming one and, short of a cutoff, stays strictly
/// below `beta`; `beta` itself comes back exactly with the cutoff flag.
pub proof fn lemma_scan_window(
    t: Tree,
    s: Seq<chess::ChessMove>,
    i: int,
    cd: nat,
    alpha: int,
    beta: int,
)
    requires
        alpha < beta,
    ensures
        ({
            let r = ab_scan(t, s, i, cd, alpha, beta);
            &&& r.0 ==> r.1 == beta
            &&& !r.0 ==> alpha <= r.1 < beta
        }),
    decreases s.len() - i,
{
    if 0 <= i < s.len() {
        let v = -alphabeta(t.child(s[i]), cd, -beta, -alpha);
        if v >= beta {
        } else if v > alpha {
            lemma_scan_window(t, s, i + 1, cd, v, beta);
        } else {
            lemma_scan_window(t, s, i + 1, cd, alpha, beta);
        }
    }
}

/// The value of the search at positive depth stays inside its window.
pub proof fn lemma_alphabeta_window(t: Tree, depth: nat, alpha: int, beta: int)
    requires
        depth >= 1,
        alpha < beta,
    ensures
        alpha <= alphabeta(t, depth, alpha, beta) <= beta,
{
    let cd = (depth - 1) as nat;
    lemma_scan_window(t, t.root().caps, 0, cd, alpha, beta);
    let first = ab_scan(t, t.root().caps, 0, cd, alpha, beta);
    if !first.0 {
        lemma_scan_window(t, t.root().all, 0, cd, first.1, beta);
    }
}

/// The root's chosen move, when there is one, is the best move it came in
/// with or one of the examined moves.
pub proof fn lemma_root_scan_move(
    t: Tree,
    s: Seq<chess::ChessMove>,
    i: int,
    cd: nat,
    best: Option<chess::ChessMove>,
    alpha: int,
)
    ensures
        ({
            let r = root_scan(t, s, i, cd, best, alpha);
            r.1 is Some ==> r.1 == best || exists|j: int| i <= j < s.len() && r.1 == Some(s[j])
        }),
    decreases s.len() - i,
{
    if 0 <= i < s.len() {
        let v = -alphabeta(t.child(s[i]), cd, -(KING as int), -alpha);
        if v >= KING as int {
            assert(root_scan(t, s, i, cd, best, alpha).1 == Some(s[i]));
        } else if v > alpha {
            lemma_root_scan_move(t, s, i + 1, cd, Some(s[i]), v);
        } else {
            lemma_root_scan_move(t, s, i + 1, cd, best, alpha);
        }
    }
}

/// A move the root search reports is one of the position's capture or
/// legal moves; with no legal move at all — a terminal root — it reports
/// no move and the untouched lost-position bound.
pub proof fn lemma_root_result_move(t: Tree, depth: nat)
    requires
        depth >= 1,
        tree_wf(t),
    ensures
        ({
            let r = root_result(t, depth);
            &&& r.0 matches Some(m) ==> t.root().caps.contains(m) || t.root().all.contains(m)
            &&& !(t.root().status is Normal) ==> r.0 is None && r.1 == -(KING as int)
        }),
{
    let cd = (depth - 1) as nat;
    lemma_root_wf(t);
    lemma_root_scan_move(t, t.root().caps, 0, cd, None, -(KING as int));
    let first = root_scan(t, t.root().caps, 0, cd, None, -(KING as int));
    if !first.0 {
        lemma_root_scan_move(t, t.root().all, 0, cd, first.1, first.2);
    }
}

/// The evaluation seen through either color's eyes. A position hands the
/// evaluator its mover's and its opponent's counts; this reading makes
/// the color explicit so that mirroring can be spoken of.
pub open spec fn eval_by_color(
    status: Status,
    white: Counts,
    black: Counts,
    white_to_move: bool,
) -> int {
    if white_to_move {
        eval_value(status, white, black)
    } else {
        eval_value(status, black, white)
    }
}

/// Mirror symmetry of the evaluator: a position and its color-reversed
/// mirror — the two sides' pieces exchanged and the turn flipped, which
/// keeps the mover's status — always evaluate to the same score.
pub proof fn lemma_evaluate_mirror(status: Status, white: Counts, black: Counts, white_to_move: bool)
    ensures
        eval_by_color(status, white, black, white_to_move) == eval_by_color(
            status,
            black,
            white,
            !white_to_move,
        ),
{
}

} // verus!
