//! The boundary with the rules engine. The `chess` crate owns board
//! representation, legality, status and move application; all the library
//! knows of them is a ghost game tree named when a board is wrapped, and
//! the trusted readers here, each of which states — against the crate's
//! source — how one call reads one piece of that tree. The crate's board
//! operations are pure functions of the board, so the tree is fixed at
//! construction and every read agrees with it.

use vstd::prelude::*;
use vstd::pervasive::arbitrary;

use crate::model::tree_wf;
use crate::model::Counts;
use crate::model::Status;
use crate::model::Tree;

verus! {

#[verifier::external_type_specification]
#[verifier::external_body]
pub struct ExBoard(chess::Board);

#[verifier::external_type_specification]
#[verifier::external_body]
pub struct ExChessMove(chess::ChessMove);

/// A position as the search sees it: the rules engine's board, carrying
/// the model of the game tree below it.
pub struct Position {
    board: chess::Board,
    model: Ghost<Tree>,
}

impl Position {
    /// The game tree this position spans: status, counts and move lists
    /// at every node, all relative to the side to move there.
    pub closed spec fn model(&self) -> Tree {
        self.model@
    }

    /// The rules engine's status for the side to move.
    pub open spec fn status(&self) -> Status {
        self.model().root().status
    }

    /// The piece counts of the side to move.
    pub open spec fn ours(&self) -> Counts {
        self.model().root().ours
    }

    /// The piece counts of the opponent.
    pub open spec fn theirs(&self) -> Counts {
        self.model().root().theirs
    }

    /// The model is sane at every node: counts from a 64-square board,
    /// move lists empty exactly at the terminal statuses.
    pub open spec fn wf(&self) -> bool {
        tree_wf(self.model())
    }

    /// Relies on the `chess` crate's status, counting, move generation
    /// and move application being pure functions of the board: a board
    /// determines one game tree, which this constructor names. Each fact
    /// the library uses about the tree stands on the trusted reader that
    /// states it. The tree is well formed because `chess::Board::status`
    /// reports `Checkmate` or `Stalemate` exactly when
    /// `chess::MoveGen::new_legal` yields nothing, and a 64-square board
    /// bounds every piece count by 64.
    #[verifier::external_body]
    pub fn from_board(board: chess::Board) -> (r: Position)
        ensures
            r.wf(),
    {
        Position { board, model: Ghost(arbitrary()) }
    }

    /// Relies on `chess::Board::make_move_new`: playing one of this very
    /// board's generated legal moves — the precondition; an arbitrary
    /// move could panic or corrupt the board — yields the successor
    /// position, the model's child for that move, the input untouched.
    #[verifier::external_body]
    pub(crate) fn after_move(&self, m: chess::ChessMove) -> (r: Position)
        requires
            self.model().root().caps.contains(m) || self.model().root().all.contains(m),
        ensures
            r.model() == self.model().child(m),
    {
        Position { board: self.board.make_move_new(m), model: Ghost(arbitrary()) }
    }
}

/// Relies on `chess::Board::status`: `Checkmate` and `Stalemate` are
/// reported exactly when the side to move has no legal moves (in check
/// or not), `Ongoing` otherwise — the status the model's root records.
#[verifier::external_body]
pub(crate) fn game_status(p: &Position) -> (r: Status)
    ensures
        r == p.status(),
{
    match p.board.status() {
        chess::BoardStatus::Ongoing => Status::Normal,
        chess::BoardStatus::Stalemate => Status::Stalemate,
        chess::BoardStatus::Checkmate => Status::Checkmate,
    }
}

/// Relies on `chess::Board::color_combined`, `chess::Board::pieces` and
/// `chess::BitBoard::popcnt`: the side to move's piece counts, which the
/// model's root records.
#[verifier::external_body]
pub(crate) fn our_counts(p: &Position) -> (r: Counts)
    ensures
        r == p.ours(),
{
    let us = *p.board.color_combined(p.board.side_to_move());
    Counts {
        pawns: (us & p.board.pieces(chess::Piece::Pawn)).popcnt(),
        knights: (us & p.board.pieces(chess::Piece::Knight)).popcnt(),
        bishops: (us & p.board.pieces(chess::Piece::Bishop)).popcnt(),
        rooks: (us & p.board.pieces(chess::Piece::Rook)).popcnt(),
        queens: (us & p.board.pieces(chess::Piece::Queen)).popcnt(),
    }
}

/// Relies on the same counting calls for the opponent's pieces, which
/// the model's root records.
#[verifier::external_body]
pub(crate) fn their_counts(p: &Position) -> (r: Counts)
    ensures
        r == p.theirs(),
{
    let them = *p.board.color_combined(!p.board.side_to_move());
    Counts {
        pawns: (them & p.board.pieces(chess::Piece::Pawn)).popcnt(),
        knights: (them & p.board.pieces(chess::Piece::Knight)).popcnt(),
        bishops: (them & p.board.pieces(chess::Piece::Bishop)).popcnt(),
        rooks: (them & p.board.pieces(chess::Piece::Rook)).popcnt(),
        queens: (them & p.board.pieces(chess::Piece::Queen)).popcnt(),
    }
}

/// Relies on `chess::MoveGen::new_legal` with `set_iterator_mask` over
/// the opponent's occupied squares: every legal move whose destination
/// holds an opponent piece, in generation order — the model root's
/// capture list.
#[verifier::external_body]
pub(crate) fn capture_moves(p: &Position) -> (r: Vec<chess::ChessMove>)
    ensures
        r@ == p.model().root().caps,
{
    let mut moves = chess::MoveGen::new_legal(&p.board);
    moves.set_iterator_mask(*p.board.color_combined(!p.board.side_to_move()));
    moves.collect()
}

/// Relies on `chess::MoveGen::new_legal`: every legal move for the side
/// to move, in generation order — the model root's full move list.
#[verifier::external_body]
pub(crate) fn legal_moves(p: &Position) -> (r: Vec<chess::ChessMove>)
    ensures
        r@ == p.model().root().all,
{
    let moves = chess::MoveGen::new_legal(&p.board);
    moves.collect()
}

} // verus!
