//! A minimal two-player game-tree search over the `chess` crate's rules
//! engine: negamax with fail-hard alpha-beta pruning and a material-only
//! static evaluation, both with verified contracts.

pub mod engine;
pub mod model;
pub mod position;

pub use engine::bestmove;
pub use engine::evaluate;
pub use engine::search;
pub use model::KING;
pub use position::Position;
