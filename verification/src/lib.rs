//! Verified core of a discretized racetrack planner: a rectangular grid with
//! walls and a goal region, a velocity-augmented state space, a supercover
//! trajectory model, and a value-iteration solver with greedy path extraction.

pub mod actions;
pub mod display;
pub mod game_space;
pub mod opt;
pub mod predicates;
pub mod states;
pub mod trajectory;
pub mod value;

pub use actions::Action;
pub use actions::ActionSpace;
pub use game_space::ConfigError;
pub use game_space::GameBoard;
pub use game_space::Grid;
pub use game_space::Token;
pub use opt::Optimization;
pub use predicates::CellPredicate;
pub use predicates::GridPredicate;
pub use predicates::Mask;
pub use predicates::SingletonPredicate;
pub use states::CarState;
pub use states::StateSpace;
pub use value::Val;
