//! Decision core of a bot for a two-team maze game: game states and their
//! transitions, a heuristic evaluation, a cached shortest-path oracle and a
//! depth-bounded alpha-beta search.

pub mod agent;
pub mod cache;
pub mod cells;
pub mod eval;
pub mod grid;
pub mod oracle;
pub mod search;
pub mod snapshot;
pub mod state;
