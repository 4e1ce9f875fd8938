//! A 2048 engine on a bit-packed board: sixteen cells of four bits each in one `u64`,
//! with the moves, the scores, tile spawning and the search heuristic proved against a
//! model of the board as rows and columns of tile ranks.

pub mod bits;
pub mod line;
pub mod row;
pub mod board;
pub mod counts;
pub mod spawn;
pub mod play;
pub mod heuristic;
pub mod search;
pub mod laws;
