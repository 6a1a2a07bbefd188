//! A verified tic-tac-toe engine: board state machine with reversible
//! moves, win/draw detection, player strategies (random, greedy one-ply,
//! full minimax), and the turn-based game loop.

pub mod board;
pub mod game;
pub mod players;
pub mod search;
