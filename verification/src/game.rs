use vstd::prelude::*;

use crate::board::{Board, is_full_spec, is_win_spec, lemma_empty_count_to_bounds};
use crate::players::Player;
use crate::search::terminal_spec;

verus! {

/// The observable states of the game loop.
#[derive(PartialEq, Eq, Structural, Clone, Copy, Debug)]
pub enum GameState {
    InProgress,
    Won(i8),
    Draw,
}

/// Placing a mark for one side cannot complete a line for the other: a
/// winning line for `q` would have to avoid the changed cell, so it was
/// already complete before.
pub proof fn lemma_win_other_unchanged(s: Seq<i8>, c: int, v: i8, q: i8)
    requires
        s.len() == 9,
        0 <= c < 9,
        v != q,
        !is_win_spec(s, q),
    ensures
        !is_win_spec(s.update(c, v), q),
{
}

/// Run the game to its end: strict ping-pong between the two strategies,
/// side 0 first whenever the board is fresh, each turn followed by the
/// win check for the side that just moved and then the draw check. A won
/// game reports the winning side's completed line; a draw reports a full
/// board that neither side has won, after all 9 moves.
pub fn play_game(board: &mut Board, p0: &Player, p1: &Player) -> (r: GameState)
    requires
        old(board).wf(),
        !terminal_spec(old(board).state@),
    ensures
        final(board).wf(),
        r != GameState::InProgress,
        r matches GameState::Won(w) ==> (w == 0 || w == 1) && is_win_spec(final(board).state@, w),
        r == GameState::Draw ==> is_full_spec(final(board).state@) && !is_win_spec(
            final(board).state@,
            0,
        ) && !is_win_spec(final(board).state@, 1) && final(board).counter == 9,
{
    loop
        invariant
            board.wf(),
            !terminal_spec(board.state@),
        decreases 9 - board.counter,
    {
        let ghost pre = board.state@;
        let side: i8 = if board.counter % 2 == 0 {
            0
        } else {
            1
        };
        let ghost other: i8 = if side == 0 {
            1i8
        } else {
            0i8
        };
        let mv = if side == 0 {
            p0.play(board)
        } else {
            p1.play(board)
        };
        proof {
            lemma_win_other_unchanged(pre, mv as int, side, other);
        }
        if board.is_win(&side) {
            return GameState::Won(side);
        }
        if board.is_end() {
            proof {
                lemma_empty_count_to_bounds(board.state@, 9);
            }
            return GameState::Draw;
        }
    }
}

} // verus!
