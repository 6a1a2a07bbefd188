use vstd::prelude::*;

use crate::board::{
    Board, is_full_spec, is_line, is_win_spec, lemma_move_unmove_round_trip, moves_of,
};
use crate::search::{lemma_search_props, minimax, mover_of, search_from, terminal_spec};
use rand::seq::SliceRandom;

verus! {

/// Move `m` is legal on `s` and, once the mover's mark lands there, the
/// position is a win for side `p`.
pub open spec fn wins_at(s: Seq<i8>, m: int, p: i8) -> bool {
    0 <= m < 9 && s[m] == -1 && is_win_spec(s.update(m, mover_of(s)), p)
}

/// An immediate win stands wherever the side to move holds two cells of
/// a winning line whose third cell is empty: completing the line is then
/// a winning move, so the greedy player, which takes the least winning
/// move whenever one exists, wins on the spot.
pub proof fn lemma_two_in_line_gives_win(s: Seq<i8>, a: int, b: int, c: int, p: i8)
    requires
        s.len() == 9,
        is_line(a, b, c),
        s[a] == p,
        s[b] == p,
        s[c] == -1,
        mover_of(s) == p,
    ensures
        wins_at(s, c, p),
{
}

/// Relies on rand's `SliceRandom::choose` with `thread_rng`: on a
/// non-empty slice it returns `Some` of a uniformly random element.
#[verifier::external_body]
fn choose_move(moves: &Vec<i8>) -> (r: i8)
    requires
        moves@.len() > 0,
    ensures
        moves@.contains(r),
{
    let mut rng = rand::thread_rng();
    *moves.choose(&mut rng).unwrap()
}

/// Plays a uniformly random legal move.
pub struct RandomPlayer;

impl RandomPlayer {
    /// Pick uniformly at random among the legal moves, apply it, and
    /// report the chosen cell.
    pub fn play(&self, board: &mut Board) -> (mv: i8)
        requires
            old(board).wf(),
            !is_full_spec(old(board).state@),
        ensures
            final(board).wf(),
            0 <= mv < 9,
            old(board).state@[mv as int] == -1,
            final(board).state@ == old(board).state@.update(mv as int, old(board).mover()),
            final(board).counter == old(board).counter + 1,
    {
        let moves = board.valid_moves();
        proof {
            let i = choose|i: int| 0 <= i < 9 && board.state@[i] == -1;
            assert(exists|j: int| 0 <= j < moves@.len() && moves@[j] == i);
        }
        let idx = choose_move(&moves);
        proof {
            let j = choose|j: int| 0 <= j < moves@.len() && moves@[j] == idx;
            assert(0 <= moves@[j] < 9);
        }
        board.apply_move(idx as usize);
        idx
    }
}

/// One-ply lookahead: takes an immediate win for its configured side when
/// one exists, otherwise plays at random. It does not block the opponent.
pub struct BetterPlayer {
    pub player: i8,
}

impl BetterPlayer {
    pub fn new(player: i8) -> (p: BetterPlayer)
        ensures
            p.player == player,
    {
        BetterPlayer { player }
    }

    /// Try every legal move in ascending order; keep the first one that
    /// wins immediately for this player's side, else undo it. With no
    /// immediate win, fall back to a uniformly random legal move.
    pub fn play(&self, board: &mut Board) -> (mv: i8)
        requires
            old(board).wf(),
            !is_full_spec(old(board).state@),
        ensures
            final(board).wf(),
            0 <= mv < 9,
            old(board).state@[mv as int] == -1,
            final(board).state@ == old(board).state@.update(mv as int, old(board).mover()),
            final(board).counter == old(board).counter + 1,
            (exists|m: int| wins_at(old(board).state@, m, self.player)) ==> wins_at(
                old(board).state@,
                mv as int,
                self.player,
            ) && (forall|m: int| 0 <= m < mv ==> !wins_at(old(board).state@, m, self.player)),
    {
        let ghost s0 = board.state@;
        let ghost c0 = board.counter;
        let moves = board.valid_moves();

        let mut k: usize = 0;
        while k < moves.len()
            invariant
                board.wf(),
                board.state@ == s0,
                board.counter == c0,
                old(board).state@ == s0,
                old(board).counter == c0,
                s0.len() == 9,
                moves_of(s0, moves@),
                k <= moves@.len(),
                forall|j: int| 0 <= j < k ==> !wins_at(s0, moves@[j] as int, self.player),
            decreases moves@.len() - k,
        {
            let idx = moves[k];
            proof {
                assert(moves@[k as int] == idx && 0 <= idx < 9 && s0[idx as int] == -1);
            }
            board.apply_move(idx as usize);
            if board.is_win(&self.player) {
                proof {
                    assert(wins_at(s0, idx as int, self.player));
                    assert forall|m: int| 0 <= m < idx implies !wins_at(s0, m, self.player) by {
                        if s0[m] == -1 {
                            let jj = choose|jj: int|
                                0 <= jj < moves@.len() && moves@[jj] == m;
                            assert(jj != k);
                            if jj > k {
                                assert(moves@[k as int] < moves@[jj]);
                            }
                            assert(!wins_at(s0, moves@[jj] as int, self.player));
                        }
                    }
                }
                return idx;
            }
            board.unmove(idx as usize);
            proof {
                lemma_move_unmove_round_trip(s0, idx as int, mover_of(s0));
            }
            k = k + 1;
        }

        proof {
            assert forall|m: int| 0 <= m < 9 implies !wins_at(s0, m, self.player) by {
                if s0[m] == -1 {
                    let jj = choose|jj: int| 0 <= jj < moves@.len() && moves@[jj] == m;
                    assert(!wins_at(s0, moves@[jj] as int, self.player));
                }
            }
            let i = choose|i: int| 0 <= i < 9 && board.state@[i] == -1;
            assert(exists|j: int| 0 <= j < moves@.len() && moves@[j] == i);
        }
        let idx = choose_move(&moves);
        proof {
            let j = choose|j: int| 0 <= j < moves@.len() && moves@[j] == idx;
            assert(0 <= moves@[j] < 9);
        }
        board.apply_move(idx as usize);
        idx
    }
}

/// Full game-tree search: plays the lowest-index optimal move for its
/// configured side.
pub struct BestPlayer {
    pub player: i8,
}

impl BestPlayer {
    pub fn new(player: i8) -> (p: BestPlayer)
        ensures
            p.player == player,
    {
        BestPlayer { player }
    }

    /// Run minimax from the current position and apply the move it
    /// returns, reporting the chosen cell.
    pub fn play(&self, board: &mut Board) -> (mv: i8)
        requires
            old(board).wf(),
            !terminal_spec(old(board).state@),
        ensures
            final(board).wf(),
            0 <= mv < 9,
            old(board).state@[mv as int] == -1,
            Some(mv) == search_from(old(board).state@, self.player, 0).1,
            final(board).state@ == old(board).state@.update(mv as int, old(board).mover()),
            final(board).counter == old(board).counter + 1,
    {
        let (_score, idx_opt) = minimax(board, &self.player);
        proof {
            lemma_search_props(board.state@, self.player, 0);
        }
        let idx = idx_opt.unwrap();
        board.apply_move(idx as usize);
        idx
    }
}

/// A computer strategy; each variant produces and applies one move. The
/// interactive human strategy stands apart, since it is driven by input.
pub enum Player {
    Random(RandomPlayer),
    Better(BetterPlayer),
    Best(BestPlayer),
}

impl Player {
    /// Let the strategy choose and apply one move, reporting the chosen
    /// cell. Every strategy fills exactly one empty cell with the mover's
    /// mark; the greedy and minimax variants keep their stronger promises.
    pub fn play(&self, board: &mut Board) -> (mv: i8)
        requires
            old(board).wf(),
            !terminal_spec(old(board).state@),
        ensures
            final(board).wf(),
            0 <= mv < 9,
            old(board).state@[mv as int] == -1,
            final(board).state@ == old(board).state@.update(mv as int, old(board).mover()),
            final(board).counter == old(board).counter + 1,
            self matches Player::Best(best) ==> Some(mv) == search_from(
                old(board).state@,
                best.player,
                0,
            ).1,
            self matches Player::Better(b) ==> ((exists|m: int|
                wins_at(old(board).state@, m, b.player)) ==> wins_at(
                old(board).state@,
                mv as int,
                b.player,
            )),
    {
        match self {
            Player::Random(random) => random.play(board),
            Player::Better(better) => better.play(board),
            Player::Best(best) => best.play(board),
        }
    }
}

/// Outcome of one attempt by the interactive player.
#[derive(PartialEq, Eq, Structural, Clone, Copy, Debug)]
pub enum HumanMoveOutcome {
    /// The input did not parse as a number.
    BadInput,
    /// The number lies outside 0..=8.
    OutOfRange,
    /// The chosen cell is already occupied.
    Occupied,
    /// The move was applied.
    Placed,
}

/// The interactive strategy's decision core: its blocking prompt loop
/// lives with the I/O and feeds each parsed line through `try_move` until
/// a move is placed.
pub struct HumanPlayer;

impl HumanPlayer {
    /// Decide what one line of input does to the board: reject what did
    /// not parse (`None`), what lies outside the cells, and what hits an
    /// occupied cell, leaving the board unchanged; apply the move
    /// otherwise.
    pub fn try_move(&self, board: &mut Board, input: Option<i8>) -> (r: HumanMoveOutcome)
        requires
            old(board).wf(),
        ensures
            final(board).wf(),
            input is None ==> r == HumanMoveOutcome::BadInput,
            input matches Some(v) && !(0 <= v <= 8) ==> r == HumanMoveOutcome::OutOfRange,
            input matches Some(v) && 0 <= v <= 8 && old(board).state@[v as int] != -1 ==> r
                == HumanMoveOutcome::Occupied,
            input matches Some(v) ==> (0 <= v <= 8 && old(board).state@[v as int] == -1 ==> r
                == HumanMoveOutcome::Placed && final(board).state@ == old(board).state@.update(
                v as int,
                old(board).mover(),
            ) && final(board).counter == old(board).counter + 1),
            r != HumanMoveOutcome::Placed ==> final(board).state@ == old(board).state@
                && final(board).counter == old(board).counter,
    {
        match input {
            Option::None => HumanMoveOutcome::BadInput,
            Option::Some(v) => {
                if v < 0 || v > 8 {
                    HumanMoveOutcome::OutOfRange
                } else {
                    if board.apply_move(v as usize) {
                        HumanMoveOutcome::Placed
                    } else {
                        HumanMoveOutcome::Occupied
                    }
                }
            },
        }
    }
}

} // verus!
