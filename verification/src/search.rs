use vstd::prelude::*;

use crate::board::{
    Board, empty_count, is_full_spec, is_win_spec, lemma_empty_count_to_bounds,
    lemma_empty_count_update, lemma_move_unmove_round_trip, moves_of,
};

verus! {

/// The other side.
pub open spec fn opponent(p: i8) -> i8 {
    if p == 0 {
        1
    } else {
        0
    }
}

/// The side to move on `s`: side 0 opens, sides alternate, so the mover is
/// the parity of the number of occupied cells.
pub open spec fn mover_of(s: Seq<i8>) -> i8 {
    (((9 - empty_count(s)) % 2) as i8)
}

/// A position where the game is over: a win for either side, or a full board.
pub open spec fn terminal_spec(s: Seq<i8>) -> bool {
    is_win_spec(s, 0) || is_win_spec(s, 1) || is_full_spec(s)
}

/// The score a scan starts from, beaten by every real score: below -1 for
/// the maximizing side 0, above 1 for the minimizing side 1.
pub open spec fn worst_for(p: i8) -> int {
    if p == 0 {
        -2int
    } else {
        2int
    }
}

/// The game-theoretic value of position `s` with `p` to choose: +1 for a
/// side-0 win, -1 for a side-1 win, 0 for a draw, under optimal play where
/// side 0 maximizes and side 1 minimizes.
pub open spec fn board_value(s: Seq<i8>, p: i8) -> int
    decreases empty_count(s), 1int, 0int,
{
    if is_win_spec(s, 0) {
        1
    } else if is_win_spec(s, 1) {
        -1
    } else if is_full_spec(s) {
        0
    } else {
        search_from(s, p, 0).0
    }
}

/// Scan the cells `idx..9`: the best score for `p` over the empty cells,
/// and the lowest-index empty cell achieving it (ties go to the lower
/// index, as the strict comparisons of the forward scan break them).
pub open spec fn search_from(s: Seq<i8>, p: i8, idx: int) -> (int, Option<i8>)
    decreases empty_count(s), 0int, 9 - idx,
    when s.len() == 9 && 0 <= idx
    via search_from_decreases
{
    if idx >= 9 {
        (worst_for(p), None::<i8>)
    } else if s[idx] != -1 {
        search_from(s, p, idx + 1)
    } else {
        let sc = board_value(s.update(idx, mover_of(s)), opponent(p));
        let rest = search_from(s, p, idx + 1);
        if p == 0 {
            if sc >= rest.0 {
                (sc, Some(idx as i8))
            } else {
                rest
            }
        } else {
            if sc <= rest.0 {
                (sc, Some(idx as i8))
            } else {
                rest
            }
        }
    }
}

#[via_fn]
proof fn search_from_decreases(s: Seq<i8>, p: i8, idx: int) {
    if s.len() == 9 && 0 <= idx < 9 && s[idx] == -1 {
        lemma_empty_count_to_bounds(s, 9);
        lemma_empty_count_update(s, idx, mover_of(s));
        lemma_empty_count_to_bounds(s.update(idx, mover_of(s)), 9);
    }
}

/// A scan skips occupied cells: if every cell in `[a, b)` is occupied, the
/// scan from `a` equals the scan from `b`.
pub proof fn lemma_search_skip(s: Seq<i8>, p: i8, a: int, b: int)
    requires
        s.len() == 9,
        0 <= a <= b <= 9,
        forall|k: int| a <= k < b ==> s[k] != -1,
    ensures
        search_from(s, p, a) == search_from(s, p, b),
    decreases b - a,
{
    if a < b {
        lemma_search_skip(s, p, a + 1, b);
    }
}

/// The scan returns a move exactly when an empty cell remains in its
/// range; a returned move is an empty cell in the range, and its score is
/// a real game value, between -1 and 1.
pub proof fn lemma_search_props(s: Seq<i8>, p: i8, idx: int)
    requires
        s.len() == 9,
        0 <= idx <= 9,
    ensures
        (search_from(s, p, idx).1 is None) <==> (forall|k: int| idx <= k < 9 ==> s[k] != -1),
        search_from(s, p, idx).1 is None ==> search_from(s, p, idx).0 == worst_for(p),
        search_from(s, p, idx).1 matches Some(m) ==> idx <= m < 9 && s[m as int] == -1 && -1
            <= search_from(s, p, idx).0 <= 1,
        search_from(s, p, idx).1 matches Some(m) ==> board_value(
            s.update(m as int, mover_of(s)),
            opponent(p),
        ) == search_from(s, p, idx).0,
    decreases empty_count(s), 0int, 9 - idx,
{
    if idx < 9 {
        lemma_search_props(s, p, idx + 1);
        if s[idx] == -1 {
            lemma_empty_count_to_bounds(s, 9);
            lemma_empty_count_update(s, idx, mover_of(s));
            lemma_empty_count_to_bounds(s.update(idx, mover_of(s)), 9);
            lemma_value_bounds(s.update(idx, mover_of(s)), opponent(p));
        }
    }
}

/// Every game value lies between -1 (side-1 win) and +1 (side-0 win).
pub proof fn lemma_value_bounds(s: Seq<i8>, p: i8)
    requires
        s.len() == 9,
    ensures
        -1 <= board_value(s, p) <= 1,
    decreases empty_count(s), 1int, 0int,
{
    if !terminal_spec(s) {
        lemma_search_props(s, p, 0);
    }
}

/// No legal move in the scanned range beats the scanned score: for the
/// maximizing side 0 no child position is worth more, for the minimizing
/// side 1 none is worth less.
pub proof fn lemma_search_optimal(s: Seq<i8>, p: i8, idx: int, m: int)
    requires
        s.len() == 9,
        0 <= idx <= 9,
        idx <= m < 9,
        s[m] == -1,
    ensures
        p == 0 ==> board_value(s.update(m, mover_of(s)), opponent(p)) <= search_from(s, p, idx).0,
        p != 0 ==> board_value(s.update(m, mover_of(s)), opponent(p)) >= search_from(s, p, idx).0,
    decreases 9 - idx,
{
    if idx < m {
        lemma_search_optimal(s, p, idx + 1, m);
    }
}

/// What minimax plays is optimal: a move exists on every non-terminal
/// position; it is legal; the position it leaves is worth exactly the
/// present position's game value; and no other legal move leaves a
/// position worth more (for the maximizing side 0) or less (for the
/// minimizing side 1). In particular the mover never hands the opponent
/// a better game than the one it was dealt.
pub proof fn lemma_minimax_move_optimal(s: Seq<i8>, p: i8)
    requires
        s.len() == 9,
        !terminal_spec(s),
    ensures
        search_from(s, p, 0).1 is Some,
        search_from(s, p, 0).1 matches Some(m) ==> 0 <= m < 9 && s[m as int] == -1,
        search_from(s, p, 0).1 matches Some(m) ==> board_value(
            s.update(m as int, mover_of(s)),
            opponent(p),
        ) == board_value(s, p),
        forall|m2: int|
            0 <= m2 < 9 && s[m2] == -1 && p == 0 ==> board_value(
                s.update(m2, mover_of(s)),
                opponent(p),
            ) <= board_value(s, p),
        forall|m2: int|
            0 <= m2 < 9 && s[m2] == -1 && p != 0 ==> board_value(
                s.update(m2, mover_of(s)),
                opponent(p),
            ) >= board_value(s, p),
{
    lemma_search_props(s, p, 0);
    assert forall|m2: int| 0 <= m2 < 9 && s[m2] == -1 implies (if p == 0 {
        board_value(s.update(m2, mover_of(s)), opponent(p)) <= search_from(s, p, 0).0
    } else {
        board_value(s.update(m2, mover_of(s)), opponent(p)) >= search_from(s, p, 0).0
    }) by {
        lemma_search_optimal(s, p, 0, m2);
    }
}

/// The next cell a forward scan over `moves` would look at: the `j`-th
/// listed move, or 9 once the list is exhausted.
pub open spec fn cursor(moves: Seq<i8>, j: int) -> int {
    if j < moves.len() {
        moves[j] as int
    } else {
        9
    }
}

/// Fold of a forward scan: the running best stands unless the remainder
/// strictly beats it, so ties go to the earlier (lower-index) move.
pub open spec fn combine(p: i8, acc: (int, Option<i8>), rest: (int, Option<i8>)) -> (
    int,
    Option<i8>,
) {
    if acc.1 is Some && (if p == 0 {
        acc.0 >= rest.0
    } else {
        acc.0 <= rest.0
    }) {
        acc
    } else {
        rest
    }
}

/// Cells strictly between two consecutive listed moves (or before the
/// first) are occupied.
proof fn lemma_cursor_gap(s: Seq<i8>, moves: Seq<i8>, j: int, k: int)
    requires
        moves_of(s, moves),
        0 <= j <= moves.len(),
        j == 0 ==> 0 <= k < cursor(moves, 0),
        j > 0 ==> moves[j - 1] < k < cursor(moves, j),
        0 <= k < 9,
    ensures
        s[k] != -1,
{
    if s[k] == -1 {
        let jw = choose|jw: int| 0 <= jw < moves.len() && moves[jw] == k;
        if jw < j {
            assert(jw <= j - 1);
            assert(jw < j - 1 ==> moves[jw] < moves[j - 1]);
            assert(false);
        } else {
            assert(j <= jw < moves.len());
            assert(j < moves.len());
            assert(j < jw ==> moves[j] < moves[jw]);
            assert(false);
        }
    }
}

/// Jumping the scan from just past one listed move to the next listed
/// move (or from cell 0 to the first) changes nothing.
proof fn lemma_search_to_cursor(s: Seq<i8>, moves: Seq<i8>, p: i8, j: int)
    requires
        s.len() == 9,
        moves_of(s, moves),
        0 <= j <= moves.len(),
    ensures
        j == 0 ==> search_from(s, p, 0) == search_from(s, p, cursor(moves, 0)),
        j > 0 ==> search_from(s, p, moves[j - 1] + 1) == search_from(s, p, cursor(moves, j)),
{
    if j == 0 {
        assert forall|k: int| 0 <= k < cursor(moves, 0) implies s[k] != -1 by {
            lemma_cursor_gap(s, moves, 0, k);
        }
        lemma_search_skip(s, p, 0, cursor(moves, 0));
    } else {
        assert forall|k: int| moves[j - 1] + 1 <= k < cursor(moves, j) implies s[k] != -1 by {
            lemma_cursor_gap(s, moves, j, k);
        }
        lemma_search_skip(s, p, moves[j - 1] + 1, cursor(moves, j));
    }
}

/// Exhaustive game-tree search by backtracking on the shared board: the
/// returned score is the game value of the position for `player` to move,
/// and the returned move, present exactly on non-terminal positions, is
/// the lowest-index optimal move. The board comes back unchanged.
pub fn minimax(board: &mut Board, player: &i8) -> (r: (i32, Option<i8>))
    requires
        old(board).wf(),
    ensures
        final(board).wf(),
        final(board).state@ == old(board).state@,
        final(board).counter == old(board).counter,
        r.0 as int == board_value(old(board).state@, *player),
        terminal_spec(old(board).state@) ==> r.1 is None,
        !terminal_spec(old(board).state@) ==> r.1 == search_from(old(board).state@, *player, 0).1,
    decreases 9 - old(board).counter,
{
    let maximize_player: i8 = 0;
    let minimize_player: i8 = 1;
    if board.is_win(&maximize_player) {
        return (1, None);
    }
    if board.is_win(&minimize_player) {
        return (-1, None);
    }
    if board.is_end() {
        return (0, None);
    }
    let opp: i8 = if *player == maximize_player {
        1
    } else {
        0
    };
    let ghost s0 = board.state@;
    let ghost c0 = board.counter;
    let moves = board.valid_moves();

    if *player == maximize_player {
        let mut max_score: i32 = -2;
        let mut max_idx: Option<i8> = None;
        let mut j: usize = 0;
        proof {
            lemma_search_to_cursor(s0, moves@, *player, 0);
        }
        while j < moves.len()
            invariant
                board.wf(),
                board.state@ == s0,
                board.counter == c0,
                old(board).state@ == s0,
                old(board).counter == c0,
                *player == 0,
                opp == 1,
                s0.len() == 9,
                !terminal_spec(s0),
                moves_of(s0, moves@),
                moves@.len() + c0 == 9,
                j <= moves@.len(),
                combine(*player, (max_score as int, max_idx), search_from(s0, *player, cursor(moves@, j as int)))
                    == search_from(s0, *player, 0),
                max_idx is None ==> max_score == -2,
                max_idx is Some ==> -1 <= max_score <= 1,
            decreases moves@.len() - j,
        {
            let idx = moves[j];
            let ghost c = idx as int;
            proof {
                assert(moves@[j as int] == idx);
                assert(0 <= c < 9 && s0[c] == -1);
            }
            board.apply_move(idx as usize);
            let (score, _next_idx) = minimax(board, &opp);
            proof {
                lemma_value_bounds(s0.update(c, mover_of(s0)), opp);
                lemma_search_to_cursor(s0, moves@, *player, j as int + 1);
            }
            if max_score < score {
                max_score = score;
                max_idx = Some(idx);
            }
            board.unmove(idx as usize);
            proof {
                lemma_move_unmove_round_trip(s0, c, mover_of(s0));
            }
            j = j + 1;
        }
        proof {
            if max_idx is None {
                lemma_search_props(s0, *player, 0);
                assert(false);
            }
        }
        (max_score, max_idx)
    } else {
        let mut min_score: i32 = 2;
        let mut min_idx: Option<i8> = None;
        let mut j: usize = 0;
        proof {
            lemma_search_to_cursor(s0, moves@, *player, 0);
        }
        while j < moves.len()
            invariant
                board.wf(),
                board.state@ == s0,
                board.counter == c0,
                old(board).state@ == s0,
                old(board).counter == c0,
                *player != 0,
                opp == 0,
                s0.len() == 9,
                !terminal_spec(s0),
                moves_of(s0, moves@),
                moves@.len() + c0 == 9,
                j <= moves@.len(),
                combine(*player, (min_score as int, min_idx), search_from(s0, *player, cursor(moves@, j as int)))
                    == search_from(s0, *player, 0),
                min_idx is None ==> min_score == 2,
                min_idx is Some ==> -1 <= min_score <= 1,
            decreases moves@.len() - j,
        {
            let idx = moves[j];
            let ghost c = idx as int;
            proof {
                assert(moves@[j as int] == idx);
                assert(0 <= c < 9 && s0[c] == -1);
            }
            board.apply_move(idx as usize);
            let (score, _next_idx) = minimax(board, &opp);
            proof {
                lemma_value_bounds(s0.update(c, mover_of(s0)), opp);
                lemma_search_to_cursor(s0, moves@, *player, j as int + 1);
            }
            if min_score > score {
                min_score = score;
                min_idx = Some(idx);
            }
            board.unmove(idx as usize);
            proof {
                lemma_move_unmove_round_trip(s0, c, mover_of(s0));
            }
            j = j + 1;
        }
        proof {
            if min_idx is None {
                lemma_search_props(s0, *player, 0);
                assert(false);
            }
        }
        (min_score, min_idx)
    }
}

} // verus!
