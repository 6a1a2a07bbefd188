use vstd::prelude::*;
use vstd::string::StringExecFns;

verus! {

/// A cell holds -1 (empty), 0 (side 0, glyph "X") or 1 (side 1, glyph "O").
pub open spec fn cell_ok(c: i8) -> bool {
    c == -1 || c == 0 || c == 1
}

/// Number of empty cells among the first `n` cells of `s`.
pub open spec fn empty_count_to(s: Seq<i8>, n: int) -> int
    decreases n,
{
    if n <= 0 {
        0
    } else {
        empty_count_to(s, n - 1) + (if s[n - 1] == -1 {
            1int
        } else {
            0int
        })
    }
}

/// Number of empty cells on the board.
pub open spec fn empty_count(s: Seq<i8>) -> int {
    empty_count_to(s, s.len() as int)
}

pub proof fn lemma_empty_count_to_bounds(s: Seq<i8>, n: int)
    requires
        0 <= n <= s.len(),
    ensures
        0 <= empty_count_to(s, n) <= n,
        (empty_count_to(s, n) == n) <==> (forall|i: int| 0 <= i < n ==> s[i] == -1),
        (empty_count_to(s, n) == 0) <==> (forall|i: int| 0 <= i < n ==> s[i] != -1),
    decreases n,
{
    if n > 0 {
        lemma_empty_count_to_bounds(s, n - 1);
    }
}

pub proof fn lemma_empty_count_to_update(s: Seq<i8>, n: int, idx: int, v: i8)
    requires
        0 <= idx < s.len(),
        0 <= n <= s.len(),
    ensures
        empty_count_to(s.update(idx, v), n) == empty_count_to(s, n) + (if idx < n {
            (if v == -1 {
                1int
            } else {
                0int
            }) - (if s[idx] == -1 {
                1int
            } else {
                0int
            })
        } else {
            0int
        }),
    decreases n,
{
    if n > 0 {
        lemma_empty_count_to_update(s, n - 1, idx, v);
    }
}

/// Change to the number of empty cells when one cell is overwritten.
pub proof fn lemma_empty_count_update(s: Seq<i8>, idx: int, v: i8)
    requires
        0 <= idx < s.len(),
    ensures
        empty_count(s.update(idx, v)) == empty_count(s) + (if v == -1 {
            1int
        } else {
            0int
        }) - (if s[idx] == -1 {
            1int
        } else {
            0int
        }),
{
    lemma_empty_count_to_update(s, s.len() as int, idx, v);
}

/// The three cells `a`, `b`, `c` are all marked by `p`.
pub open spec fn line_win(s: Seq<i8>, a: int, b: int, c: int, p: i8) -> bool {
    s[a] == p && s[b] == p && s[c] == p
}

/// One of the 8 winning triples: 3 rows, 3 columns, 2 diagonals.
pub open spec fn is_line(a: int, b: int, c: int) -> bool {
    ||| (a == 0 && b == 1 && c == 2)
    ||| (a == 3 && b == 4 && c == 5)
    ||| (a == 6 && b == 7 && c == 8)
    ||| (a == 0 && b == 3 && c == 6)
    ||| (a == 1 && b == 4 && c == 7)
    ||| (a == 2 && b == 5 && c == 8)
    ||| (a == 0 && b == 4 && c == 8)
    ||| (a == 2 && b == 4 && c == 6)
}

/// Side `p` has fully occupied one of the 8 winning lines.
pub open spec fn is_win_spec(s: Seq<i8>, p: i8) -> bool {
    ||| line_win(s, 0, 1, 2, p)
    ||| line_win(s, 3, 4, 5, p)
    ||| line_win(s, 6, 7, 8, p)
    ||| line_win(s, 0, 3, 6, p)
    ||| line_win(s, 1, 4, 7, p)
    ||| line_win(s, 2, 5, 8, p)
    ||| line_win(s, 0, 4, 8, p)
    ||| line_win(s, 2, 4, 6, p)
}

/// No empty cell remains.
pub open spec fn is_full_spec(s: Seq<i8>) -> bool {
    forall|i: int| 0 <= i < 9 ==> s[i] != -1
}

/// `moves` lists exactly the empty cells of `s`, in ascending order.
pub open spec fn moves_of(s: Seq<i8>, moves: Seq<i8>) -> bool {
    &&& (forall|j: int|
        0 <= j < moves.len() ==> 0 <= #[trigger] moves[j] < 9 && s[moves[j] as int] == -1)
    &&& (forall|j1: int, j2: int| 0 <= j1 < j2 < moves.len() ==> moves[j1] < moves[j2])
    &&& (forall|c: int|
        0 <= c < 9 && #[trigger] s[c] == -1 ==> exists|j: int|
            0 <= j < moves.len() && moves[j] == c)
}

/// The 9-cell board with the move counter that also decides whose turn it
/// is: side `counter % 2` moves next.
pub struct Board {
    pub state: Vec<i8>,
    pub counter: u32,
}

impl Board {
    /// Well-formedness: 9 cells, each empty or marked by a side, and the
    /// counter equals the number of occupied cells.
    pub open spec fn wf(self) -> bool {
        &&& self.state@.len() == 9
        &&& (forall|i: int| 0 <= i < 9 ==> cell_ok(#[trigger] self.state@[i]))
        &&& self.counter + empty_count(self.state@) == 9
        &&& self.counter <= 9
    }

    /// The side to move: alternates starting from side 0.
    pub open spec fn mover(self) -> i8 {
        (self.counter % 2) as i8
    }

    pub fn new() -> (b: Board)
        ensures
            b.wf(),
            b.counter == 0,
            forall|i: int| 0 <= i < 9 ==> b.state@[i] == -1,
    {
        let mut state: Vec<i8> = Vec::new();
        let mut i: usize = 0;
        while i < 9
            invariant
                i <= 9,
                state@.len() == i,
                forall|j: int| 0 <= j < i ==> state@[j] == -1,
            decreases 9 - i,
        {
            state.push(-1);
            i = i + 1;
        }
        proof {
            lemma_empty_count_to_bounds(state@, 9);
        }
        Board { state, counter: 0 }
    }

    /// Place the mover's mark at `idx` if that cell is empty and report
    /// whether the move was accepted; a rejected move leaves the board
    /// unchanged so that the caller can retry.
    pub fn apply_move(&mut self, idx: usize) -> (ok: bool)
        requires
            old(self).wf(),
            idx < 9,
        ensures
            final(self).wf(),
            ok == (old(self).state@[idx as int] == -1),
            !ok ==> final(self).state@ == old(self).state@ && final(self).counter == old(
                self,
            ).counter,
            ok ==> final(self).state@ == old(self).state@.update(idx as int, old(self).mover())
                && final(self).counter == old(self).counter + 1,
    {
        if self.state[idx] != -1 {
            return false;
        }
        proof {
            lemma_empty_count_to_bounds(self.state@, 9);
            lemma_empty_count_update(self.state@, idx as int, (self.counter % 2) as i8);
        }
        let player: i8 = (self.counter % 2) as i8;
        self.state.set(idx, player);
        self.counter = self.counter + 1;
        true
    }

    /// Revert a move: empty the cell at `idx` and decrement the counter.
    /// Only sound immediately after a successful `apply_move` of the same
    /// cell; the precondition keeps misuse out.
    pub fn unmove(&mut self, idx: usize)
        requires
            old(self).wf(),
            idx < 9,
            old(self).state@[idx as int] != -1,
        ensures
            final(self).wf(),
            final(self).state@ == old(self).state@.update(idx as int, -1i8),
            final(self).counter == old(self).counter - 1,
    {
        proof {
            lemma_empty_count_to_bounds(self.state@, 9);
            lemma_empty_count_update(self.state@, idx as int, -1i8);
        }
        self.state.set(idx, -1);
        self.counter = self.counter - 1;
    }

    /// True iff `player` has fully occupied one of the 8 winning lines.
    pub fn is_win(&self, player: &i8) -> (r: bool)
        requires
            self.wf(),
        ensures
            r == is_win_spec(self.state@, *player),
    {
        let s = &self.state;
        (s[0] == s[1] && s[1] == s[2] && s[2] == *player) || (s[3] == s[4] && s[4] == s[5] && s[5]
            == *player) || (s[6] == s[7] && s[7] == s[8] && s[8] == *player) || (s[0] == s[3] && s[3]
            == s[6] && s[6] == *player) || (s[1] == s[4] && s[4] == s[7] && s[7] == *player) || (s[2]
            == s[5] && s[5] == s[8] && s[8] == *player) || (s[0] == s[4] && s[4] == s[8] && s[8]
            == *player) || (s[2] == s[4] && s[4] == s[6] && s[6] == *player)
    }

    /// True iff the board is full (the draw condition once no win holds).
    pub fn is_end(&self) -> (r: bool)
        requires
            self.wf(),
        ensures
            r == is_full_spec(self.state@),
    {
        let mut i: usize = 0;
        while i < 9
            invariant
                self.wf(),
                i <= 9,
                forall|j: int| 0 <= j < i ==> self.state@[j] != -1,
            decreases 9 - i,
        {
            if self.state[i] == -1 {
                return false;
            }
            i = i + 1;
        }
        true
    }

    /// The empty cell indices in ascending order. Together with `wf`, the
    /// length clause states the invariant that the number of legal moves
    /// plus the move counter is always 9.
    pub fn valid_moves(&self) -> (moves: Vec<i8>)
        requires
            self.wf(),
        ensures
            moves@.len() + self.counter == 9,
            moves_of(self.state@, moves@),
    {
        let mut moves: Vec<i8> = Vec::new();
        let mut i: usize = 0;
        while i < 9
            invariant
                self.wf(),
                i <= 9,
                moves@.len() == empty_count_to(self.state@, i as int),
                forall|j: int|
                    0 <= j < moves@.len() ==> 0 <= #[trigger] moves@[j] < i && self.state@[moves@[j] as int]
                        == -1,
                forall|j1: int, j2: int| 0 <= j1 < j2 < moves@.len() ==> moves@[j1] < moves@[j2],
                forall|c: int|
                    0 <= c < i && #[trigger] self.state@[c] == -1 ==> exists|j: int|
                        0 <= j < moves@.len() && moves@[j] == c,
            decreases 9 - i,
        {
            if self.state[i] == -1 {
                let ghost pre = moves@;
                moves.push(i as i8);
                proof {
                    assert forall|c: int|
                        0 <= c < i + 1 && #[trigger] self.state@[c] == -1 implies exists|j: int|
                        0 <= j < moves@.len() && moves@[j] == c by {
                        if c == i as int {
                            assert(moves@[pre.len() as int] == i as i8);
                        } else {
                            let j = choose|j: int| 0 <= j < pre.len() && pre[j] == c;
                            assert(moves@[j] == c);
                        }
                    }
                }
            }
            i = i + 1;
        }
        moves
    }
}

/// The decimal digit for a cell index.
pub open spec fn digit_char(idx: int) -> char {
    if idx == 0 {
        '0'
    } else if idx == 1 {
        '1'
    } else if idx == 2 {
        '2'
    } else if idx == 3 {
        '3'
    } else if idx == 4 {
        '4'
    } else if idx == 5 {
        '5'
    } else if idx == 6 {
        '6'
    } else if idx == 7 {
        '7'
    } else {
        '8'
    }
}

/// The glyph a cell displays: the occupying side's mark, or the cell's
/// own index while it is empty.
pub open spec fn glyph_spec(c: i8, idx: int) -> char {
    if c == 0 {
        'X'
    } else if c == 1 {
        'O'
    } else {
        digit_char(idx)
    }
}

/// The fixed 3x3 template: three cells to a row separated by bars, rows
/// separated by a line of five dashes.
pub open spec fn render_spec(s: Seq<i8>) -> Seq<char> {
    seq![
        glyph_spec(s[0], 0),
        '|',
        glyph_spec(s[1], 1),
        '|',
        glyph_spec(s[2], 2),
        '\n',
        '-',
        '-',
        '-',
        '-',
        '-',
        '\n',
        glyph_spec(s[3], 3),
        '|',
        glyph_spec(s[4], 4),
        '|',
        glyph_spec(s[5], 5),
        '\n',
        '-',
        '-',
        '-',
        '-',
        '-',
        '\n',
        glyph_spec(s[6], 6),
        '|',
        glyph_spec(s[7], 7),
        '|',
        glyph_spec(s[8], 8),
    ]
}

/// The one-character text of a cell's glyph.
fn glyph_str(c: i8, idx: usize) -> (r: &'static str)
    requires
        idx < 9,
    ensures
        r@ =~= seq![glyph_spec(c, idx as int)],
{
    proof {
        reveal_strlit("X");
        reveal_strlit("O");
        reveal_strlit("0");
        reveal_strlit("1");
        reveal_strlit("2");
        reveal_strlit("3");
        reveal_strlit("4");
        reveal_strlit("5");
        reveal_strlit("6");
        reveal_strlit("7");
        reveal_strlit("8");
    }
    if c == 0 {
        "X"
    } else if c == 1 {
        "O"
    } else {
        match idx {
            0 => "0",
            1 => "1",
            2 => "2",
            3 => "3",
            4 => "4",
            5 => "5",
            6 => "6",
            7 => "7",
            _ => "8",
        }
    }
}

impl Board {
    /// The board as display text, following the fixed template exactly;
    /// printing it is the caller's business.
    pub fn render_text(&self) -> (r: String)
        requires
            self.wf(),
        ensures
            r@ == render_spec(self.state@),
    {
        proof {
            reveal_strlit("|");
            reveal_strlit("\n-----\n");
        }
        let mut t = String::new();
        t.append(glyph_str(self.state[0], 0));
        t.append("|");
        t.append(glyph_str(self.state[1], 1));
        t.append("|");
        t.append(glyph_str(self.state[2], 2));
        t.append("\n-----\n");
        t.append(glyph_str(self.state[3], 3));
        t.append("|");
        t.append(glyph_str(self.state[4], 4));
        t.append("|");
        t.append(glyph_str(self.state[5], 5));
        t.append("\n-----\n");
        t.append(glyph_str(self.state[6], 6));
        t.append("|");
        t.append(glyph_str(self.state[7], 7));
        t.append("|");
        t.append(glyph_str(self.state[8], 8));
        proof {
            assert(t@ =~= render_spec(self.state@));
        }
        t
    }
}

/// Round trip: applying a move on an empty cell and immediately undoing it
/// at the same cell restores the cells exactly (the counters cancel by the
/// contracts of `apply_move` and `unmove`).
pub proof fn lemma_move_unmove_round_trip(s: Seq<i8>, idx: int, mark: i8)
    requires
        s.len() == 9,
        0 <= idx < 9,
        s[idx] == -1,
    ensures
        s.update(idx, mark).update(idx, -1i8) == s,
{
    assert(s.update(idx, mark).update(idx, -1i8) =~= s);
}

/// The all-empty board.
pub open spec fn empty_board() -> Seq<i8> {
    Seq::new(9, |i: int| -1i8)
}

/// Win detection covers exactly the 8 winning triples: a board holding one
/// triple for side `p` and nothing else is a win for `p` and not for the
/// other side.
pub proof fn lemma_win_lines(a: int, b: int, c: int, p: i8)
    requires
        is_line(a, b, c),
        p == 0 || p == 1,
    ensures
        is_win_spec(empty_board().update(a, p).update(b, p).update(c, p), p),
        !is_win_spec(empty_board().update(a, p).update(b, p).update(c, p), (1 - p) as i8),
{
}

} // verus!
