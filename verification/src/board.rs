//! The 3x3 tic-tac-toe board: cell storage, empty-position enumeration,
//! and detection of a completed line.

use vstd::prelude::*;
use vstd::set_lib::lemma_len_subset;

verus! {

/// The symbol a player places on the board.
#[derive(Clone, Copy, PartialEq, Eq, Structural, Debug)]
pub enum Piece {
    X,
    O,
}

/// The symbol the given one plays against.
pub open spec fn other_piece(p: Piece) -> Piece {
    match p {
        Piece::X => Piece::O,
        Piece::O => Piece::X,
    }
}

/// True when (r, c) addresses one of the nine cells.
pub open spec fn in_range(r: int, c: int) -> bool {
    0 <= r < 3 && 0 <= c < 3
}

/// Row-major index of cell (r, c) in the flat cell sequence.
pub open spec fn idx(r: int, c: int) -> int {
    3 * r + c
}

/// The board with all nine cells empty.
pub open spec fn empty_board() -> Seq<Option<Piece>> {
    Seq::new(9, |i: int| None)
}

/// True when every cell is occupied.
pub open spec fn full(b: Seq<Option<Piece>>) -> bool {
    forall|i: int| 0 <= i < 9 ==> b[i] is Some
}

/// Flat index of the k-th cell (k in 0..3) of line l (l in 0..8).
/// Lines 0..3 are the rows, 3..6 the columns, 6 the main diagonal and
/// 7 the anti-diagonal.
pub open spec fn line_cell(l: int, k: int) -> int {
    if l < 3 {
        3 * l + k
    } else if l < 6 {
        3 * k + (l - 3)
    } else if l == 6 {
        4 * k
    } else {
        2 * k + 2
    }
}

/// True when all three cells of line l hold `p`.
pub open spec fn line_won(b: Seq<Option<Piece>>, l: int, p: Piece) -> bool {
    &&& b[line_cell(l, 0)] == Some(p)
    &&& b[line_cell(l, 1)] == Some(p)
    &&& b[line_cell(l, 2)] == Some(p)
}

/// True when some line is completely occupied by `p`.
pub open spec fn wins(b: Seq<Option<Piece>>, p: Piece) -> bool {
    exists|l: int| 0 <= l < 8 && line_won(b, l, p)
}

/// At most one of the two symbols has a completed line. Every board that the
/// game rules can reach satisfies this.
pub open spec fn single_winner(b: Seq<Option<Piece>>) -> bool {
    !(wins(b, Piece::X) && wins(b, Piece::O))
}

/// The set of coordinates of the cells that are still empty.
pub open spec fn empty_positions_set(b: Seq<Option<Piece>>) -> Set<(int, int)> {
    Set::new(|rc: (int, int)| in_range(rc.0, rc.1) && b[idx(rc.0, rc.1)] is None)
}

/// Which line a row-or-column selector denotes.
spec fn roc_line(roc: RowOrCol) -> int {
    match roc {
        RowOrCol::Row(r) => r as int,
        RowOrCol::Col(c) => 3 + c as int,
    }
}

/// The selector stays within the three rows or three columns.
spec fn roc_ok(roc: RowOrCol) -> bool {
    match roc {
        RowOrCol::Row(r) => r < 3,
        RowOrCol::Col(c) => c < 3,
    }
}

/// Which line a diagonal selector denotes.
spec fn diagonal_line(d: Diagonal) -> int {
    match d {
        Diagonal::One => 6,
        Diagonal::Two => 7,
    }
}

enum RowOrCol {
    Row(usize),
    Col(usize),
}

enum Diagonal {
    One,
    Two,
}

/// A 3x3 grid of optional pieces, viewed as a flat row-major sequence of
/// nine cells.
pub struct Board {
    cells: Vec<Option<Piece>>,
}

impl View for Board {
    type V = Seq<Option<Piece>>;

    closed spec fn view(&self) -> Seq<Option<Piece>> {
        self.cells@
    }
}

impl Board {
    /// The board holds exactly nine cells.
    pub open spec fn wf(self) -> bool {
        self@.len() == 9
    }

    /// A fresh board with every cell empty.
    pub fn new() -> (b: Self)
        ensures
            b.wf(),
            b@ == empty_board(),
    {
        let cells: Vec<Option<Piece>> = vec![None, None, None, None, None, None, None, None, None];
        proof {
            assert(cells@ =~= empty_board());
        }
        Board { cells }
    }

    /// Writes `piece` into cell (r, c). Callers must have checked that the
    /// cell is in range and still empty: an occupied cell is never rewritten.
    pub fn set(&mut self, r: usize, c: usize, piece: Piece)
        requires
            old(self).wf(),
            in_range(r as int, c as int),
            old(self)@[idx(r as int, c as int)] is None,
        ensures
            final(self).wf(),
            final(self)@ == old(self)@.update(idx(r as int, c as int), Some(piece)),
    {
        self.cells[3 * r + c] = Some(piece);
    }

    /// The content of cell (r, c).
    pub fn cell_at(&self, r: usize, c: usize) -> (p: Option<Piece>)
        requires
            self.wf(),
            in_range(r as int, c as int),
        ensures
            p == self@[idx(r as int, c as int)],
    {
        self.cells[3 * r + c]
    }

    /// All coordinates of empty cells, in row-major order: exactly the empty
    /// cells appear, each once, with strictly increasing flat indices, and the
    /// list is empty precisely on a full board.
    pub fn get_empty_positions(&self) -> (ret: Vec<(usize, usize)>)
        requires
            self.wf(),
        ensures
            forall|k: int| #![trigger ret@[k]] 0 <= k < ret@.len() ==> in_range(ret@[k].0 as int, ret@[k].1 as int)
                && self@[idx(ret@[k].0 as int, ret@[k].1 as int)] is None,
            forall|r: int, c: int| #[trigger] in_range(r, c) && self@[idx(r, c)] is None
                ==> ret@.contains((r as usize, c as usize)),
            forall|k1: int, k2: int| #![trigger ret@[k1], ret@[k2]] 0 <= k1 < k2 < ret@.len()
                ==> idx(ret@[k1].0 as int, ret@[k1].1 as int)
                    < idx(ret@[k2].0 as int, ret@[k2].1 as int),
            ret@.len() == 0 <==> full(self@),
    {
        let mut ret: Vec<(usize, usize)> = Vec::new();
        let mut r: usize = 0;
        while r < 3
            invariant
                self.wf(),
                r <= 3,
                forall|k: int| #![trigger ret@[k]] 0 <= k < ret@.len() ==> in_range(ret@[k].0 as int, ret@[k].1 as int)
                    && self@[idx(ret@[k].0 as int, ret@[k].1 as int)] is None
                    && idx(ret@[k].0 as int, ret@[k].1 as int) < 3 * r,
                forall|r2: int, c2: int| #[trigger] in_range(r2, c2) && idx(r2, c2) < 3 * r
                    && self@[idx(r2, c2)] is None ==> ret@.contains((r2 as usize, c2 as usize)),
                forall|k1: int, k2: int| #![trigger ret@[k1], ret@[k2]] 0 <= k1 < k2 < ret@.len()
                    ==> idx(ret@[k1].0 as int, ret@[k1].1 as int)
                        < idx(ret@[k2].0 as int, ret@[k2].1 as int),
            decreases 3 - r,
        {
            let mut c: usize = 0;
            while c < 3
                invariant
                    self.wf(),
                    r < 3,
                    c <= 3,
                    forall|k: int| #![trigger ret@[k]] 0 <= k < ret@.len() ==> in_range(ret@[k].0 as int, ret@[k].1 as int)
                        && self@[idx(ret@[k].0 as int, ret@[k].1 as int)] is None
                        && idx(ret@[k].0 as int, ret@[k].1 as int) < 3 * r + c,
                    forall|r2: int, c2: int| #[trigger] in_range(r2, c2) && idx(r2, c2) < 3 * r + c
                        && self@[idx(r2, c2)] is None ==> ret@.contains((r2 as usize, c2 as usize)),
                    forall|k1: int, k2: int| #![trigger ret@[k1], ret@[k2]] 0 <= k1 < k2 < ret@.len()
                        ==> idx(ret@[k1].0 as int, ret@[k1].1 as int)
                            < idx(ret@[k2].0 as int, ret@[k2].1 as int),
                decreases 3 - c,
            {
                let ghost pre = ret@;
                if self.cells[3 * r + c].is_none() {
                    ret.push((r, c));
                    proof {
                        assert(ret@[pre.len() as int] == (r, c));
                        assert forall|r2: int, c2: int| #[trigger] in_range(r2, c2)
                            && idx(r2, c2) < 3 * r + c + 1 && self@[idx(r2, c2)] is None
                            implies ret@.contains((r2 as usize, c2 as usize)) by {
                            if idx(r2, c2) < 3 * r + c {
                                let k = choose|k: int| 0 <= k < pre.len()
                                    && pre[k] == (r2 as usize, c2 as usize);
                                assert(ret@[k] == (r2 as usize, c2 as usize));
                            } else {
                                assert(r2 == r && c2 == c);
                                assert(ret@[pre.len() as int] == (r2 as usize, c2 as usize));
                            }
                        }
                    }
                } else {
                    proof {
                        assert forall|r2: int, c2: int| #[trigger] in_range(r2, c2)
                            && idx(r2, c2) < 3 * r + c + 1 && self@[idx(r2, c2)] is None
                            implies ret@.contains((r2 as usize, c2 as usize)) by {
                            if idx(r2, c2) == 3 * r + c {
                                assert(r2 == r && c2 == c);
                                assert(false);
                            }
                        }
                    }
                }
                c = c + 1;
            }
            r = r + 1;
        }
        proof {
            if ret@.len() > 0 {
                assert(self@[idx(ret@[0].0 as int, ret@[0].1 as int)] is None);
                assert(!full(self@));
            }
            assert forall|i: int| 0 <= i < 9 && self@[i] is None implies ret@.len() > 0 by {
                let r2 = i / 3;
                let c2 = i % 3;
                assert(idx(r2, c2) == i);
                assert(in_range(r2, c2));
                assert(ret@.contains((r2 as usize, c2 as usize)));
            }
            if ret@.len() == 0 {
                assert forall|i: int| 0 <= i < 9 implies self@[i] is Some by {
                    if self@[i] is None {
                        assert(ret@.len() > 0);
                    }
                }
            }
        }
        ret
    }

    /// Whether one symbol occupies all of the selected row or column.
    fn check_row_or_col(&self, roc: RowOrCol) -> (res: Option<Piece>)
        requires
            self.wf(),
            roc_ok(roc),
        ensures
            match res {
                Some(p) => line_won(self@, roc_line(roc), p),
                None => !line_won(self@, roc_line(roc), Piece::X)
                    && !line_won(self@, roc_line(roc), Piece::O),
            },
    {
        let (i0, i1, i2): (usize, usize, usize) = match roc {
            RowOrCol::Row(r) => (3 * r, 3 * r + 1, 3 * r + 2),
            RowOrCol::Col(c) => (c, 3 + c, 6 + c),
        };
        let c0 = self.cells[i0];
        let c1 = self.cells[i1];
        let c2 = self.cells[i2];
        match (c0, c1, c2) {
            (Some(a), Some(b), Some(c)) => {
                if a == b && b == c {
                    Some(a)
                } else {
                    None
                }
            },
            _ => None,
        }
    }

    /// Whether one symbol occupies all of the selected diagonal.
    fn check_diagonals(&self, diagonal: Diagonal) -> (res: Option<Piece>)
        requires
            self.wf(),
        ensures
            match res {
                Some(p) => line_won(self@, diagonal_line(diagonal), p),
                None => !line_won(self@, diagonal_line(diagonal), Piece::X)
                    && !line_won(self@, diagonal_line(diagonal), Piece::O),
            },
    {
        let (i0, i1, i2): (usize, usize, usize) = match diagonal {
            Diagonal::One => (0, 4, 8),
            Diagonal::Two => (2, 4, 6),
        };
        let c0 = self.cells[i0];
        let c1 = self.cells[i1];
        let c2 = self.cells[i2];
        match (c0, c1, c2) {
            (Some(a), Some(b), Some(c)) => {
                if a == b && b == c {
                    Some(a)
                } else {
                    None
                }
            },
            _ => None,
        }
    }

    /// The piece that occupies a complete line, if any line is complete.
    /// When no symbol has a completed line the answer is `None`.
    pub fn get_winning_piece(&self) -> (res: Option<Piece>)
        requires
            self.wf(),
        ensures
            match res {
                Some(p) => wins(self@, p),
                None => !wins(self@, Piece::X) && !wins(self@, Piece::O),
            },
    {
        let mut r: usize = 0;
        while r < 3
            invariant
                self.wf(),
                r <= 3,
                forall|l: int| 0 <= l < r ==> !line_won(self@, l, Piece::X)
                    && !line_won(self@, l, Piece::O),
            decreases 3 - r,
        {
            if let Some(p) = self.check_row_or_col(RowOrCol::Row(r)) {
                return Some(p);
            }
            r = r + 1;
        }
        let mut c: usize = 0;
        while c < 3
            invariant
                self.wf(),
                c <= 3,
                forall|l: int| 0 <= l < 3 + c ==> !line_won(self@, l, Piece::X)
                    && !line_won(self@, l, Piece::O),
            decreases 3 - c,
        {
            if let Some(p) = self.check_row_or_col(RowOrCol::Col(c)) {
                return Some(p);
            }
            c = c + 1;
        }
        if let Some(p) = self.check_diagonals(Diagonal::One) {
            return Some(p);
        }
        if let Some(p) = self.check_diagonals(Diagonal::Two) {
            return Some(p);
        }
        None
    }
}

/// Law: one placement removes exactly its own cell from the set of empty
/// positions, so that set strictly shrinks by one element per placement,
/// and every cell that was already occupied stays occupied.
pub proof fn lemma_place_shrinks_empties(b: Seq<Option<Piece>>, r: int, c: int, p: Piece)
    requires
        b.len() == 9,
        in_range(r, c),
        b[idx(r, c)] is None,
    ensures
        empty_positions_set(b.update(idx(r, c), Some(p))) == empty_positions_set(b).remove((r, c)),
        empty_positions_set(b).finite(),
        empty_positions_set(b.update(idx(r, c), Some(p))).len() == empty_positions_set(b).len() - 1,
        forall|r2: int, c2: int| in_range(r2, c2) && b[#[trigger] idx(r2, c2)] is Some
            ==> b.update(idx(r, c), Some(p))[idx(r2, c2)] is Some,
{
    let b2 = b.update(idx(r, c), Some(p));
    assert forall|rc: (int, int)| empty_positions_set(b2).contains(rc)
        <==> empty_positions_set(b).remove((r, c)).contains(rc) by {
        if in_range(rc.0, rc.1) && rc != (r, c) {
            assert(idx(rc.0, rc.1) != idx(r, c));
        }
    }
    assert(empty_positions_set(b2) =~= empty_positions_set(b).remove((r, c)));
    lemma_empty_positions_finite(b);
    lemma_empty_positions_finite(b2);
    assert(empty_positions_set(b).contains((r, c)));
}

/// The set of empty positions of a board is finite (it sits inside the nine
/// cell coordinates).
pub proof fn lemma_empty_positions_finite(b: Seq<Option<Piece>>)
    ensures
        empty_positions_set(b).finite(),
        empty_positions_set(b).len() <= 9,
{
    let all = set![
        (0int, 0int), (0int, 1int), (0int, 2int),
        (1int, 0int), (1int, 1int), (1int, 2int),
        (2int, 0int), (2int, 1int), (2int, 2int),
    ];
    assert(all.finite());
    assert(all.len() <= 9);
    assert(empty_positions_set(b).subset_of(all)) by {
        assert forall|rc: (int, int)| empty_positions_set(b).contains(rc)
            implies all.contains(rc) by {
            assert(in_range(rc.0, rc.1));
        }
    }
    lemma_len_subset(empty_positions_set(b), all);
}

/// Law: a ply can complete a line only for the symbol just placed. Placing
/// `p` on a board where neither symbol has a completed line never gives the
/// opposing symbol one, so such a board keeps a single winner at most.
pub proof fn lemma_place_keeps_single_winner(b: Seq<Option<Piece>>, r: int, c: int, p: Piece)
    requires
        b.len() == 9,
        in_range(r, c),
        b[idx(r, c)] is None,
        !wins(b, Piece::X),
        !wins(b, Piece::O),
    ensures
        !wins(b.update(idx(r, c), Some(p)), other_piece(p)),
        single_winner(b.update(idx(r, c), Some(p))),
{
    let b2 = b.update(idx(r, c), Some(p));
    let q = other_piece(p);
    if wins(b2, q) {
        let l = choose|l: int| 0 <= l < 8 && line_won(b2, l, q);
        assert(b2[idx(r, c)] == Some(p));
        assert(Some(p) != Some(q));
        assert(line_cell(l, 0) != idx(r, c));
        assert(line_cell(l, 1) != idx(r, c));
        assert(line_cell(l, 2) != idx(r, c));
        assert(line_won(b, l, q));
        assert(wins(b, q));
        assert(false);
    }
}

} // verus!
