//! Gravity: one upward sweep over every column, in which each tile that has
//! an empty cell directly below it moves down one row.
//!
//! A tile that moves leaves its own cell empty, so the tile above it moves in
//! the same sweep. The net effect on a column is that the lowest empty cell
//! disappears, everything above it comes down by one row, and the top cell
//! becomes empty.

use crate::board::lowered;
use crate::board::Board;
use crate::board::BoardView;
use crate::board::Move;
use crate::board::lemma_fall_keeps;
use crate::position::Position;
use vstd::prelude::*;

verus! {

/// The first row at or above `from` whose cell is empty; the length of the
/// column when there is none.
pub open spec fn gap_from(column: Seq<Option<usize>>, from: int) -> int
    decreases column.len() - from,
{
    if 0 <= from < column.len() && column[from] is Some {
        gap_from(column, from + 1)
    } else {
        from
    }
}

/// The row of the lowest empty cell of a column; the length of the column
/// when every cell is occupied.
pub open spec fn first_gap(column: Seq<Option<usize>>) -> int {
    gap_from(column, 0)
}

/// A column after one sweep: the lowest empty cell is taken out and an empty
/// cell is added on top. A full column stays as it is.
pub open spec fn sweep_column(column: Seq<Option<usize>>) -> Seq<Option<usize>> {
    let gap = first_gap(column);
    if gap < column.len() {
        column.remove(gap).push(None)
    } else {
        column
    }
}

/// A column is at rest when no tile sits above an empty cell.
pub open spec fn at_rest(column: Seq<Option<usize>>) -> bool {
    forall|y: int| first_gap(column) <= y < column.len() ==> (#[trigger] column[y]) is None
}

/// The moves that one sweep of column `x` reports for the rows below `y`, in
/// rising order of row: one for each tile above the lowest empty cell, to the
/// row under the tile's own.
pub open spec fn column_moves(column: Seq<Option<usize>>, x: int, y: int) -> Seq<Move>
    decreases y,
{
    if y <= 0 {
        Seq::empty()
    } else {
        let rest = column_moves(column, x, y - 1);
        if first_gap(column) < y - 1 < column.len() && column[y - 1] is Some {
            rest.push(
                Move { tile: column[y - 1]->0, position: Position { x: x as u32, y: (y - 2) as u32 } },
            )
        } else {
            rest
        }
    }
}

impl BoardView {
    /// Whether tile `id` moves in one sweep: the grid refers to it from its
    /// own cell, and that cell lies above the lowest empty cell of its
    /// column.
    pub open spec fn falls(self, id: usize) -> bool {
        &&& self.placed(id)
        &&& first_gap(self.cells[self.tile(id).position.x as int]) < self.tile(id).position.y
    }

    /// The board after one sweep: every column is swept, and every tile that
    /// falls has its row lowered by one.
    pub open spec fn sweep(self) -> BoardView {
        BoardView {
            cells: Seq::new(self.width(), |x: int| sweep_column(self.cells[x])),
            tiles: Seq::new(
                self.tiles.len(),
                |id: int|
                    if self.falls(id as usize) {
                        Some(lowered(self.tiles[id]->0))
                    } else {
                        self.tiles[id]
                    },
            ),
        }
    }

    /// The moves that a sweep reports for the columns left of `x`, column by
    /// column.
    pub open spec fn moves_upto(self, x: int) -> Seq<Move>
        decreases x,
    {
        if x <= 0 {
            Seq::empty()
        } else {
            self.moves_upto(x - 1) + column_moves(self.cells[x - 1], x - 1, self.height() as int)
        }
    }

    /// The moves that one sweep reports.
    pub open spec fn sweep_moves(self) -> Seq<Move> {
        self.moves_upto(self.width() as int)
    }

    /// Every column is at rest.
    pub open spec fn settled(self) -> bool {
        forall|x: int| 0 <= x < self.width() ==> at_rest(#[trigger] self.cells[x])
    }

    /// The board after the cells of column `x` in rows 1 to `y - 1` had their
    /// turn, in rising order: at its turn, the tile in a cell falls one row
    /// if the cell below it is empty by then.
    pub open spec fn after_rows(self, x: int, y: int) -> BoardView
        decreases y,
    {
        if y <= 1 {
            self
        } else {
            self.after_rows(x, y - 1).fall(x, y - 1)
        }
    }

    /// The moves made while the cells of column `x` in rows 1 to `y - 1` had
    /// their turn.
    pub open spec fn moves_in_rows(self, x: int, y: int) -> Seq<Move>
        decreases y,
    {
        if y <= 1 {
            Seq::empty()
        } else {
            let before = self.after_rows(x, y - 1);
            let rest = self.moves_in_rows(x, y - 1);
            if before.can_fall(x, y - 1) {
                rest.push(
                    Move {
                        tile: before.cells[x][y - 1]->0,
                        position: Position { x: x as u32, y: (y - 2) as u32 },
                    },
                )
            } else {
                rest
            }
        }
    }

    /// The board after the columns left of `x` had their turn, one after the
    /// other, each from row 1 to the top.
    pub open spec fn after_columns(self, x: int) -> BoardView
        decreases x,
    {
        if x <= 0 {
            self
        } else {
            self.after_columns(x - 1).after_rows(x - 1, self.height() as int)
        }
    }

    /// The moves made while the columns left of `x` had their turn.
    pub open spec fn moves_in_columns(self, x: int) -> Seq<Move>
        decreases x,
    {
        if x <= 0 {
            Seq::empty()
        } else {
            self.moves_in_columns(x - 1) + self.after_columns(x - 1).moves_in_rows(
                x - 1,
                self.height() as int,
            )
        }
    }
}

proof fn lemma_gap_from(column: Seq<Option<usize>>, from: int)
    requires
        0 <= from <= column.len(),
    ensures
        from <= gap_from(column, from) <= column.len(),
        forall|j: int| from <= j < gap_from(column, from) ==> (#[trigger] column[j]) is Some,
        gap_from(column, from) < column.len() ==> column[gap_from(column, from)] is None,
    decreases column.len() - from,
{
    if from < column.len() && column[from] is Some {
        lemma_gap_from(column, from + 1);
    }
}

/// What the lowest empty cell is: every cell below it is occupied, and it is
/// empty itself unless the column is full.
pub proof fn lemma_first_gap(column: Seq<Option<usize>>)
    ensures
        0 <= first_gap(column) <= column.len(),
        forall|j: int| 0 <= j < first_gap(column) ==> (#[trigger] column[j]) is Some,
        first_gap(column) < column.len() ==> column[first_gap(column)] is None,
{
    lemma_gap_from(column, 0);
}

/// A sweep keeps the height of a column.
pub proof fn lemma_sweep_column_len(column: Seq<Option<usize>>)
    ensures
        sweep_column(column).len() == column.len(),
{
    lemma_first_gap(column);
}

/// A sweep leaves a column at rest as it is, and reports no move for it.
pub proof fn lemma_at_rest_column(column: Seq<Option<usize>>, x: int, y: int)
    requires
        at_rest(column),
    ensures
        sweep_column(column) == column,
        column_moves(column, x, y) == Seq::<Move>::empty(),
    decreases y,
{
    lemma_first_gap(column);
    assert(sweep_column(column) =~= column);
    if y > 0 {
        lemma_at_rest_column(column, x, y - 1);
    }
}

/// Column `x` after rows 1 to `y - 1` had their turn: nothing has happened
/// up to the lowest empty cell; past it, the cells have come down by one and
/// row `y - 1` is empty.
spec fn column_after(column: Seq<Option<usize>>, y: int) -> Seq<Option<usize>> {
    let gap = first_gap(column);
    if y <= gap + 1 {
        column
    } else {
        column.remove(gap).insert(y - 1, None)
    }
}

/// Whether tile `id` sits in column `x` above the lowest empty cell and below
/// row `y`.
spec fn fell_below(v: BoardView, x: int, y: int, id: usize) -> bool {
    &&& v.placed(id)
    &&& v.tile(id).position.x == x
    &&& first_gap(v.cells[x]) < v.tile(id).position.y < y
}

/// How `w` relates to `v` when `w` is `v` after rows 1 to `y - 1` of column
/// `x` had their turn.
spec fn rows_done(v: BoardView, w: BoardView, x: int, y: int) -> bool {
    &&& w.wf()
    &&& w.height() == v.height()
    &&& w.cells.len() == v.cells.len()
    &&& w.tiles.len() == v.tiles.len()
    &&& forall|a: int| 0 <= a < v.width() && a != x ==> #[trigger] w.cells[a] == v.cells[a]
    &&& w.cells[x] == column_after(v.cells[x], y)
    &&& forall|id: usize|
        id < v.tiles.len() ==> #[trigger] w.tiles[id as int] == (if fell_below(v, x, y, id) {
            Some(lowered(v.tile(id)))
        } else {
            v.tiles[id as int]
        })
}

/// What the turn of row `r` does to a column in which the rows below `r`
/// had their turn.
proof fn lemma_column_turn(column: Seq<Option<usize>>, r: int)
    requires
        1 <= r < column.len(),
    ensures
        column_after(column, r).len() == column.len(),
        column_after(column, r)[r] == column[r],
        column_after(column, r)[r - 1] is None <==> first_gap(column) < r,
        first_gap(column) < r && column[r] is Some ==> column_after(column, r + 1) == column_after(
            column,
            r,
        ).update(r - 1, column[r]).update(r, None),
        !(first_gap(column) < r && column[r] is Some) ==> column_after(column, r + 1) == column_after(
            column,
            r,
        ),
{
    let gap = first_gap(column);
    let now = column_after(column, r);
    let next = column_after(column, r + 1);
    lemma_first_gap(column);
    if gap < r && column[r] is Some {
        assert(next =~= now.update(r - 1, column[r]).update(r, None));
    } else {
        assert(next =~= now);
    }
}

/// The turn of row `r` of column `x`, on a board on which the rows below
/// `r` had their turn.
proof fn lemma_row_turn(v: BoardView, w: BoardView, x: int, r: int)
    requires
        v.wf(),
        0 <= x < v.width(),
        1 <= r < v.height(),
        rows_done(v, w, x, r),
    ensures
        rows_done(v, w.fall(x, r), x, r + 1),
        w.can_fall(x, r) <==> first_gap(v.cells[x]) < r && v.cells[x][r] is Some,
        w.can_fall(x, r) ==> w.cells[x][r] == v.cells[x][r],
        v.synchronized() && w.synchronized() ==> w.fall(x, r).synchronized(),
{
    let column = v.cells[x];
    let gap = first_gap(column);
    let y = r + 1;
    let next = w.fall(x, r);
    lemma_column_turn(column, r);
    lemma_fall_keeps(w, x, r);
    assert(w.inside(x, r) && w.inside(x, r - 1));
    assert(v.inside(x, r));
    if w.can_fall(x, r) {
        let id = column[r]->0;
        assert(v.live(id) && v.tile(id).position.x == x && v.tile(id).position.y == r);
        assert(!fell_below(v, x, r, id));
        assert(w.tiles[id as int] == v.tiles[id as int]);
        assert(next.cells[x] == column_after(column, y));
        assert forall|t: usize| t < v.tiles.len() implies #[trigger] next.tiles[t as int] == (if fell_below(
            v,
            x,
            y,
            t,
        ) {
            Some(lowered(v.tile(t)))
        } else {
            v.tiles[t as int]
        }) by {
            if t == id {
                assert(fell_below(v, x, y, t));
            } else {
                assert(next.tiles[t as int] == w.tiles[t as int]);
                if fell_below(v, x, y, t) && !fell_below(v, x, r, t) {
                    assert(v.tile(t).position.y == r);
                }
            }
        }
        assert forall|a: int| 0 <= a < v.width() && a != x implies #[trigger] next.cells[a] == v.cells[a] by {
            assert(w.cells[a] == v.cells[a]);
        }
    } else {
        assert(next == w);
        assert forall|t: usize| t < v.tiles.len() implies #[trigger] next.tiles[t as int] == (if fell_below(
            v,
            x,
            y,
            t,
        ) {
            Some(lowered(v.tile(t)))
        } else {
            v.tiles[t as int]
        }) by {
            if fell_below(v, x, y, t) && !fell_below(v, x, r, t) {
                assert(v.tile(t).position.y == r);
                assert(v.cells[x][r] == Some(t));
            }
        }
    }
}

proof fn lemma_rows(v: BoardView, x: int, y: int)
    requires
        v.wf(),
        0 <= x < v.width(),
        y <= v.height(),
    ensures
        rows_done(v, v.after_rows(x, y), x, y),
        v.moves_in_rows(x, y) == column_moves(v.cells[x], x, y),
        v.synchronized() ==> v.after_rows(x, y).synchronized(),
    decreases y,
{
    if y <= 1 {
        lemma_first_gap(v.cells[x]);
        assert(column_moves(v.cells[x], x, y) == Seq::<Move>::empty()) by {
            reveal_with_fuel(column_moves, 2);
        }
    } else {
        lemma_rows(v, x, y - 1);
        lemma_row_turn(v, v.after_rows(x, y - 1), x, y - 1);
    }
}

/// How `w` relates to `v` when `w` is `v` after the columns left of `k` were
/// swept.
spec fn columns_done(v: BoardView, w: BoardView, k: int) -> bool {
    &&& w.wf()
    &&& w.height() == v.height()
    &&& w.cells.len() == v.cells.len()
    &&& w.tiles.len() == v.tiles.len()
    &&& forall|a: int|
        0 <= a < v.width() ==> #[trigger] w.cells[a] == (if a < k {
            sweep_column(v.cells[a])
        } else {
            v.cells[a]
        })
    &&& forall|id: usize|
        id < v.tiles.len() ==> #[trigger] w.tiles[id as int] == (if v.falls(id) && v.tile(id).position.x < k {
            Some(lowered(v.tile(id)))
        } else {
            v.tiles[id as int]
        })
}

proof fn lemma_column_done(column: Seq<Option<usize>>)
    ensures
        column_after(column, column.len() as int) == sweep_column(column),
{
    lemma_first_gap(column);
    assert(column_after(column, column.len() as int) =~= sweep_column(column));
}

proof fn lemma_columns(v: BoardView, k: int)
    requires
        v.wf(),
        k <= v.width(),
    ensures
        columns_done(v, v.after_columns(k), k),
        v.moves_in_columns(k) == v.moves_upto(k),
        v.synchronized() ==> v.after_columns(k).synchronized(),
    decreases k,
{
    if k <= 0 {
    } else {
        let x = k - 1;
        lemma_columns(v, x);
        let w = v.after_columns(x);
        let next = w.after_rows(x, v.height() as int);
        lemma_rows(w, x, v.height() as int);
        assert(w.cells[x] == v.cells[x]);
        lemma_column_done(v.cells[x]);
        assert forall|a: int| 0 <= a < v.width() implies #[trigger] next.cells[a] == (if a < k {
            sweep_column(v.cells[a])
        } else {
            v.cells[a]
        }) by {
            if a != x {
                assert(next.cells[a] == w.cells[a]);
            }
        }
        assert forall|id: usize| id < v.tiles.len() implies #[trigger] next.tiles[id as int] == (if v.falls(id)
            && v.tile(id).position.x < k {
            Some(lowered(v.tile(id)))
        } else {
            v.tiles[id as int]
        }) by {
            let here = v.falls(id) && v.tile(id).position.x == x;
            if fell_below(w, x, v.height() as int, id) {
                assert(w.tile(id).position.x == x);
                assert(w.tiles[id as int] == v.tiles[id as int]);
                assert(here);
            }
            if here {
                assert(w.tiles[id as int] == v.tiles[id as int]);
                assert(w.cells[x] == v.cells[x]);
                assert(fell_below(w, x, v.height() as int, id));
            }
        }
    }
}

/// One sweep keeps a valid board valid and a synchronized board
/// synchronized, and changes neither the size of the board nor the number of
/// tiles.
pub proof fn lemma_sweep_keeps(v: BoardView)
    requires
        v.wf(),
    ensures
        v.sweep().wf(),
        v.synchronized() ==> v.sweep().synchronized(),
        v.sweep().width() == v.width(),
        v.sweep().height() == v.height(),
        v.sweep().tiles.len() == v.tiles.len(),
{
    lemma_sweep_is_after(v);
    lemma_columns(v, v.width() as int);
}

/// Going over the board cell by cell, column after column and from row 1
/// upwards, and letting each tile fall that has an empty cell below it at its
/// turn, gives the swept board and the moves of the sweep.
pub proof fn lemma_sweep_is_after(v: BoardView)
    requires
        v.wf(),
    ensures
        v.after_columns(v.width() as int) == v.sweep(),
        v.moves_in_columns(v.width() as int) == v.sweep_moves(),
{
    lemma_columns(v, v.width() as int);
    let w = v.after_columns(v.width() as int);
    assert(w.cells =~= v.sweep().cells);
    assert(w.tiles =~= v.sweep().tiles);
}

/// Gravity at rest: when no column has a tile above an empty cell, a sweep
/// changes neither the grid nor any tile, and reports no move.
pub proof fn lemma_settled_is_fixed(v: BoardView)
    requires
        v.wf(),
        v.settled(),
    ensures
        v.sweep() == v,
        v.sweep_moves() == Seq::<Move>::empty(),
{
    assert forall|x: int| 0 <= x < v.width() implies sweep_column(#[trigger] v.cells[x]) == v.cells[x] by {
        lemma_at_rest_column(v.cells[x], x, 0);
    }
    assert(v.sweep().cells =~= v.cells);
    assert forall|id: usize| id < v.tiles.len() implies !v.falls(id) by {
        if v.falls(id) {
            let at = v.tile(id).position;
            assert(at_rest(v.cells[at.x as int]));
            assert(v.cells[at.x as int][at.y as int] is None);
        }
    }
    assert(v.sweep().tiles =~= v.tiles);
    lemma_no_moves(v, v.width() as int);
}

proof fn lemma_no_moves(v: BoardView, k: int)
    requires
        v.settled(),
        k <= v.width(),
    ensures
        v.moves_upto(k) == Seq::<Move>::empty(),
    decreases k,
{
    if k > 0 {
        lemma_no_moves(v, k - 1);
        lemma_at_rest_column(v.cells[k - 1], k - 1, v.height() as int);
    }
}

/// Runs one gravity sweep: column by column, from row 1 upwards, every tile
/// with an empty cell directly below it moves down one row. Returns the moves
/// in the order in which they were made.
pub fn gravity(board: &mut Board) -> (moves: Vec<Move>)
    requires
        old(board).wf(),
    ensures
        final(board).wf(),
        final(board)@ == old(board)@.sweep(),
        moves@ == old(board)@.sweep_moves(),
        old(board)@.synchronized() ==> final(board)@.synchronized(),
        old(board)@.settled() ==> final(board)@ == old(board)@ && moves@.len() == 0,
{
    let ghost start = board@;
    let mut moves: Vec<Move> = Vec::new();
    let width = board.width();
    let height = board.height();
    let mut x: usize = 0;
    while x < width
        invariant
            start.wf(),
            start == old(board)@,
            board.wf(),
            width == start.width(),
            height == start.height(),
            x <= width,
            board@ == start.after_columns(x as int),
            moves@ == start.moves_in_columns(x as int),
        decreases width - x,
    {
        let ghost column_start = board@;
        let ghost made = moves@;
        proof {
            lemma_columns(start, x as int);
        }
        let mut y: usize = 1;
        while y < height
            invariant
                column_start.wf(),
                column_start.width() == width,
                column_start.height() == height,
                board.wf(),
                x < width,
                1 <= y,
                y <= height || y == 1,
                board@ == column_start.after_rows(x as int, y as int),
                moves@ == made + column_start.moves_in_rows(x as int, y as int),
            decreases height - y,
        {
            proof {
                lemma_rows(column_start, x as int, y as int);
            }
            match board.fall(x, y) {
                Some(step) => {
                    moves.push(step);
                },
                None => {},
            }
            y += 1;
        }
        proof {
            assert(column_start.after_rows(x as int, y as int) == column_start.after_rows(x as int, height as int));
            assert(column_start.moves_in_rows(x as int, y as int) == column_start.moves_in_rows(
                x as int,
                height as int,
            ));
        }
        x += 1;
    }
    proof {
        lemma_sweep_is_after(start);
        lemma_sweep_keeps(start);
        if start.settled() {
            lemma_settled_is_fixed(start);
        }
    }
    moves
}

} // verus!
