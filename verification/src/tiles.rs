//! Filling a board with tiles.

use crate::attribute::draw;
use crate::attribute::Color;
use crate::attribute::Shape;
use crate::board::Board;
use crate::board::BoardView;
use crate::position::Position;
use vstd::arithmetic::div_mod::lemma_div_pos_is_pos;
use vstd::arithmetic::div_mod::lemma_fundamental_div_mod;
use vstd::arithmetic::div_mod::lemma_fundamental_div_mod_converse;
use vstd::arithmetic::div_mod::lemma_mod_pos_bound;
use vstd::arithmetic::div_mod::lemma_multiply_divide_lt;
use vstd::prelude::*;

verus! {

/// The place of the cell `(x, y)` in the order in which a board of the given
/// width is filled: the bottom row from left to right, then the row above
/// it, and so on.
pub open spec fn fill_order(x: int, y: int, width: int) -> int {
    y * width + x
}

/// How a board looks after it was filled, compared with before: every cell
/// refers to a new, unmarked tile that sits at that cell; the new tiles are
/// numbered in fill order after the tiles that existed; and those are as they
/// were.
pub open spec fn filled(before: BoardView, after: BoardView) -> bool {
    let base = before.tiles.len() as int;
    let width = before.width() as int;
    &&& after.height() == before.height()
    &&& after.width() == before.width()
    &&& after.tiles.len() == base + width * before.height()
    &&& forall|id: int| 0 <= id < base ==> #[trigger] after.tiles[id] == before.tiles[id]
    &&& forall|x: int, y: int|
        before.inside(x, y) ==> {
            let id = base + fill_order(x, y, width);
            &&& base <= id < after.tiles.len()
            &&& (#[trigger] after.cells[x][y]) == Some(id as usize)
            &&& after.tiles[id] is Some
            &&& after.tiles[id]->0.position == (Position { x: x as u32, y: y as u32 })
            &&& !after.tiles[id]->0.marked
        }
}

/// Whether no cell of the board is occupied.
pub open spec fn vacant(v: BoardView) -> bool {
    forall|x: int, y: int| v.inside(x, y) ==> (#[trigger] v.cells[x][y]) is None
}

proof fn lemma_place(k: int, width: int, height: int)
    requires
        0 < width,
        0 <= k < width * height,
    ensures
        0 <= k % width < width,
        0 <= k / width < height,
        fill_order(k % width, k / width, width) == k,
{
    lemma_fundamental_div_mod(k, width);
    lemma_mod_pos_bound(k, width);
    lemma_div_pos_is_pos(k, width);
    lemma_multiply_divide_lt(k, width, height);
    assert(width * (k / width) == (k / width) * width) by (nonlinear_arith);
}

proof fn lemma_place_unique(x: int, y: int, width: int, height: int)
    requires
        0 <= x < width,
        0 <= y < height,
    ensures
        0 <= fill_order(x, y, width) < width * height,
        fill_order(x, y, width) % width == x,
        fill_order(x, y, width) / width == y,
{
    lemma_fundamental_div_mod_converse(fill_order(x, y, width), width, y, x);
    assert(0 <= y * width + x < width * height) by (nonlinear_arith)
        requires
            0 <= x < width,
            0 <= y < height,
    ;
}

/// How `now` relates to `start` when the first `k` cells in fill order have
/// received their tile.
spec fn filled_first(start: BoardView, now: BoardView, k: int) -> bool {
    let base = start.tiles.len() as int;
    let width = start.width() as int;
    &&& now.height() == start.height()
    &&& now.width() == start.width()
    &&& now.tiles.len() == base + k
    &&& forall|id: int| 0 <= id < base ==> #[trigger] now.tiles[id] == start.tiles[id]
    &&& forall|x: int, y: int|
        start.inside(x, y) ==> {
            let id = base + fill_order(x, y, width);
            if fill_order(x, y, width) < k {
                &&& (#[trigger] now.cells[x][y]) == Some(id as usize)
                &&& now.tiles[id] is Some
                &&& now.tiles[id]->0.position == (Position { x: x as u32, y: y as u32 })
                &&& !now.tiles[id]->0.marked
            } else {
                now.cells[x][y] == start.cells[x][y]
            }
        }
}

proof fn lemma_fill_next(start: BoardView, now: BoardView, k: int, color: Color, shape: Shape)
    requires
        start.wf(),
        now.wf(),
        0 <= k < start.width() * start.height(),
        filled_first(start, now, k),
        now.tiles.len() < usize::MAX,
    ensures
        start.width() > 0,
        ({
            let x = k % (start.width() as int);
            let y = k / (start.width() as int);
            let at = Position { x: x as u32, y: y as u32 };
            &&& start.inside(x, y)
            &&& now.occupant(at) == start.occupant(at)
            &&& filled_first(start, now.create(at, color, shape), k + 1)
        }),
{
    let width = start.width() as int;
    let height = start.height() as int;
    let base = start.tiles.len() as int;
    assert(width > 0) by (nonlinear_arith)
        requires
            0 <= k < width * height,
            0 <= width,
    ;
    lemma_place(k, width, height);
    let x = k % width;
    let y = k / width;
    let at = Position { x: x as u32, y: y as u32 };
    let next = now.create(at, color, shape);
    assert(now.inside(x, y));
    assert(now.cells[x][y] == start.cells[x][y]);
    assert forall|a: int, b: int| start.inside(a, b) implies {
        let id = base + fill_order(a, b, width);
        if fill_order(a, b, width) < k + 1 {
            &&& (#[trigger] next.cells[a][b]) == Some(id as usize)
            &&& next.tiles[id] is Some
            &&& next.tiles[id]->0.position == (Position { x: a as u32, y: b as u32 })
            &&& !next.tiles[id]->0.marked
        } else {
            next.cells[a][b] == start.cells[a][b]
        }
    } by {
        lemma_place_unique(a, b, width, height);
        let id = base + fill_order(a, b, width);
        if a == x && b == y {
        } else {
            assert(fill_order(a, b, width) != k);
            assert(next.cells[a][b] == now.cells[a][b]);
            if fill_order(a, b, width) < k {
                assert(now.cells[a][b] == Some(id as usize));
                assert(next.tiles[id] == now.tiles[id]);
            }
        }
    }
}

/// Puts a new tile on every cell of the board, each with a colour and a
/// shape drawn at random. The cells are filled in the order in which the
/// grid stores them. What a cell held before is overwritten; on a vacant,
/// synchronized board the result is synchronized.
pub fn spawn_board(board: &mut Board)
    requires
        old(board).wf(),
    ensures
        final(board).wf(),
        filled(old(board)@, final(board)@),
        old(board)@.synchronized() && vacant(old(board)@) ==> final(board)@.synchronized(),
{
    let ghost start = board@;
    let indices = board.indices();
    let mut k: usize = 0;
    while k < indices.len()
        invariant
            start.wf(),
            board.wf(),
            k <= indices@.len(),
            indices@.len() == start.width() * start.height(),
            forall|i: int|
                0 <= i < indices@.len() ==> (#[trigger] indices@[i]) == (
                    (i % (start.width() as int)) as usize,
                    (i / (start.width() as int)) as usize,
                ),
            filled_first(start, board@, k as int),
            start.synchronized() && vacant(start) ==> board@.synchronized(),
        decreases indices.len() - k,
    {
        let (x, y) = indices[k];
        let color = Color::from_draw(draw());
        let shape = Shape::from_draw(draw());
        proof {
            let width = start.width() as int;
            let height = start.height() as int;
            assert(width > 0) by (nonlinear_arith)
                requires
                    0 <= k < width * height,
                    0 <= width,
            ;
            lemma_place(k as int, width, height);
        }
        let at = Position::new(x, y);
        let ghost before = board@;
        let id = board.create_tile(at, color, shape);
        proof {
            assert(before.tiles.len() < usize::MAX);
            lemma_fill_next(start, before, k as int, color, shape);
        }
        k += 1;
    }
    proof {
        let width = start.width() as int;
        assert forall|x: int, y: int| start.inside(x, y) implies fill_order(x, y, width) < k by {
            lemma_place_unique(x, y, width, start.height() as int);
        }
    }
}

} // verus!
