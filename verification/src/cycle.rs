//! One update cycle: the cursor moves, the tile under it is marked, the
//! marked tiles are judged, and gravity runs once, in that order.

use crate::board::Board;
use crate::board::BoardView;
use crate::board::Move;
use crate::cursor::check_match;
use crate::cursor::mark;
use crate::cursor::move_cursor;
use crate::cursor::shifted;
use crate::cursor::Cursor;
use crate::cursor::CursorAction;
use crate::gravity::gravity;
use crate::position::Position;
use vstd::prelude::*;

verus! {

/// What one update cycle did.
pub struct Cycle {
    /// The tile that was marked, if the player selected an occupied cell.
    pub marked: Option<usize>,
    /// The tiles that a match destroyed, in rising order of index.
    pub destroyed: Vec<usize>,
    /// The tiles that fell, in the order in which they fell.
    pub moves: Vec<Move>,
}

/// Where the cursor stands after the actions of a cycle: moved by
/// `(dx, dy)` if a move is among them, where it was if not.
pub open spec fn cursor_after(
    cursor: Cursor,
    board: BoardView,
    actions: Seq<CursorAction>,
    dx: i32,
    dy: i32,
) -> Cursor {
    if actions.contains(CursorAction::Move) {
        Cursor {
            position: Position {
                x: shifted(cursor.position.x, dx, board.width()) as u32,
                y: shifted(cursor.position.y, dy, board.height()) as u32,
            },
        }
    } else {
        cursor
    }
}

/// The board after the selection of a cycle: the tile at `at` is marked if a
/// selection is among the actions.
pub open spec fn selected(board: BoardView, actions: Seq<CursorAction>, at: Position) -> BoardView {
    if actions.contains(CursorAction::Select) {
        board.mark_at(at)
    } else {
        board
    }
}

/// Whether `action` is among `actions`.
pub fn pressed(actions: &Vec<CursorAction>, action: CursorAction) -> (found: bool)
    ensures
        found == actions@.contains(action),
{
    let mut i: usize = 0;
    while i < actions.len()
        invariant
            i <= actions.len(),
            forall|j: int| 0 <= j < i ==> actions@[j] != action,
        decreases actions.len() - i,
    {
        if actions[i] == action {
            return true;
        }
        i += 1;
    }
    false
}

/// Runs one update cycle with the actions the player took since the last
/// one. The cursor moves first, so a selection in the same cycle marks the
/// tile at the new position. The marked tiles are judged after the marking
/// and gravity runs last, once.
pub fn update(
    board: &mut Board,
    cursor: &mut Cursor,
    actions: &Vec<CursorAction>,
    dx: i32,
    dy: i32,
) -> (cycle: Cycle)
    requires
        old(board).wf(),
    ensures
        final(board).wf(),
        *final(cursor) == cursor_after(*old(cursor), old(board)@, actions@, dx, dy),
        final(board)@ == selected(old(board)@, actions@, final(cursor).position).resolve().sweep(),
        cycle.marked == (if actions@.contains(CursorAction::Select) {
            old(board)@.occupant(final(cursor).position)
        } else {
            None
        }),
        cycle.destroyed@ == ({
            let chosen = selected(old(board)@, actions@, final(cursor).position);
            if chosen.has_match() {
                chosen.marked_ids()
            } else {
                Seq::empty()
            }
        }),
        cycle.moves@ == selected(old(board)@, actions@, final(cursor).position).resolve().sweep_moves(),
        old(board)@.synchronized() ==> final(board)@.synchronized(),
{
    if pressed(actions, CursorAction::Move) {
        move_cursor(cursor, board, dx, dy);
    }
    let marked = if pressed(actions, CursorAction::Select) {
        mark(board, cursor)
    } else {
        None
    };
    let destroyed = check_match(board);
    let moves = gravity(board);
    Cycle { marked, destroyed, moves }
}

} // verus!
