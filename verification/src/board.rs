//! The board: the occupancy grid and the registry of tiles, kept in step by
//! creating and destroying tiles through the board alone.

use crate::attribute::Color;
use crate::attribute::Shape;
use crate::position::Position;
use crate::storage::empty_cells;
use crate::storage::grid_cells;
use crate::storage::grid_column_major;
use crate::storage::grid_columns;
use crate::storage::grid_get;
use crate::storage::grid_get_mut;
use crate::storage::grid_index;
use crate::storage::grid_index_mut;
use crate::storage::grid_indices;
use crate::storage::grid_new;
use crate::storage::grid_rows;
use grid::Grid;
use vstd::prelude::*;

verus! {

/// The number of columns of the standard board.
pub const BOARD_WIDTH: usize = 12;

/// The number of rows of the standard board.
pub const BOARD_HEIGHT: usize = 12;

/// One tile: where it sits, what it looks like, and whether the player has
/// marked it. Colour and shape never change after creation.
#[derive(Clone, Copy, Debug, PartialEq, Eq, Structural)]
pub struct Tile {
    pub position: Position,
    pub color: Color,
    pub shape: Shape,
    pub marked: bool,
}

/// A tile arrived at a new position.
#[derive(Clone, Copy, Debug, PartialEq, Eq, Structural)]
pub struct Move {
    pub tile: usize,
    pub position: Position,
}

/// The tile one row further down.
pub open spec fn lowered(tile: Tile) -> Tile {
    Tile { position: Position { x: tile.position.x, y: (tile.position.y - 1) as u32 }, ..tile }
}

/// The board as a mathematical value.
///
/// `cells[x][y]` is the occupant of column `x`, row `y`. `tiles[id]` is the
/// tile with index `id`, or `None` once it has been destroyed; indices are
/// never reused.
pub struct BoardView {
    pub cells: Seq<Seq<Option<usize>>>,
    pub tiles: Seq<Option<Tile>>,
}

impl BoardView {
    /// The number of columns.
    pub open spec fn width(self) -> nat {
        self.cells.len()
    }

    /// The number of rows: the length of the columns, and 0 on a board
    /// without columns.
    pub open spec fn height(self) -> nat {
        if self.cells.len() > 0 {
            self.cells[0].len()
        } else {
            0
        }
    }

    /// Whether `(x, y)` names a cell of the board.
    pub open spec fn inside(self, x: int, y: int) -> bool {
        0 <= x < self.width() && 0 <= y < self.cells[x].len()
    }

    /// The occupant of `(x, y)`; outside the board no tile is present.
    pub open spec fn cell(self, x: int, y: int) -> Option<usize> {
        if self.inside(x, y) {
            self.cells[x][y]
        } else {
            None
        }
    }

    /// The occupant of the cell at `at`.
    pub open spec fn occupant(self, at: Position) -> Option<usize> {
        self.cell(at.x as int, at.y as int)
    }

    /// Whether `id` names a tile that has been created and not destroyed.
    pub open spec fn live(self, id: usize) -> bool {
        id < self.tiles.len() && self.tiles[id as int] is Some
    }

    /// The tile `id`, meaningful when it is live.
    pub open spec fn tile(self, id: usize) -> Tile {
        self.tiles[id as int]->0
    }

    /// Whether `id` is a live tile that carries a mark.
    pub open spec fn marked(self, id: usize) -> bool {
        self.live(id) && self.tile(id).marked
    }

    /// Whether the grid refers to tile `id` from the cell the tile claims.
    pub open spec fn placed(self, id: usize) -> bool {
        self.live(id) && self.occupant(self.tile(id).position) == Some(id)
    }

    /// Every column has `height` rows.
    pub open spec fn rectangular(self) -> bool {
        forall|x: int| 0 <= x < self.width() ==> (#[trigger] self.cells[x]).len() == self.height()
    }

    /// Every occupied cell refers to a live tile whose position is that cell.
    pub open spec fn anchored(self) -> bool {
        forall|x: int, y: int|
            self.inside(x, y) && (#[trigger] self.cells[x][y]) is Some ==> {
                let id = self.cells[x][y]->0;
                &&& self.live(id)
                &&& self.tile(id).position.x == x
                &&& self.tile(id).position.y == y
            }
    }

    /// The validity of a board: a rectangle whose cells can all be addressed
    /// by a position, and whose occupied cells are anchored.
    pub open spec fn wf(self) -> bool {
        &&& self.rectangular()
        &&& self.width() <= u32::MAX
        &&& self.height() <= u32::MAX
        &&& self.tiles.len() <= usize::MAX
        &&& self.anchored()
    }

    /// Grid and tiles agree in both directions: the board is valid and every
    /// live tile is referred to from the cell at its own position.
    pub open spec fn synchronized(self) -> bool {
        &&& self.wf()
        &&& forall|id: usize| self.live(id) ==> #[trigger] self.placed(id)
    }

    /// The cells with `(x, y)` set to `value`.
    pub open spec fn with_cell(self, x: int, y: int, value: Option<usize>) -> Seq<Seq<Option<usize>>> {
        self.cells.update(x, self.cells[x].update(y, value))
    }

    /// The board after a tile is created at `at`: the tile joins the
    /// registry under the next index, and the cell at `at` refers to it
    /// unless `at` lies outside the board.
    pub open spec fn create(self, at: Position, color: Color, shape: Shape) -> BoardView {
        let id = self.tiles.len() as usize;
        let tile = Tile { position: at, color, shape, marked: false };
        BoardView {
            cells: if self.inside(at.x as int, at.y as int) {
                self.with_cell(at.x as int, at.y as int, Some(id))
            } else {
                self.cells
            },
            tiles: self.tiles.push(Some(tile)),
        }
    }

    /// The board after tile `id` is destroyed: the tile leaves the registry,
    /// and the cell at its position is cleared if it still refers to the
    /// tile. Destroying what is not live changes nothing.
    pub open spec fn destroy(self, id: usize) -> BoardView {
        if self.live(id) {
            let at = self.tile(id).position;
            BoardView {
                cells: if self.occupant(at) == Some(id) {
                    self.with_cell(at.x as int, at.y as int, None)
                } else {
                    self.cells
                },
                tiles: self.tiles.update(id as int, None),
            }
        } else {
            self
        }
    }

    /// The board after tile `id` is marked; marking what is not live changes
    /// nothing.
    pub open spec fn mark(self, id: usize) -> BoardView {
        if self.live(id) {
            BoardView {
                cells: self.cells,
                tiles: self.tiles.update(id as int, Some(Tile { marked: true, ..self.tile(id) })),
            }
        } else {
            self
        }
    }

    /// Whether the tile in `(x, y)` can fall: the cell holds a tile and the
    /// cell below it is empty.
    pub open spec fn can_fall(self, x: int, y: int) -> bool {
        &&& self.inside(x, y - 1)
        &&& self.inside(x, y)
        &&& self.cells[x][y - 1] is None
        &&& self.cells[x][y] is Some
    }

    /// The board after the tile in `(x, y)` falls one row, if it can: the two
    /// cells trade contents and the tile's row goes down by one.
    pub open spec fn fall(self, x: int, y: int) -> BoardView {
        if self.can_fall(x, y) {
            let id = self.cells[x][y]->0;
            BoardView {
                cells: self.cells.update(x, self.cells[x].update(y - 1, Some(id)).update(y, None)),
                tiles: self.tiles.update(id as int, Some(lowered(self.tile(id)))),
            }
        } else {
            self
        }
    }
}

/// A new board is synchronized: it has no tiles and no occupied cells.
pub proof fn lemma_empty_synchronized(v: BoardView)
    requires
        v.cells == empty_cells(v.width(), v.height()),
        v.width() <= u32::MAX,
        v.height() <= u32::MAX,
        v.tiles.len() == 0,
    ensures
        v.synchronized(),
{
}

/// Creating a tile keeps a valid board valid.
pub proof fn lemma_create_wf(v: BoardView, at: Position, color: Color, shape: Shape)
    requires
        v.wf(),
        v.tiles.len() < usize::MAX,
    ensures
        v.create(at, color, shape).wf(),
{
    let w = v.create(at, color, shape);
    assert forall|x: int, y: int| w.inside(x, y) && (#[trigger] w.cells[x][y]) is Some implies {
        let id = w.cells[x][y]->0;
        &&& w.live(id)
        &&& w.tile(id).position.x == x
        &&& w.tile(id).position.y == y
    } by {
        if v.inside(at.x as int, at.y as int) && x == at.x && y == at.y {
        } else {
            assert(w.cells[x][y] == v.cells[x][y]);
        }
    }
}

/// Creating a tile on an empty cell of a synchronized board leaves the board
/// synchronized.
pub proof fn lemma_create_synchronized(v: BoardView, at: Position, color: Color, shape: Shape)
    requires
        v.synchronized(),
        v.tiles.len() < usize::MAX,
        v.inside(at.x as int, at.y as int),
        v.occupant(at) is None,
    ensures
        v.create(at, color, shape).synchronized(),
{
    lemma_create_wf(v, at, color, shape);
    let w = v.create(at, color, shape);
    assert forall|id: usize| w.live(id) implies #[trigger] w.placed(id) by {
        if id < v.tiles.len() {
            assert(v.placed(id));
        }
    }
}

/// On a valid board tile `id` is referred to from no cell but the one at its
/// position, so destroying it leaves no reference behind.
pub proof fn lemma_destroy_erases(v: BoardView, id: usize)
    requires
        v.wf(),
    ensures
        v.destroy(id).wf(),
        v.destroy(id).cells.len() == v.cells.len(),
        forall|x: int, y: int|
            v.inside(x, y) ==> #[trigger] v.destroy(id).cells[x][y] == (if v.live(id) && v.cells[x][y] == Some(
                id,
            ) {
                None
            } else {
                v.cells[x][y]
            }),
{
    let w = v.destroy(id);
    assert forall|x: int, y: int| v.inside(x, y) implies #[trigger] w.cells[x][y] == (if v.live(id)
        && v.cells[x][y] == Some(id) {
        None
    } else {
        v.cells[x][y]
    }) by {
        if v.live(id) && v.cells[x][y] == Some(id) {
            assert(v.tile(id).position.x == x && v.tile(id).position.y == y);
        }
    }
    assert forall|x: int, y: int| w.inside(x, y) && (#[trigger] w.cells[x][y]) is Some implies {
        let t = w.cells[x][y]->0;
        &&& w.live(t)
        &&& w.tile(t).position.x == x
        &&& w.tile(t).position.y == y
    } by {
        assert(v.inside(x, y));
        assert(w.cells[x][y] == v.cells[x][y]);
    }
}

/// Destroying a tile keeps a synchronized board synchronized, and the cell
/// the tile sat in reads empty afterwards.
pub proof fn lemma_destroy_synchronized(v: BoardView, id: usize)
    requires
        v.synchronized(),
    ensures
        v.destroy(id).synchronized(),
        v.live(id) ==> v.destroy(id).occupant(v.tile(id).position) is None,
{
    lemma_destroy_erases(v, id);
    let w = v.destroy(id);
    assert forall|t: usize| w.live(t) implies #[trigger] w.placed(t) by {
        assert(v.placed(t));
    }
    if v.live(id) {
        assert(v.placed(id));
    }
}

/// Marking a tile moves nothing: validity and synchronization are kept.
pub proof fn lemma_mark_keeps(v: BoardView, id: usize)
    ensures
        v.wf() ==> v.mark(id).wf(),
        v.synchronized() ==> v.mark(id).synchronized(),
{
    let w = v.mark(id);
    if v.wf() {
        assert forall|x: int, y: int| w.inside(x, y) && (#[trigger] w.cells[x][y]) is Some implies {
            let t = w.cells[x][y]->0;
            &&& w.live(t)
            &&& w.tile(t).position.x == x
            &&& w.tile(t).position.y == y
        } by {
            assert(v.cells[x][y] is Some);
        }
    }
    if v.synchronized() {
        assert forall|t: usize| w.live(t) implies #[trigger] w.placed(t) by {
            assert(v.placed(t));
        }
    }
}

/// A fall keeps validity and synchronization: the tile and the reference to
/// it move together.
pub proof fn lemma_fall_keeps(v: BoardView, x: int, y: int)
    requires
        v.wf(),
    ensures
        v.fall(x, y).wf(),
        v.synchronized() ==> v.fall(x, y).synchronized(),
{
    let w = v.fall(x, y);
    if v.can_fall(x, y) {
        let id = v.cells[x][y]->0;
        assert(v.live(id) && v.tile(id).position.x == x && v.tile(id).position.y == y);
        assert forall|a: int, b: int| w.inside(a, b) && (#[trigger] w.cells[a][b]) is Some implies {
            let t = w.cells[a][b]->0;
            &&& w.live(t)
            &&& w.tile(t).position.x == a
            &&& w.tile(t).position.y == b
        } by {
            if a == x && b == y - 1 {
            } else {
                assert(w.cells[a][b] == v.cells[a][b]);
                assert(v.cells[a][b] is Some);
            }
        }
        if v.synchronized() {
            assert forall|t: usize| w.live(t) implies #[trigger] w.placed(t) by {
                assert(v.placed(t));
            }
        }
    }
}

/// The board: owner of the occupancy grid and of every tile.
pub struct Board {
    tiles: Grid<Option<usize>>,
    registry: Vec<Option<Tile>>,
}

impl View for Board {
    type V = BoardView;

    closed spec fn view(&self) -> BoardView {
        BoardView { cells: grid_cells(self.tiles), tiles: self.registry@ }
    }
}

impl Board {
    /// The grid keeps the memory layout it was made with.
    pub closed spec fn column_major(&self) -> bool {
        grid_column_major(self.tiles)
    }

    /// The validity of a board, which `new` establishes and every method
    /// keeps.
    pub open spec fn wf(&self) -> bool {
        self@.wf() && self.column_major()
    }

    /// The sizes a board can have: both dimensions are coordinates, and the
    /// cells, at sixteen bytes each, fit in one allocation.
    pub open spec fn storable(rows: usize, cols: usize) -> bool {
        &&& rows <= u32::MAX
        &&& cols <= u32::MAX
        &&& rows * cols * 16 <= isize::MAX
    }

    /// Makes a board of `rows` columns of cells, each `cols` cells high, with
    /// no tiles. A zero dimension gives a board without cells.
    pub fn new(rows: usize, cols: usize) -> (board: Board)
        requires
            Board::storable(rows, cols),
        ensures
            board.wf(),
            board@.synchronized(),
            board@.cells == empty_cells(rows as nat, cols as nat),
            board@.height() == (if rows == 0 || cols == 0 {
                0
            } else {
                cols as nat
            }),
            board@.tiles.len() == 0,
    {
        let board = Board { tiles: grid_new(rows, cols), registry: Vec::new() };
        proof {
            lemma_empty_synchronized(board@);
        }
        board
    }

    /// Makes a board like `new` if a board can have that size, and returns
    /// `None` if it cannot.
    pub fn try_new(rows: usize, cols: usize) -> (made: Option<Board>)
        ensures
            made is Some <==> Board::storable(rows, cols),
            made is Some ==> {
                let board = made->0;
                &&& board.wf()
                &&& board@.synchronized()
                &&& board@.cells == empty_cells(rows as nat, cols as nat)
                &&& board@.tiles.len() == 0
            },
    {
        if rows > u32::MAX as usize || cols > u32::MAX as usize {
            return None;
        }
        let bytes = match rows.checked_mul(cols) {
            Some(cells) => cells.checked_mul(16),
            None => None,
        };
        match bytes {
            Some(bytes) => {
                if bytes <= isize::MAX as usize {
                    Some(Board::new(rows, cols))
                } else {
                    None
                }
            },
            None => {
                assert(rows * cols * 16 > isize::MAX) by (nonlinear_arith)
                    requires
                        rows * cols > usize::MAX || rows * cols * 16 > usize::MAX,
                        usize::MAX >= isize::MAX,
                ;
                None
            },
        }
    }

    /// The number of columns.
    pub fn width(&self) -> (w: usize)
        ensures
            w == self@.width(),
    {
        grid_rows(&self.tiles)
    }

    /// The number of rows. A board without columns has no rows either.
    pub fn height(&self) -> (h: usize)
        ensures
            h == self@.height(),
    {
        if grid_rows(&self.tiles) == 0 {
            0
        } else {
            grid_columns(&self.tiles)
        }
    }

    /// The number of tiles ever created on this board, which is also the
    /// index the next tile will get.
    pub fn len(&self) -> (n: usize)
        ensures
            n == self@.tiles.len(),
    {
        self.registry.len()
    }

    /// The occupant of the cell in column `x`, row `y`. A lookup outside the
    /// board finds no tile.
    pub fn get(&self, x: usize, y: usize) -> (occupant: Option<usize>)
        ensures
            occupant == self@.cell(x as int, y as int),
    {
        match grid_get(&self.tiles, x, y) {
            Some(cell) => cell,
            None => None,
        }
    }

    /// The occupant of the cell at `at`.
    pub fn occupant_at(&self, at: &Position) -> (occupant: Option<usize>)
        ensures
            occupant == self@.occupant(*at),
    {
        self.get(at.x as usize, at.y as usize)
    }

    /// The tile with index `id`, if it is live.
    pub fn tile(&self, id: usize) -> (tile: Option<Tile>)
        ensures
            tile == (if self@.live(id) {
                Some(self@.tile(id))
            } else {
                None
            }),
    {
        if id < self.registry.len() {
            self.registry[id]
        } else {
            None
        }
    }

    /// The index `(x, y)` of every cell, in the order in which the grid
    /// stores the cells: the bottom row from left to right, then the row
    /// above it, and so on.
    pub fn indices(&self) -> (indices: Vec<(usize, usize)>)
        requires
            self.wf(),
        ensures
            indices@.len() == self@.width() * self@.height(),
            forall|i: int|
                0 <= i < indices@.len() ==> (#[trigger] indices@[i]) == (
                    (i % (self@.width() as int)) as usize,
                    (i / (self@.width() as int)) as usize,
                ),
    {
        grid_indices(&self.tiles)
    }

    /// Registers a new, unmarked tile and makes the cell at its position
    /// refer to it. A position outside the board leaves the grid alone; the
    /// tile is registered all the same. Returns the index of the tile.
    pub fn create_tile(&mut self, at: Position, color: Color, shape: Shape) -> (id: usize)
        requires
            old(self).wf(),
        ensures
            final(self).wf(),
            id == old(self)@.tiles.len(),
            final(self)@ == old(self)@.create(at, color, shape),
            old(self)@.synchronized() && old(self)@.inside(at.x as int, at.y as int) && old(self)@.occupant(
                at,
            ) is None ==> final(self)@.synchronized(),
    {
        let id = self.registry.len();
        self.registry.push(Some(Tile { position: at, color, shape, marked: false }));
        match grid_get_mut(&mut self.tiles, at.x as usize, at.y as usize) {
            Some(slot) => {
                *slot = Some(id);
            },
            None => {},
        }
        proof {
            let v = old(self)@;
            assert(self.registry.len() == v.tiles.len() + 1);
            assert(self@.cells =~~= v.create(at, color, shape).cells);
            assert(self@ == v.create(at, color, shape));
            lemma_create_wf(v, at, color, shape);
            if v.synchronized() && v.inside(at.x as int, at.y as int) && v.occupant(at) is None {
                lemma_create_synchronized(v, at, color, shape);
            }
        }
        id
    }

    /// Removes tile `id` from the registry and clears the cell at its
    /// position if that cell still refers to it. Returns the tile as it was,
    /// or `None` when `id` is not live, in which case nothing changes.
    pub fn destroy_tile(&mut self, id: usize) -> (removed: Option<Tile>)
        requires
            old(self).wf(),
        ensures
            final(self).wf(),
            final(self)@ == old(self)@.destroy(id),
            removed == (if old(self)@.live(id) {
                Some(old(self)@.tile(id))
            } else {
                None
            }),
            old(self)@.synchronized() ==> final(self)@.synchronized(),
            old(self)@.placed(id) ==> final(self)@.occupant(old(self)@.tile(id).position) is None,
    {
        proof {
            lemma_destroy_erases(old(self)@, id);
            if old(self)@.synchronized() {
                lemma_destroy_synchronized(old(self)@, id);
            }
        }
        if id >= self.registry.len() {
            return None;
        }
        let entry = self.registry[id];
        match entry {
            None => None,
            Some(tile) => {
                self.registry.set(id, None);
                match grid_get_mut(&mut self.tiles, tile.position.x as usize, tile.position.y as usize) {
                    Some(slot) => {
                        match *slot {
                            Some(occupant) => {
                                if occupant == id {
                                    *slot = None;
                                }
                            },
                            None => {},
                        }
                    },
                    None => {},
                }
                proof {
                    assert(self@.cells =~~= old(self)@.destroy(id).cells);
                    assert(self@ == old(self)@.destroy(id));
                }
                Some(tile)
            },
        }
    }

    /// Marks tile `id`. Marking a marked tile, or an index that is not live,
    /// changes nothing.
    pub fn mark_tile(&mut self, id: usize)
        requires
            old(self).wf(),
        ensures
            final(self).wf(),
            final(self)@ == old(self)@.mark(id),
            old(self)@.synchronized() ==> final(self)@.synchronized(),
    {
        proof {
            lemma_mark_keeps(old(self)@, id);
        }
        if id < self.registry.len() {
            match self.registry[id] {
                Some(tile) => {
                    self.registry.set(id, Some(Tile { marked: true, ..tile }));
                },
                None => {},
            }
        }
        proof {
            assert(self@.tiles =~= old(self)@.mark(id).tiles);
        }
    }

    /// Lets the tile in column `x`, row `y` fall one row if the cell below it
    /// is empty: the two cells trade contents and the tile's row goes down by
    /// one. Returns the move, or `None` when nothing fell.
    pub fn fall(&mut self, x: usize, y: usize) -> (moved: Option<Move>)
        requires
            old(self).wf(),
            x < old(self)@.width(),
            1 <= y < old(self)@.height(),
        ensures
            final(self).wf(),
            final(self)@ == old(self)@.fall(x as int, y as int),
            moved == (if old(self)@.can_fall(x as int, y as int) {
                Some(
                    Move {
                        tile: old(self)@.cells[x as int][y as int]->0,
                        position: Position { x: x as u32, y: (y - 1) as u32 },
                    },
                )
            } else {
                None
            }),
            old(self)@.synchronized() ==> final(self)@.synchronized(),
    {
        proof {
            lemma_fall_keeps(old(self)@, x as int, y as int);
        }
        let below = grid_index(&self.tiles, x, y - 1);
        if below.is_none() {
            match grid_index(&self.tiles, x, y) {
                Some(id) => {
                    *grid_index_mut(&mut self.tiles, x, y) = below;
                    *grid_index_mut(&mut self.tiles, x, y - 1) = Some(id);
                    match self.registry[id] {
                        Some(tile) => {
                            let position = Position { x: tile.position.x, y: tile.position.y - 1 };
                            self.registry.set(id, Some(Tile { position, ..tile }));
                            proof {
                                assert(self@.cells =~~= old(self)@.fall(x as int, y as int).cells);
                                assert(self@.tiles =~= old(self)@.fall(x as int, y as int).tiles);
                            }
                            Some(Move { tile: id, position })
                        },
                        None => None,
                    }
                },
                None => None,
            }
        } else {
            None
        }
    }
}

impl Default for Board {
    /// The standard board, without tiles.
    fn default() -> (board: Board)
        ensures
            board.wf(),
            board@.synchronized(),
            board@.cells == empty_cells(BOARD_WIDTH as nat, BOARD_HEIGHT as nat),
            board@.tiles.len() == 0,
    {
        Board::new(BOARD_WIDTH, BOARD_HEIGHT)
    }
}

} // verus!
