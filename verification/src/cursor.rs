//! The player's cursor: moving it over the board, marking the tile under it,
//! and resolving the marked tiles into a match.

use crate::attribute::Color;
use crate::attribute::Shape;
use crate::board::lemma_destroy_erases;
use crate::board::Board;
use crate::board::BoardView;
use crate::matching::is_match;
use crate::matching::match_rule;
use crate::matching::MATCH_SIZE;
use crate::position::Position;
use vstd::prelude::*;

verus! {

/// The cell the player has highlighted.
#[derive(Clone, Copy, Debug, PartialEq, Eq, Structural)]
pub struct Cursor {
    pub position: Position,
}

/// The two things a player can ask of the cursor.
#[derive(Clone, Copy, Debug, PartialEq, Eq, Hash, Structural)]
pub enum CursorAction {
    Move,
    Select,
}

/// The largest coordinate on an axis with `size` cells; 0 on an axis without
/// cells.
pub open spec fn last_coordinate(size: nat) -> int {
    if size == 0 {
        0
    } else if size - 1 > u32::MAX {
        u32::MAX as int
    } else {
        size - 1
    }
}

/// Where a coordinate ends up when it is moved by `delta` on an axis with
/// `size` cells: at `value + delta` if that is a coordinate of the axis,
/// else at the end of the axis it overshot.
pub open spec fn shifted(value: u32, delta: i32, size: nat) -> int {
    if value + delta < 0 {
        0
    } else if value + delta > last_coordinate(size) {
        last_coordinate(size)
    } else {
        value + delta
    }
}

fn shift(value: u32, delta: i32, size: usize) -> (moved: u32)
    ensures
        moved == shifted(value, delta, size as nat),
{
    let target: u32 = match value.checked_add_signed(delta) {
        Some(sum) => sum,
        None => if delta < 0 {
            0
        } else {
            u32::MAX
        },
    };
    let last: u32 = if size == 0 {
        0
    } else if size - 1 > u32::MAX as usize {
        u32::MAX
    } else {
        (size - 1) as u32
    };
    if target < last {
        target
    } else {
        last
    }
}

/// Puts a cursor on the bottom-left cell.
pub fn spawn_cursor() -> (cursor: Cursor)
    ensures
        cursor.position == (Position { x: 0, y: 0 }),
{
    Cursor { position: Position { x: 0, y: 0 } }
}

/// Moves the cursor by `(dx, dy)` cells. A move that would leave the board
/// stops at the edge: the cursor never wraps around and never leaves the
/// board.
pub fn move_cursor(cursor: &mut Cursor, board: &Board, dx: i32, dy: i32)
    ensures
        final(cursor).position.x == shifted(old(cursor).position.x, dx, board@.width()),
        final(cursor).position.y == shifted(old(cursor).position.y, dy, board@.height()),
        board@.width() > 0 ==> final(cursor).position.x < board@.width(),
        board@.height() > 0 ==> final(cursor).position.y < board@.height(),
{
    let x = shift(cursor.position.x, dx, board.width());
    let y = shift(cursor.position.y, dy, board.height());
    cursor.position = Position { x, y };
}

impl BoardView {
    /// The board after the tile at `at` is marked; an empty cell, or a
    /// position outside the board, changes nothing.
    pub open spec fn mark_at(self, at: Position) -> BoardView {
        match self.occupant(at) {
            Some(id) => self.mark(id),
            None => self,
        }
    }

    /// The marked tiles with an index below `n`, in rising order.
    pub open spec fn marked_below(self, n: int) -> Seq<usize>
        decreases n,
    {
        if n <= 0 {
            Seq::empty()
        } else {
            let rest = self.marked_below(n - 1);
            if self.marked((n - 1) as usize) {
                rest.push((n - 1) as usize)
            } else {
                rest
            }
        }
    }

    /// The marked tiles, in rising order of index.
    pub open spec fn marked_ids(self) -> Seq<usize> {
        self.marked_below(self.tiles.len() as int)
    }

    /// The colours of the marked tiles.
    pub open spec fn marked_colors(self) -> Seq<Color> {
        Seq::new(self.marked_ids().len(), |i: int| self.tile(self.marked_ids()[i]).color)
    }

    /// The shapes of the marked tiles.
    pub open spec fn marked_shapes(self) -> Seq<Shape> {
        Seq::new(self.marked_ids().len(), |i: int| self.tile(self.marked_ids()[i]).shape)
    }

    /// Whether the marked tiles form a match.
    pub open spec fn has_match(self) -> bool {
        match_rule(self.marked_colors(), self.marked_shapes())
    }

    /// The board with every marked tile destroyed: the tiles are gone from
    /// the registry, and every cell that referred to one is empty.
    pub open spec fn without_marked(self) -> BoardView {
        BoardView {
            cells: Seq::new(
                self.cells.len(),
                |x: int|
                    Seq::new(
                        self.cells[x].len(),
                        |y: int|
                            if self.cells[x][y] is Some && self.marked(self.cells[x][y]->0) {
                                None
                            } else {
                                self.cells[x][y]
                            },
                    ),
            ),
            tiles: Seq::new(
                self.tiles.len(),
                |id: int|
                    if self.marked(id as usize) {
                        None
                    } else {
                        self.tiles[id]
                    },
            ),
        }
    }

    /// The board after the marked tiles were judged: destroyed if they form a
    /// match, left alone, marks and all, if they do not.
    pub open spec fn resolve(self) -> BoardView {
        if self.has_match() {
            self.without_marked()
        } else {
            self
        }
    }
}

/// The list of marked tiles holds exactly the marked tiles, each once, in
/// rising order.
pub proof fn lemma_marked_below(v: BoardView, n: int)
    requires
        n <= v.tiles.len() <= usize::MAX,
    ensures
        forall|i: int| 0 <= i < v.marked_below(n).len() ==> v.marked(#[trigger] v.marked_below(n)[i]),
        forall|i: int| 0 <= i < v.marked_below(n).len() ==> (#[trigger] v.marked_below(n)[i]) < n,
        forall|i: int, j: int|
            0 <= i < j < v.marked_below(n).len() ==> v.marked_below(n)[i] < v.marked_below(n)[j],
        forall|id: usize| v.marked(id) && id < n ==> v.marked_below(n).contains(id),
    decreases n,
{
    if n > 0 {
        lemma_marked_below(v, n - 1);
        let rest = v.marked_below(n - 1);
        let all = v.marked_below(n);
        assert forall|id: usize| v.marked(id) && id < n implies all.contains(id) by {
            if id < n - 1 {
                let i = choose|i: int| 0 <= i < rest.len() && rest[i] == id;
                assert(all[i] == id);
            } else {
                assert(all[all.len() - 1] == id);
            }
        }
    }
}

/// Fewer marked tiles than a match needs are never a match, whatever they
/// look like: judging them changes nothing.
pub proof fn lemma_few_marks_no_match(v: BoardView)
    requires
        v.marked_ids().len() < MATCH_SIZE,
    ensures
        !v.has_match(),
        v.resolve() == v,
{
}

/// Destroying the marked tiles keeps a valid board valid and a synchronized
/// board synchronized, and empties the cell of every marked tile that the
/// grid referred to.
pub proof fn lemma_without_marked_keeps(v: BoardView)
    requires
        v.wf(),
    ensures
        v.without_marked().wf(),
        v.synchronized() ==> v.without_marked().synchronized(),
        forall|id: usize|
            v.marked(id) && v.placed(id) ==> v.without_marked().occupant(v.tile(id).position) is None,
        forall|id: usize| v.marked(id) ==> !#[trigger] v.without_marked().live(id),
{
    let w = v.without_marked();
    assert forall|x: int, y: int| w.inside(x, y) && (#[trigger] w.cells[x][y]) is Some implies {
        let id = w.cells[x][y]->0;
        &&& w.live(id)
        &&& w.tile(id).position.x == x
        &&& w.tile(id).position.y == y
    } by {
        assert(v.inside(x, y));
        assert(v.cells[x][y] is Some);
    }
    if v.synchronized() {
        assert forall|id: usize| w.live(id) implies #[trigger] w.placed(id) by {
            assert(v.placed(id));
        }
    }
}

/// Marks the tile under the cursor, if there is one, and returns its index.
/// Marking a marked tile changes nothing.
pub fn mark(board: &mut Board, cursor: &Cursor) -> (marked: Option<usize>)
    requires
        old(board).wf(),
    ensures
        final(board).wf(),
        marked == old(board)@.occupant(cursor.position),
        final(board)@ == old(board)@.mark_at(cursor.position),
        old(board)@.synchronized() ==> final(board)@.synchronized(),
{
    let found = board.occupant_at(&cursor.position);
    match found {
        Some(id) => {
            board.mark_tile(id);
        },
        None => {},
    }
    found
}

/// Lists the marked tiles in rising order of index.
pub fn marked_tiles(board: &Board) -> (ids: Vec<usize>)
    ensures
        ids@ == board@.marked_ids(),
{
    let mut ids: Vec<usize> = Vec::new();
    let n = board.len();
    let mut id: usize = 0;
    while id < n
        invariant
            n == board@.tiles.len(),
            id <= n,
            ids@ == board@.marked_below(id as int),
        decreases n - id,
    {
        match board.tile(id) {
            Some(tile) => {
                if tile.marked {
                    ids.push(id);
                }
            },
            None => {},
        }
        id += 1;
    }
    ids
}

/// Whether `id` is among the first `n` entries of `ids`.
spec fn among(ids: Seq<usize>, n: int, id: usize) -> bool {
    exists|j: int| 0 <= j < n && ids[j] == id
}

/// How `w` relates to `v` when `w` is `v` after the first `n` tiles of `ids`
/// were destroyed.
spec fn destroyed_first(v: BoardView, w: BoardView, ids: Seq<usize>, n: int) -> bool {
    &&& w.wf()
    &&& w.height() == v.height()
    &&& w.cells.len() == v.cells.len()
    &&& w.tiles.len() == v.tiles.len()
    &&& forall|x: int, y: int|
        v.inside(x, y) ==> #[trigger] w.cells[x][y] == (if v.cells[x][y] is Some && among(
            ids,
            n,
            v.cells[x][y]->0,
        ) {
            None
        } else {
            v.cells[x][y]
        })
    &&& forall|id: usize|
        id < v.tiles.len() ==> #[trigger] w.tiles[id as int] == (if among(ids, n, id) {
            None
        } else {
            v.tiles[id as int]
        })
}

proof fn lemma_destroy_next(v: BoardView, w: BoardView, ids: Seq<usize>, n: int)
    requires
        v.wf(),
        0 <= n < ids.len(),
        destroyed_first(v, w, ids, n),
        v.live(ids[n]),
    ensures
        destroyed_first(v, w.destroy(ids[n]), ids, n + 1),
{
    let id = ids[n];
    let next = w.destroy(id);
    lemma_destroy_erases(w, id);
    assert forall|t: usize| among(ids, n + 1, t) <==> among(ids, n, t) || t == id by {
        if among(ids, n + 1, t) {
            let j = choose|j: int| 0 <= j < n + 1 && ids[j] == t;
            if j < n {
                assert(among(ids, n, t));
            }
        }
        if among(ids, n, t) {
            let j = choose|j: int| 0 <= j < n && ids[j] == t;
            assert(0 <= j < n + 1 && ids[j] == t);
        }
        if t == id {
            assert(0 <= n < n + 1 && ids[n] == t);
        }
    }
    assert forall|x: int, y: int| v.inside(x, y) implies #[trigger] next.cells[x][y] == (if v.cells[x][y] is Some
        && among(ids, n + 1, v.cells[x][y]->0) {
        None
    } else {
        v.cells[x][y]
    }) by {
        assert(w.inside(x, y));
        let held = w.cells[x][y];
        if v.cells[x][y] is Some {
            let t = v.cells[x][y]->0;
            assert(among(ids, n + 1, t) <==> among(ids, n, t) || t == id);
        }
    }
    assert forall|t: usize| t < v.tiles.len() implies #[trigger] next.tiles[t as int] == (if among(ids, n + 1, t) {
        None
    } else {
        v.tiles[t as int]
    }) by {
        assert(among(ids, n + 1, t) <==> among(ids, n, t) || t == id);
        assert(w.tiles[t as int] == (if among(ids, n, t) {
            None
        } else {
            v.tiles[t as int]
        }));
    }
}

proof fn lemma_destroyed_all(v: BoardView, w: BoardView)
    requires
        v.wf(),
        destroyed_first(v, w, v.marked_ids(), v.marked_ids().len() as int),
    ensures
        w == v.without_marked(),
{
    let ids = v.marked_ids();
    lemma_marked_below(v, v.tiles.len() as int);
    assert forall|t: usize| among(ids, ids.len() as int, t) <==> v.marked(t) by {
        if among(ids, ids.len() as int, t) {
            let j = choose|j: int| 0 <= j < ids.len() && ids[j] == t;
            assert(v.marked(ids[j]));
        }
        if v.marked(t) {
            assert(ids.contains(t));
            let j = choose|j: int| 0 <= j < ids.len() && ids[j] == t;
            assert(0 <= j < ids.len() && ids[j] == t);
        }
    }
    let target = v.without_marked();
    assert forall|x: int| 0 <= x < w.cells.len() implies #[trigger] w.cells[x] =~= target.cells[x] by {
        assert(w.cells[x].len() == v.height());
        assert(v.cells[x].len() == v.height());
        assert forall|y: int| 0 <= y < v.height() implies w.cells[x][y] == target.cells[x][y] by {
            assert(v.inside(x, y));
            if v.cells[x][y] is Some {
                let t = v.cells[x][y]->0;
                assert(among(ids, ids.len() as int, t) <==> v.marked(t));
            }
        }
    }
    assert(w.cells =~= target.cells);
    assert forall|t: int| 0 <= t < w.tiles.len() implies w.tiles[t] == target.tiles[t] by {
        assert(among(ids, ids.len() as int, t as usize) <==> v.marked(t as usize));
        assert(w.tiles[(t as usize) as int] == w.tiles[t]);
    }
    assert(w.tiles =~= target.tiles);
}

/// Judges the marked tiles. Fewer than three are no match, whatever they
/// look like. Three or more are a match when their colours are all the same
/// or all different, and so are their shapes; then every marked tile is
/// destroyed and its cell is emptied. Without a match nothing changes, and
/// the marks stay. Returns the tiles that were destroyed.
pub fn check_match(board: &mut Board) -> (destroyed: Vec<usize>)
    requires
        old(board).wf(),
    ensures
        final(board).wf(),
        final(board)@ == old(board)@.resolve(),
        destroyed@ == (if old(board)@.has_match() {
            old(board)@.marked_ids()
        } else {
            Seq::empty()
        }),
        old(board)@.marked_ids().len() < MATCH_SIZE ==> final(board)@ == old(board)@ && destroyed@.len() == 0,
        old(board)@.synchronized() ==> final(board)@.synchronized(),
        forall|id: usize|
            old(board)@.has_match() && old(board)@.marked(id) && old(board)@.placed(id)
                ==> final(board)@.occupant(old(board)@.tile(id).position) is None,
{
    let ghost start = board@;
    let ids = marked_tiles(board);
    proof {
        lemma_marked_below(start, start.tiles.len() as int);
        lemma_without_marked_keeps(start);
    }
    let mut colors: Vec<Color> = Vec::new();
    let mut shapes: Vec<Shape> = Vec::new();
    let mut i: usize = 0;
    while i < ids.len()
        invariant
            i <= ids.len(),
            board@ == start,
            ids@ == start.marked_ids(),
            forall|j: int| 0 <= j < ids@.len() ==> start.marked(#[trigger] ids@[j]),
            colors@.len() == i,
            shapes@.len() == i,
            forall|j: int| 0 <= j < i ==> colors@[j] == start.tile(ids@[j]).color,
            forall|j: int| 0 <= j < i ==> shapes@[j] == start.tile(ids@[j]).shape,
        decreases ids.len() - i,
    {
        assert(start.marked(ids@[i as int]));
        match board.tile(ids[i]) {
            Some(tile) => {
                colors.push(tile.color);
                shapes.push(tile.shape);
            },
            None => {},
        }
        i += 1;
    }
    proof {
        assert(colors@ =~= start.marked_colors());
        assert(shapes@ =~= start.marked_shapes());
    }
    if !is_match(&colors, &shapes) {
        return Vec::new();
    }
    let mut k: usize = 0;
    while k < ids.len()
        invariant
            k <= ids.len(),
            start.wf(),
            board.wf(),
            ids@ == start.marked_ids(),
            forall|j: int| 0 <= j < ids@.len() ==> start.marked(#[trigger] ids@[j]),
            destroyed_first(start, board@, ids@, k as int),
        decreases ids.len() - k,
    {
        proof {
            assert(start.marked(ids@[k as int]));
            lemma_destroy_next(start, board@, ids@, k as int);
        }
        board.destroy_tile(ids[k]);
        k += 1;
    }
    proof {
        lemma_destroyed_all(start, board@);
    }
    ids
}

} // verus!
