use vstd::prelude::*;
use crate::ship::{Pos, pos_of, line, Direction, Ship, ShipView, PlacementError};

verus! {

pub const ROWS: usize = 6;
pub const COLS: usize = 9;

/// The state of one grid cell.
#[derive(Clone, Copy, PartialEq, Eq, Debug, Structural)]
pub enum Cell {
    Empty,
    Ship(u32),
    Hit,
    Miss,
}

/// Why a shot is refused.
#[derive(Clone, Copy, PartialEq, Eq, Debug, Structural)]
pub enum ShotError {
    OutOfBounds,
    AlreadyTargeted,
}

/// What an applied shot did.
#[derive(Clone, Copy, PartialEq, Eq, Debug, Structural)]
pub enum ShotResult {
    Hit { ship_id: u32, sunk: bool },
    Miss,
}

pub open spec fn in_bounds(p: Pos) -> bool {
    0 <= p.0 < ROWS && 0 <= p.1 < COLS
}

/// Where a cell is stored in the row-major grid.
pub open spec fn index_of(p: Pos) -> int {
    p.0 * COLS + p.1
}

/// A cell that has been shot at: such a cell never changes again.
pub open spec fn is_targeted(c: Cell) -> bool {
    c is Hit || c is Miss
}

pub open spec fn all_in_bounds(cells: Seq<Pos>) -> bool {
    forall|i: int| 0 <= i < cells.len() ==> in_bounds(#[trigger] cells[i])
}

/// What the opponent sees of a cell: ship markers on cells not yet shot stay hidden.
pub open spec fn visible(c: Cell, reveal: bool) -> Cell {
    if !reveal && c is Ship {
        Cell::Empty
    } else {
        c
    }
}

/// How many cells of `cells` are not marked `Hit` on grid `g`.
pub open spec fn unhit_count(cells: Seq<Pos>, g: Seq<Cell>) -> nat
    decreases cells.len(),
{
    if cells.len() == 0 {
        0
    } else {
        unhit_count(cells.drop_last(), g) + if g[index_of(cells.last())] != Cell::Hit { 1nat } else { 0nat }
    }
}

/// The count depends only on the grid at the listed cells.
proof fn lemma_unhit_frame(cells: Seq<Pos>, g1: Seq<Cell>, g2: Seq<Cell>)
    requires
        forall|i: int| 0 <= i < cells.len() ==> g1[index_of(#[trigger] cells[i])] == g2[index_of(cells[i])],
    ensures
        unhit_count(cells, g1) == unhit_count(cells, g2),
    decreases cells.len(),
{
    if cells.len() > 0 {
        let c = cells.drop_last();
        assert forall|i: int| 0 <= i < c.len() implies g1[index_of(#[trigger] c[i])] == g2[index_of(c[i])] by {
            assert(c[i] == cells[i]);
        }
        lemma_unhit_frame(c, g1, g2);
        assert(cells.last() == cells[cells.len() - 1]);
    }
}

/// Cells all showing a ship marker are all counted.
proof fn lemma_unhit_none_hit(cells: Seq<Pos>, g: Seq<Cell>)
    requires
        forall|i: int| 0 <= i < cells.len() ==> (#[trigger] g[index_of(cells[i])]) is Ship,
    ensures
        unhit_count(cells, g) == cells.len(),
    decreases cells.len(),
{
    if cells.len() > 0 {
        let c = cells.drop_last();
        assert forall|i: int| 0 <= i < c.len() implies (#[trigger] g[index_of(c[i])]) is Ship by {
            assert(c[i] == cells[i]);
        }
        lemma_unhit_none_hit(c, g);
        assert(g[index_of(cells[cells.len() - 1])] is Ship);
    }
}

/// The count is zero exactly when every listed cell is marked `Hit`.
proof fn lemma_unhit_zero(cells: Seq<Pos>, g: Seq<Cell>)
    ensures
        unhit_count(cells, g) == 0 <==> forall|i: int| 0 <= i < cells.len() ==> g[index_of(#[trigger] cells[i])] == Cell::Hit,
    decreases cells.len(),
{
    if cells.len() > 0 {
        let c = cells.drop_last();
        lemma_unhit_zero(c, g);
        if unhit_count(cells, g) == 0 {
            assert forall|i: int| 0 <= i < cells.len() implies g[index_of(#[trigger] cells[i])] == Cell::Hit by {
                if i < c.len() {
                    assert(c[i] == cells[i]);
                }
            }
        } else if forall|i: int| 0 <= i < cells.len() ==> g[index_of(#[trigger] cells[i])] == Cell::Hit {
            assert forall|i: int| 0 <= i < c.len() implies g[index_of(#[trigger] c[i])] == Cell::Hit by {
                assert(c[i] == cells[i]);
            }
            assert(g[index_of(cells[cells.len() - 1])] == Cell::Hit);
        }
    }
}

/// Hitting one listed cell not yet hit takes exactly one off the count.
proof fn lemma_unhit_hit_one(cells: Seq<Pos>, g: Seq<Cell>, j: int)
    requires
        all_in_bounds(cells),
        forall|a: int, b: int| 0 <= a < cells.len() && 0 <= b < cells.len() && a != b
            ==> #[trigger] cells[a] != #[trigger] cells[b],
        0 <= j < cells.len(),
        g.len() == ROWS * COLS,
        g[index_of(cells[j])] != Cell::Hit,
    ensures
        unhit_count(cells, g.update(index_of(cells[j]), Cell::Hit)) + 1 == unhit_count(cells, g),
    decreases cells.len(),
{
    let g2 = g.update(index_of(cells[j]), Cell::Hit);
    let n = cells.len() - 1;
    let c = cells.drop_last();
    lemma_index_in_grid(cells[j]);
    if j == n {
        assert forall|i: int| 0 <= i < c.len() implies g[index_of(#[trigger] c[i])] == g2[index_of(c[i])] by {
            assert(c[i] == cells[i]);
            if index_of(cells[i]) == index_of(cells[j]) {
                lemma_index_injective(cells[i], cells[j]);
            }
        }
        lemma_unhit_frame(c, g, g2);
    } else {
        assert forall|a: int, b: int| 0 <= a < c.len() && 0 <= b < c.len() && a != b
            implies #[trigger] c[a] != #[trigger] c[b] by {
            assert(cells[a] != cells[b]);
        }
        assert(c[j] == cells[j]);
        lemma_unhit_hit_one(c, g, j);
        if index_of(cells[n]) == index_of(cells[j]) {
            lemma_index_injective(cells[n], cells[j]);
        }
        assert(g2[index_of(cells.last())] == g[index_of(cells.last())]);
    }
}

/// On a well-formed board every ship is sunk exactly when every ship cell is hit.
pub proof fn lemma_all_sunk_iff_all_hit(b: BoardView)
    requires
        b.wf(),
    ensures
        b.all_sunk() <==> forall|k: int, i: int| 0 <= k < b.ships.len() && 0 <= i < b.ships[k].cells.len()
            ==> b.at(#[trigger] b.ships[k].cells[i]) == Cell::Hit,
{
    assert forall|k: int| 0 <= k < b.ships.len() implies ((#[trigger] b.ships[k]).sunk() <==> forall|i: int|
        0 <= i < b.ships[k].cells.len() ==> b.at(#[trigger] b.ships[k].cells[i]) == Cell::Hit) by {
        lemma_unhit_zero(b.ships[k].cells, b.grid);
    }
}

/// Two in-bounds positions share a grid slot only if they are equal.
pub proof fn lemma_index_injective(p: Pos, q: Pos)
    requires
        in_bounds(p),
        in_bounds(q),
        index_of(p) == index_of(q),
    ensures
        p == q,
{
}

pub proof fn lemma_index_in_grid(p: Pos)
    requires
        in_bounds(p),
    ensures
        0 <= index_of(p) < ROWS * COLS,
{
}

/// A board as the grid of cell states and the placed ships, in placement order.
pub ghost struct BoardView {
    pub grid: Seq<Cell>,
    pub ships: Seq<ShipView>,
}

impl BoardView {
    pub open spec fn at(self, p: Pos) -> Cell {
        self.grid[index_of(p)]
    }

    /// Ship `k` covers position `p`.
    pub open spec fn occupies(self, k: int, p: Pos) -> bool {
        0 <= k < self.ships.len() && self.ships[k].cells.contains(p)
    }

    /// Every cell of the ship is in bounds and still empty.
    pub open spec fn fits_empty(self, s: ShipView) -> bool {
        &&& all_in_bounds(s.cells)
        &&& forall|i: int| 0 <= i < s.cells.len() ==> self.at(#[trigger] s.cells[i]) == Cell::Empty
    }

    /// `next` is this grid with every cell of `s` marked with its identifier.
    pub open spec fn marked(self, s: ShipView, next: Seq<Cell>) -> bool {
        &&& next.len() == self.grid.len()
        &&& forall|i: int| 0 <= i < s.cells.len() ==> next[index_of(#[trigger] s.cells[i])] == Cell::Ship(s.id)
        &&& forall|p: int|
            0 <= p < next.len() && (forall|i: int| 0 <= i < s.cells.len() ==> index_of(#[trigger] s.cells[i]) != p)
                ==> #[trigger] next[p] == self.grid[p]
    }

    /// What placing ship `s` that returned `r` did, taking this board to `after`.
    pub open spec fn place_effect(self, s: ShipView, r: Result<(), PlacementError>, after: BoardView) -> bool {
        &&& r == Err::<(), PlacementError>(PlacementError::OutOfBounds) <==> !all_in_bounds(s.cells)
        &&& r == Err::<(), PlacementError>(PlacementError::Collision) <==> all_in_bounds(s.cells)
            && !self.fits_empty(s)
        &&& r is Ok <==> self.fits_empty(s)
        &&& r is Err ==> after == self
        &&& r is Ok ==> {
            &&& after.ships == self.ships.push(s)
            &&& self.marked(s, after.grid)
        }
    }

    /// What a shot at `p` that returned `r` did, taking this board to `after`.
    pub open spec fn shot_effect(self, p: Pos, r: Result<ShotResult, ShotError>, after: BoardView) -> bool {
        &&& r == Err::<ShotResult, ShotError>(ShotError::OutOfBounds) <==> !in_bounds(p)
        &&& r == Err::<ShotResult, ShotError>(ShotError::AlreadyTargeted) <==> in_bounds(p)
            && is_targeted(self.at(p))
        &&& r is Err <==> !in_bounds(p) || is_targeted(self.at(p))
        &&& r is Err ==> after == self
        &&& r == Ok::<ShotResult, ShotError>(ShotResult::Miss) <==> {
            &&& in_bounds(p)
            &&& !is_targeted(self.at(p))
            &&& forall|k: int| !#[trigger] self.occupies(k, p)
        }
        &&& r == Ok::<ShotResult, ShotError>(ShotResult::Miss) ==> {
            &&& after.grid == self.grid.update(index_of(p), Cell::Miss)
            &&& after.ships == self.ships
        }
        &&& r matches Ok(ShotResult::Hit { ship_id, sunk }) ==> {
            &&& after.grid == self.grid.update(index_of(p), Cell::Hit)
            &&& forall|k: int| #[trigger] self.occupies(k, p) ==> {
                &&& self.ships[k].hp > 0
                &&& after.ships == self.ships.update(k, self.ships[k].hit())
                &&& ship_id == self.ships[k].id
                &&& sunk == after.ships[k].sunk()
            }
        }
    }

    pub open spec fn all_sunk(self) -> bool {
        forall|k: int| 0 <= k < self.ships.len() ==> (#[trigger] self.ships[k]).sunk()
    }

    /// The board invariant:
    /// the grid has its fixed size; each ship is well formed and lies in bounds;
    /// each ship cell shows that ship's marker or a hit; no two ships share a cell;
    /// each marker on the grid stands on a cell of a ship with that identifier;
    /// and each ship has as many hit points as cells not yet hit.
    pub open spec fn wf(self) -> bool {
        &&& self.grid.len() == ROWS * COLS
        &&& forall|k: int| 0 <= k < self.ships.len() ==> (#[trigger] self.ships[k]).wf()
        &&& forall|k: int| 0 <= k < self.ships.len()
            ==> (#[trigger] self.ships[k]).hp == unhit_count(self.ships[k].cells, self.grid)
        &&& forall|k: int, i: int|
            0 <= k < self.ships.len() && 0 <= i < self.ships[k].cells.len() ==> {
                let p = #[trigger] self.ships[k].cells[i];
                &&& in_bounds(p)
                &&& (self.at(p) == Cell::Ship(self.ships[k].id) || self.at(p) == Cell::Hit)
            }
        &&& forall|k1: int, k2: int, i: int, j: int|
            0 <= k1 < self.ships.len() && 0 <= k2 < self.ships.len() && k1 != k2
                && 0 <= i < self.ships[k1].cells.len() && 0 <= j < self.ships[k2].cells.len()
                ==> #[trigger] self.ships[k1].cells[i] != #[trigger] self.ships[k2].cells[j]
        &&& forall|p: int|
            0 <= p < self.grid.len() && (#[trigger] self.grid[p]) is Ship ==> exists|k: int, i: int|
                0 <= k < self.ships.len() && 0 <= i < self.ships[k].cells.len()
                    && index_of(#[trigger] self.ships[k].cells[i]) == p
                    && self.grid[p] == Cell::Ship(self.ships[k].id)
    }
}

/// Marking the cells of a well-formed ship that fits on empty cells keeps the board invariant.
proof fn lemma_place_keeps_wf(before: BoardView, s: ShipView, after: BoardView)
    requires
        before.wf(),
        s.wf(),
        s.hp == s.cells.len(),
        before.fits_empty(s),
        before.marked(s, after.grid),
        after.ships == before.ships.push(s),
    ensures
        after.wf(),
{
    let n = before.ships.len();
    assert forall|k: int, i: int|
        0 <= k < after.ships.len() && 0 <= i < after.ships[k].cells.len() implies {
            let p = #[trigger] after.ships[k].cells[i];
            &&& in_bounds(p)
            &&& (after.at(p) == Cell::Ship(after.ships[k].id) || after.at(p) == Cell::Hit)
        } by {
        let p = after.ships[k].cells[i];
        if k < n {
            assert(before.ships[k].cells[i] == p);
            assert forall|j: int| 0 <= j < s.cells.len() implies index_of(#[trigger] s.cells[j]) != index_of(p) by {
                if index_of(s.cells[j]) == index_of(p) {
                    lemma_index_injective(s.cells[j], p);
                    assert(before.at(s.cells[j]) == Cell::Empty);
                }
            }
            lemma_index_in_grid(p);
            assert(after.grid[index_of(p)] == before.grid[index_of(p)]);
        } else {
            assert(s.cells[i] == p);
        }
    }
    assert forall|k1: int, k2: int, i: int, j: int|
        0 <= k1 < after.ships.len() && 0 <= k2 < after.ships.len() && k1 != k2
            && 0 <= i < after.ships[k1].cells.len() && 0 <= j < after.ships[k2].cells.len()
            implies #[trigger] after.ships[k1].cells[i] != #[trigger] after.ships[k2].cells[j] by {
        if k1 == n {
            let q = before.ships[k2].cells[j];
            assert(before.at(s.cells[i]) == Cell::Empty);
            assert(before.at(q) == Cell::Ship(before.ships[k2].id) || before.at(q) == Cell::Hit);
        } else if k2 == n {
            let q = before.ships[k1].cells[i];
            assert(before.at(s.cells[j]) == Cell::Empty);
            assert(before.at(q) == Cell::Ship(before.ships[k1].id) || before.at(q) == Cell::Hit);
        } else {
            assert(before.ships[k1].cells[i] != before.ships[k2].cells[j]);
        }
    }
    assert forall|p: int| 0 <= p < after.grid.len() && (#[trigger] after.grid[p]) is Ship implies exists|k: int, i: int|
        0 <= k < after.ships.len() && 0 <= i < after.ships[k].cells.len()
            && index_of(#[trigger] after.ships[k].cells[i]) == p
            && after.grid[p] == Cell::Ship(after.ships[k].id) by {
        if exists|j: int| 0 <= j < s.cells.len() && index_of(#[trigger] s.cells[j]) == p {
            let j = choose|j: int| 0 <= j < s.cells.len() && index_of(#[trigger] s.cells[j]) == p;
            assert(after.ships[n as int].cells[j] == s.cells[j]);
        } else {
            assert(after.grid[p] == before.grid[p]);
            let (k, i) = choose|k: int, i: int|
                0 <= k < before.ships.len() && 0 <= i < before.ships[k].cells.len()
                    && index_of(#[trigger] before.ships[k].cells[i]) == p
                    && before.grid[p] == Cell::Ship(before.ships[k].id);
            assert(after.ships[k].cells[i] == before.ships[k].cells[i]);
        }
    }
    assert forall|k: int| 0 <= k < after.ships.len() implies (#[trigger] after.ships[k]).wf()
        && after.ships[k].hp == unhit_count(after.ships[k].cells, after.grid) by {
        let cells = after.ships[k].cells;
        if k < n {
            assert(after.ships[k] == before.ships[k]);
            assert forall|i: int| 0 <= i < cells.len() implies before.grid[index_of(#[trigger] cells[i])]
                == after.grid[index_of(cells[i])] by {
                assert(cells[i] == after.ships[k].cells[i]);
            }
            lemma_unhit_frame(cells, before.grid, after.grid);
        } else {
            assert(cells == s.cells);
            lemma_unhit_none_hit(cells, after.grid);
        }
    }
}

/// On a well-formed board at most one ship covers a position.
proof fn lemma_sole_occupant(b: BoardView, k: int, p: Pos)
    requires
        b.wf(),
        b.occupies(k, p),
    ensures
        forall|j: int| #[trigger] b.occupies(j, p) ==> j == k,
{
    assert forall|j: int| #[trigger] b.occupies(j, p) implies j == k by {
        if j != k {
            let i = choose|i: int| 0 <= i < b.ships[k].cells.len() && b.ships[k].cells[i] == p;
            let i2 = choose|i2: int| 0 <= i2 < b.ships[j].cells.len() && b.ships[j].cells[i2] == p;
            assert(b.ships[k].cells[i] != b.ships[j].cells[i2]);
        }
    }
}

/// Marking an untargeted in-bounds cell `Hit` or `Miss` keeps the board invariant,
/// provided no ship covers a cell marked `Miss` and the ship covering a cell
/// marked `Hit` takes a hit while the others stay as they were. That ship had
/// hit points left.
proof fn lemma_target_keeps_wf(before: BoardView, p: Pos, mark: Cell, after: BoardView)
    requires
        before.wf(),
        in_bounds(p),
        is_targeted(mark),
        !is_targeted(before.at(p)),
        mark == Cell::Miss ==> forall|k: int| !#[trigger] before.occupies(k, p),
        after.grid == before.grid.update(index_of(p), mark),
        after.ships.len() == before.ships.len(),
        forall|k: int| 0 <= k < after.ships.len() ==> #[trigger] after.ships[k] == if before.occupies(k, p) {
            before.ships[k].hit()
        } else {
            before.ships[k]
        },
    ensures
        after.wf(),
        forall|k: int| #[trigger] before.occupies(k, p) ==> before.ships[k].hp > 0,
{
    lemma_index_in_grid(p);
    assert forall|k: int| 0 <= k < after.ships.len() implies (#[trigger] after.ships[k]).hp == unhit_count(after.ships[k].cells, after.grid)
        && (before.occupies(k, p) ==> before.ships[k].hp > 0) by {
        let cells = before.ships[k].cells;
        if before.occupies(k, p) {
            let j = choose|j: int| 0 <= j < cells.len() && cells[j] == p;
            assert(mark == Cell::Hit);
            lemma_unhit_hit_one(cells, before.grid, j);
        } else {
            assert forall|i: int| 0 <= i < cells.len() implies before.grid[index_of(#[trigger] cells[i])]
                == after.grid[index_of(cells[i])] by {
                if index_of(cells[i]) == index_of(p) {
                    lemma_index_injective(cells[i], p);
                    assert(before.occupies(k, p));
                }
            }
            lemma_unhit_frame(cells, before.grid, after.grid);
        }
    }
    assert forall|k: int| #[trigger] before.occupies(k, p) implies before.ships[k].hp > 0 by {
        assert(after.ships[k].hp == unhit_count(after.ships[k].cells, after.grid));
    }
    assert forall|k: int, i: int|
        0 <= k < after.ships.len() && 0 <= i < after.ships[k].cells.len() implies {
            let q = #[trigger] after.ships[k].cells[i];
            &&& in_bounds(q)
            &&& (after.at(q) == Cell::Ship(after.ships[k].id) || after.at(q) == Cell::Hit)
        } by {
        let q = after.ships[k].cells[i];
        assert(before.ships[k].cells[i] == q);
        if index_of(q) == index_of(p) {
            lemma_index_injective(q, p);
            if mark == Cell::Miss {
                assert(before.occupies(k, p));
            }
        }
    }
    assert forall|k1: int, k2: int, i: int, j: int|
        0 <= k1 < after.ships.len() && 0 <= k2 < after.ships.len() && k1 != k2
            && 0 <= i < after.ships[k1].cells.len() && 0 <= j < after.ships[k2].cells.len()
            implies #[trigger] after.ships[k1].cells[i] != #[trigger] after.ships[k2].cells[j] by {
        assert(before.ships[k1].cells[i] != before.ships[k2].cells[j]);
    }
    assert forall|q: int| 0 <= q < after.grid.len() && (#[trigger] after.grid[q]) is Ship implies exists|k: int, i: int|
        0 <= k < after.ships.len() && 0 <= i < after.ships[k].cells.len()
            && index_of(#[trigger] after.ships[k].cells[i]) == q
            && after.grid[q] == Cell::Ship(after.ships[k].id) by {
        assert(after.grid[q] == before.grid[q]);
        let (k, i) = choose|k: int, i: int|
            0 <= k < before.ships.len() && 0 <= i < before.ships[k].cells.len()
                && index_of(#[trigger] before.ships[k].cells[i]) == q
                && before.grid[q] == Cell::Ship(before.ships[k].id);
        assert(after.ships[k].cells[i] == before.ships[k].cells[i]);
    }
}

/// The number of cells of a grid that have been shot at.
pub open spec fn targeted_count(g: Seq<Cell>) -> nat
    decreases g.len(),
{
    if g.len() == 0 {
        0
    } else {
        targeted_count(g.drop_last()) + if is_targeted(g.last()) { 1nat } else { 0nat }
    }
}

/// Marking one cell not yet shot at as shot adds exactly one to the count.
pub proof fn lemma_mark_adds_one(g: Seq<Cell>, i: int, v: Cell)
    requires
        0 <= i < g.len(),
        !is_targeted(g[i]),
        is_targeted(v),
    ensures
        targeted_count(g.update(i, v)) == targeted_count(g) + 1,
    decreases g.len(),
{
    let h = g.update(i, v);
    if i == g.len() - 1 {
        assert(h.drop_last() =~= g.drop_last());
    } else {
        assert(h.drop_last() =~= g.drop_last().update(i, v));
        lemma_mark_adds_one(g.drop_last(), i, v);
    }
}

/// A ship freshly laid and placed has as many hit points as cells.
pub proof fn lemma_placed_ship_full_health(
    before: BoardView,
    anchor: Pos,
    dir: Direction,
    len: nat,
    s: ShipView,
    after: BoardView,
)
    requires
        before.wf(),
        s.cells == line(anchor, dir, len),
        s.hp == len,
        before.place_effect(s, Ok(()), after),
    ensures
        after.ships.last() == s,
        after.ships.last().hp == after.ships.last().cells.len(),
        after.ships.last().hp == len,
{
}

/// Placing a ship that lies on the grid but shares a cell with a ship already
/// placed fails with `Collision` and leaves the board unchanged.
pub proof fn lemma_overlap_collides(
    before: BoardView,
    s: ShipView,
    r: Result<(), PlacementError>,
    after: BoardView,
    k: int,
    i: int,
    j: int,
)
    requires
        before.wf(),
        all_in_bounds(s.cells),
        0 <= k < before.ships.len(),
        0 <= i < before.ships[k].cells.len(),
        0 <= j < s.cells.len(),
        before.ships[k].cells[i] == s.cells[j],
        before.place_effect(s, r, after),
    ensures
        r == Err::<(), PlacementError>(PlacementError::Collision),
        after == before,
{
    let q = before.ships[k].cells[i];
    assert(before.at(q) == Cell::Ship(before.ships[k].id) || before.at(q) == Cell::Hit);
    assert(before.at(s.cells[j]) != Cell::Empty);
}

/// After a run of applied shots, each at a cell not yet shot at, exactly one
/// more cell per shot is marked `Hit` or `Miss`, each target is marked, and
/// every other cell keeps its state.
pub proof fn lemma_shots_mark_exactly(
    boards: Seq<BoardView>,
    targets: Seq<Pos>,
    results: Seq<Result<ShotResult, ShotError>>,
)
    requires
        boards.len() == targets.len() + 1,
        results.len() == targets.len(),
        boards[0].grid.len() == ROWS * COLS,
        forall|k: int| 0 <= k < targets.len() ==> (#[trigger] results[k]) is Ok
            && boards[k].shot_effect(targets[k], results[k], boards[k + 1]),
    ensures
        boards.last().grid.len() == boards[0].grid.len(),
        targeted_count(boards.last().grid) == targeted_count(boards[0].grid) + targets.len(),
        forall|k: int| 0 <= k < targets.len() ==> is_targeted(boards.last().at(#[trigger] targets[k])),
        forall|p: int|
            0 <= p < boards[0].grid.len() && (forall|k: int| 0 <= k < targets.len() ==> index_of(#[trigger] targets[k]) != p)
                ==> #[trigger] boards.last().grid[p] == boards[0].grid[p],
    decreases targets.len(),
{
    let n = targets.len() as int;
    if n > 0 {
        let bs = boards.drop_last();
        let ts = targets.drop_last();
        let rs = results.drop_last();
        assert forall|k: int| 0 <= k < ts.len() implies (#[trigger] rs[k]) is Ok
            && bs[k].shot_effect(ts[k], rs[k], bs[k + 1]) by {
            assert(results[k] is Ok && boards[k].shot_effect(targets[k], results[k], boards[k + 1]));
        }
        lemma_shots_mark_exactly(bs, ts, rs);
        let prev = boards[n - 1];
        let last = boards[n];
        let t = targets[n - 1];
        assert(results[n - 1] is Ok && prev.shot_effect(t, results[n - 1], last));
        lemma_index_in_grid(t);
        let mark = if results[n - 1] == Ok::<ShotResult, ShotError>(ShotResult::Miss) { Cell::Miss } else { Cell::Hit };
        assert(last.grid == prev.grid.update(index_of(t), mark));
        lemma_mark_adds_one(prev.grid, index_of(t), mark);
        assert forall|k: int| 0 <= k < targets.len() implies is_targeted(boards.last().at(#[trigger] targets[k])) by {
            if k < n - 1 {
                assert(is_targeted(prev.at(ts[k])));
                assert(results[k] is Ok && boards[k].shot_effect(targets[k], results[k], boards[k + 1]));
                lemma_index_in_grid(targets[k]);
            }
        }
        assert forall|p: int|
            0 <= p < boards[0].grid.len() && (forall|k: int| 0 <= k < targets.len() ==> index_of(#[trigger] targets[k]) != p)
                implies #[trigger] boards.last().grid[p] == boards[0].grid[p] by {
            assert(index_of(targets[n - 1]) != p);
            assert forall|k: int| 0 <= k < ts.len() implies index_of(#[trigger] ts[k]) != p by {
                assert(index_of(targets[k]) != p);
            }
        }
    }
}

/// A cell once shot at keeps its state through any placement.
pub proof fn lemma_placement_keeps_shots(before: BoardView, s: ShipView, r: Result<(), PlacementError>, after: BoardView)
    requires
        before.wf(),
        before.place_effect(s, r, after),
    ensures
        forall|q: int| 0 <= q < before.grid.len() && is_targeted(#[trigger] before.grid[q]) ==> after.grid[q] == before.grid[q],
{
    if r is Ok {
        assert forall|q: int| 0 <= q < before.grid.len() && is_targeted(#[trigger] before.grid[q]) implies after.grid[q]
            == before.grid[q] by {
            assert forall|i: int| 0 <= i < s.cells.len() implies index_of(#[trigger] s.cells[i]) != q by {
                assert(before.at(s.cells[i]) == Cell::Empty);
            }
        }
    }
}

/// A cell once shot at keeps its state through any further shot.
pub proof fn lemma_shot_keeps_shots(before: BoardView, p: Pos, r: Result<ShotResult, ShotError>, after: BoardView)
    requires
        before.wf(),
        before.shot_effect(p, r, after),
    ensures
        forall|q: int| 0 <= q < before.grid.len() && is_targeted(#[trigger] before.grid[q]) ==> after.grid[q] == before.grid[q],
{
}

/// One player's grid and the ships placed on it.
pub struct Board {
    grid: Vec<Cell>,
    placed_ships: Vec<Ship>,
}

impl View for Board {
    type V = BoardView;

    closed spec fn view(&self) -> BoardView {
        BoardView { grid: self.grid@, ships: self.placed_ships@.map_values(|s: Ship| s@) }
    }
}

impl Board {
    pub open spec fn wf(&self) -> bool {
        self@.wf()
    }

    /// An empty board: every cell `Empty`, no ships.
    pub fn new() -> (r: Board)
        ensures
            r.wf(),
            r@.ships.len() == 0,
            forall|p: int| 0 <= p < ROWS * COLS ==> #[trigger] r@.grid[p] == Cell::Empty,
    {
        let mut grid: Vec<Cell> = Vec::new();
        let mut i: usize = 0;
        while i < ROWS * COLS
            invariant
                i <= ROWS * COLS,
                grid@.len() == i,
                forall|p: int| 0 <= p < i ==> #[trigger] grid@[p] == Cell::Empty,
            decreases ROWS * COLS - i,
        {
            grid.push(Cell::Empty);
            i = i + 1;
        }
        let b = Board { grid, placed_ships: Vec::new() };
        assert(b@.ships.len() == 0);
        b
    }

    /// Places a ship. Fails with `OutOfBounds` when one of its cells lies off
    /// the grid, else with `Collision` when one of its cells is not empty;
    /// a failed placement changes nothing. On success every cell of the ship
    /// carries its marker and the ship joins the board's fleet.
    pub fn place_ship(&mut self, ship: Ship) -> (r: Result<(), PlacementError>)
        requires
            old(self).wf(),
            ship@.hp == ship@.cells.len(),
        ensures
            final(self).wf(),
            old(self)@.place_effect(ship@, r, final(self)@),
    {
        let ghost s = ship@;
        proof {
            use_type_invariant(&ship);
        }
        let n = ship.len();
        let mut i: usize = 0;
        while i < n
            invariant
                n == s.cells.len(),
                s == ship@,
                i <= n,
                self@ == old(self)@,
                old(self)@.wf(),
                forall|k: int| 0 <= k < i ==> in_bounds(#[trigger] s.cells[k]),
            decreases n - i,
        {
            let c = ship.cell(i);
            if c[0] >= ROWS || c[1] >= COLS {
                return Err(PlacementError::OutOfBounds);
            }
            i = i + 1;
        }
        i = 0;
        while i < n
            invariant
                n == s.cells.len(),
                s == ship@,
                i <= n,
                all_in_bounds(s.cells),
                self@ == old(self)@,
                old(self)@.wf(),
                self@.grid.len() == ROWS * COLS,
                forall|k: int| 0 <= k < i ==> self@.at(#[trigger] s.cells[k]) == Cell::Empty,
            decreases n - i,
        {
            let c = ship.cell(i);
            proof {
                lemma_index_in_grid(s.cells[i as int]);
            }
            if self.grid[c[0] * COLS + c[1]] != Cell::Empty {
                return Err(PlacementError::Collision);
            }
            i = i + 1;
        }
        let ghost before = self@;
        let id = ship.id();
        i = 0;
        while i < n
            invariant
                n == s.cells.len(),
                s == ship@,
                i <= n,
                id == s.id,
                before.wf(),
                before.fits_empty(s),
                self.placed_ships@.map_values(|t: Ship| t@) == before.ships,
                self@.grid.len() == before.grid.len(),
                forall|k: int| 0 <= k < i ==> self@.grid[index_of(#[trigger] s.cells[k])] == Cell::Ship(id),
                forall|p: int|
                    0 <= p < before.grid.len() && (forall|k: int| 0 <= k < i ==> index_of(#[trigger] s.cells[k]) != p)
                        ==> #[trigger] self@.grid[p] == before.grid[p],
            decreases n - i,
        {
            let c = ship.cell(i);
            proof {
                lemma_index_in_grid(s.cells[i as int]);
            }
            self.grid.set(c[0] * COLS + c[1], Cell::Ship(id));
            proof {
                assert forall|p: int|
                    0 <= p < before.grid.len() && (forall|k: int| 0 <= k < i + 1 ==> index_of(#[trigger] s.cells[k]) != p)
                        implies #[trigger] self@.grid[p] == before.grid[p] by {
                    assert(index_of(s.cells[i as int]) != p);
                }
            }
            i = i + 1;
        }
        let ghost g = self@.grid;
        assert(before.marked(s, g));
        self.placed_ships.push(ship);
        let ghost after = self@;
        assert(after.ships =~= before.ships.push(s));
        proof {
            lemma_place_keeps_wf(before, s, after);
        }
        Ok(())
    }

    /// Fires at `cord`. Fails with `OutOfBounds` off the grid and with
    /// `AlreadyTargeted` on a cell already shot at; a refused shot changes
    /// nothing. Otherwise the cell becomes `Hit` when a ship covers it, and
    /// that ship loses a hit point, or `Miss` when none does.
    pub fn shoot(&mut self, cord: [usize; 2]) -> (r: Result<ShotResult, ShotError>)
        requires
            old(self).wf(),
        ensures
            final(self).wf(),
            old(self)@.shot_effect(pos_of(cord), r, final(self)@),
    {
        let ghost p = pos_of(cord);
        if cord[0] >= ROWS || cord[1] >= COLS {
            return Err(ShotError::OutOfBounds);
        }
        proof {
            lemma_index_in_grid(p);
        }
        let idx = cord[0] * COLS + cord[1];
        let cur = self.grid[idx];
        if cur == Cell::Hit || cur == Cell::Miss {
            return Err(ShotError::AlreadyTargeted);
        }
        let mut k: usize = 0;
        while k < self.placed_ships.len()
            invariant
                self@ == old(self)@,
                old(self)@.wf(),
                p == pos_of(cord),
                in_bounds(p),
                idx == index_of(p),
                !is_targeted(old(self)@.at(p)),
                k <= self.placed_ships@.len(),
                forall|j: int| 0 <= j < k ==> !#[trigger] old(self)@.occupies(j, p),
            decreases self.placed_ships@.len() - k,
        {
            if self.placed_ships[k].check_collision(&cord) {
                let ghost before = self@;
                assert(before.occupies(k as int, p));
                self.placed_ships[k].apply_hit();
                let sunk = self.placed_ships[k].is_sunk();
                let ship_id = self.placed_ships[k].id();
                self.grid.set(idx, Cell::Hit);
                let ghost after = self@;
                assert(after.ships =~= before.ships.update(k as int, before.ships[k as int].hit()));
                proof {
                    lemma_sole_occupant(before, k as int, p);
                    lemma_target_keeps_wf(before, p, Cell::Hit, after);
                }
                return Ok(ShotResult::Hit { ship_id, sunk });
            }
            k = k + 1;
        }
        self.grid.set(idx, Cell::Miss);
        proof {
            lemma_target_keeps_wf(old(self)@, p, Cell::Miss, self@);
        }
        Ok(ShotResult::Miss)
    }

    /// Whether every placed ship is sunk (true when no ship is placed).
    pub fn check_win(&self) -> (r: bool)
        ensures
            r == self@.all_sunk(),
    {
        let mut k: usize = 0;
        while k < self.placed_ships.len()
            invariant
                k <= self.placed_ships@.len(),
                forall|j: int| 0 <= j < k ==> (#[trigger] self@.ships[j]).sunk(),
            decreases self.placed_ships@.len() - k,
        {
            if !self.placed_ships[k].is_sunk() {
                assert(!self@.ships[k as int].sunk());
                return false;
            }
            k = k + 1;
        }
        true
    }

    /// A snapshot of the grid in row-major order. Without `reveal`, ship
    /// markers on cells not yet shot read as `Empty`.
    pub fn render(&self, reveal: bool) -> (r: Vec<Cell>)
        ensures
            r@.len() == self@.grid.len(),
            forall|p: int| 0 <= p < r@.len() ==> #[trigger] r@[p] == visible(self@.grid[p], reveal),
    {
        let mut out: Vec<Cell> = Vec::new();
        let mut i: usize = 0;
        while i < self.grid.len()
            invariant
                i <= self.grid@.len(),
                out@.len() == i,
                forall|p: int| 0 <= p < i ==> #[trigger] out@[p] == visible(self@.grid[p], reveal),
            decreases self.grid@.len() - i,
        {
            let c = self.grid[i];
            let shown = match c {
                Cell::Ship(_) => if reveal { c } else { Cell::Empty },
                _ => c,
            };
            out.push(shown);
            i = i + 1;
        }
        out
    }

    /// The state of the cell at `cord`, or `None` off the grid.
    pub fn cell_at(&self, cord: [usize; 2]) -> (r: Option<Cell>)
        requires
            self.wf(),
        ensures
            r == if in_bounds(pos_of(cord)) { Some(self@.at(pos_of(cord))) } else { None::<Cell> },
    {
        if cord[0] >= ROWS || cord[1] >= COLS {
            return None;
        }
        proof {
            lemma_index_in_grid(pos_of(cord));
        }
        Some(self.grid[cord[0] * COLS + cord[1]])
    }

    /// The number of ships placed.
    pub fn ship_count(&self) -> (r: usize)
        ensures
            r == self@.ships.len(),
    {
        self.placed_ships.len()
    }

    /// The `k`-th ship placed.
    pub fn ship(&self, k: usize) -> (r: &Ship)
        requires
            k < self@.ships.len(),
        ensures
            r@ == self@.ships[k as int],
    {
        &self.placed_ships[k]
    }
}

} // verus!
