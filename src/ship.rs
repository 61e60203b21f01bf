use vstd::prelude::*;

verus! {

/// A grid coordinate as a mathematical pair (row, column).
pub type Pos = (int, int);

/// The pair that a `[row, column]` coordinate stands for.
pub open spec fn pos_of(c: [usize; 2]) -> Pos {
    (c[0] as int, c[1] as int)
}

/// The direction in which a ship extends from its anchor.
#[derive(Clone, Copy, PartialEq, Eq, Debug, Structural)]
pub enum Direction {
    Up,
    Down,
    Left,
    Right,
}

/// Why a ship cannot be placed.
#[derive(Clone, Copy, PartialEq, Eq, Debug, Structural)]
pub enum PlacementError {
    OutOfBounds,
    Collision,
}

/// The `i`-th cell of a line of `len` cells laid from `anchor` along `dir`.
/// Cells are listed in increasing row (or column) order whatever the direction.
pub open spec fn line_cell(anchor: Pos, dir: Direction, len: int, i: int) -> Pos {
    match dir {
        Direction::Down => (anchor.0 + i, anchor.1),
        Direction::Up => (anchor.0 + 1 - len + i, anchor.1),
        Direction::Right => (anchor.0, anchor.1 + i),
        Direction::Left => (anchor.0, anchor.1 + 1 - len + i),
    }
}

/// The cells covered by a line of `len` cells laid from `anchor` along `dir`.
pub open spec fn line(anchor: Pos, dir: Direction, len: nat) -> Seq<Pos> {
    Seq::new(len, |i: int| line_cell(anchor, dir, len as int, i))
}

/// A coordinate component that an unsigned machine word can hold.
pub open spec fn fits_usize(x: int) -> bool {
    0 <= x <= usize::MAX
}

/// Every cell of the line has non-negative coordinates that fit a machine word,
/// and the length fits the hit point counter.
pub open spec fn line_fits(anchor: Pos, dir: Direction, len: nat) -> bool {
    &&& len <= u32::MAX
    &&& forall|i: int| 0 <= i < len ==> {
        let p = #[trigger] line_cell(anchor, dir, len as int, i);
        fits_usize(p.0) && fits_usize(p.1)
    }
}

/// What a ship is: the cells it covers, its identifier and its remaining hit points.
pub ghost struct ShipView {
    pub cells: Seq<Pos>,
    pub id: u32,
    pub hp: nat,
}

impl ShipView {
    /// Cells are pairwise distinct and hit points never exceed the length.
    pub open spec fn wf(self) -> bool {
        &&& self.hp <= self.cells.len()
        &&& forall|i: int, j: int|
            0 <= i < self.cells.len() && 0 <= j < self.cells.len() && i != j
                ==> #[trigger] self.cells[i] != #[trigger] self.cells[j]
    }

    /// The ship after one hit: one hit point less, never below zero.
    pub open spec fn hit(self) -> ShipView {
        ShipView { hp: if self.hp > 0 { (self.hp - 1) as nat } else { 0 }, ..self }
    }

    pub open spec fn sunk(self) -> bool {
        self.hp == 0
    }
}

/// One placed vessel.
#[derive(Debug)]
pub struct Ship {
    cords: Vec<[usize; 2]>,
    id: u32,
    hp: u32,
}

impl View for Ship {
    type V = ShipView;

    closed spec fn view(&self) -> ShipView {
        ShipView {
            cells: self.cords@.map_values(|c: [usize; 2]| pos_of(c)),
            id: self.id,
            hp: self.hp as nat,
        }
    }
}

/// The `i`-th cell of the line, computed without overflow.
fn line_cell_exec(cord: [usize; 2], direction: Direction, length: usize, i: usize) -> (r: [usize; 2])
    requires
        line_fits(pos_of(cord), direction, length as nat),
        i < length,
    ensures
        pos_of(r) == line_cell(pos_of(cord), direction, length as int, i as int),
{
    let ghost p = line_cell(pos_of(cord), direction, length as int, i as int);
    assert(fits_usize(p.0) && fits_usize(p.1));
    match direction {
        Direction::Down => [cord[0] + i, cord[1]],
        Direction::Up => {
            let ghost first = line_cell(pos_of(cord), direction, length as int, 0);
            assert(fits_usize(first.0));
            [cord[0] - (length - 1) + i, cord[1]]
        },
        Direction::Right => [cord[0], cord[1] + i],
        Direction::Left => {
            let ghost first = line_cell(pos_of(cord), direction, length as int, 0);
            assert(fits_usize(first.1));
            [cord[0], cord[1] - (length - 1) + i]
        },
    }
}

impl Ship {
    /// Every ship, however obtained, has distinct cells and no more hit points than cells.
    #[verifier::type_invariant]
    pub open spec fn inv(&self) -> bool {
        self@.wf()
    }

    /// Lays a ship of `length` cells from `cord` along `direction`.
    /// Fails with `OutOfBounds` when a cell would have a negative coordinate,
    /// or one beyond what a machine word holds, or when the length does not
    /// fit the hit point counter.
    pub fn new(cord: [usize; 2], direction: Direction, length: usize, id: u32) -> (r: Result<Ship, PlacementError>)
        ensures
            r is Ok <==> line_fits(pos_of(cord), direction, length as nat),
            r is Err ==> r == Err::<Ship, PlacementError>(PlacementError::OutOfBounds),
            r matches Ok(s) ==> {
                &&& s@.cells == line(pos_of(cord), direction, length as nat)
                &&& s@.id == id
                &&& s@.hp == length
                &&& s@.hp == s@.cells.len()
                &&& s@.wf()
            },
    {
        if length > u32::MAX as usize {
            return Err(PlacementError::OutOfBounds);
        }
        let fits: bool = match direction {
            Direction::Down => length == 0 || cord[0] <= usize::MAX - (length - 1),
            Direction::Up => length <= cord[0] || length - cord[0] <= 1,
            Direction::Right => length == 0 || cord[1] <= usize::MAX - (length - 1),
            Direction::Left => length <= cord[1] || length - cord[1] <= 1,
        };
        if !fits {
            proof {
                let bad: int = match direction {
                    Direction::Down | Direction::Right => length - 1,
                    _ => 0,
                };
                let p = line_cell(pos_of(cord), direction, length as int, bad);
                assert(!(fits_usize(p.0) && fits_usize(p.1)));
            }
            return Err(PlacementError::OutOfBounds);
        }
        let ghost anchor = pos_of(cord);
        let ghost len = length as nat;
        assert(line_fits(anchor, direction, len));
        let mut cords: Vec<[usize; 2]> = Vec::new();
        let mut i: usize = 0;
        while i < length
            invariant
                i <= length,
                line_fits(anchor, direction, len),
                anchor == pos_of(cord),
                len == length,
                cords@.len() == i,
                forall|k: int| 0 <= k < i ==> pos_of(#[trigger] cords@[k]) == line_cell(anchor, direction, len as int, k),
            decreases length - i,
        {
            let c = line_cell_exec(cord, direction, length, i);
            cords.push(c);
            i = i + 1;
        }
        proof {
            let cells = cords@.map_values(|c: [usize; 2]| pos_of(c));
            assert(cells =~= line(anchor, direction, len));
            assert forall|a: int, b: int| 0 <= a < cells.len() && 0 <= b < cells.len() && a != b
                implies #[trigger] cells[a] != #[trigger] cells[b] by {
                assert(cells[a] == line_cell(anchor, direction, len as int, a));
                assert(cells[b] == line_cell(anchor, direction, len as int, b));
            }
        }
        let s = Ship { cords, id, hp: length as u32 };
        assert(s@.cells =~= line(anchor, direction, len));
        Ok(s)
    }

    /// Whether the ship covers the coordinate.
    pub fn check_collision(&self, cord: &[usize; 2]) -> (r: bool)
        ensures
            r == self@.cells.contains(pos_of(*cord)),
    {
        let mut i: usize = 0;
        while i < self.cords.len()
            invariant
                i <= self.cords@.len(),
                forall|k: int| 0 <= k < i ==> #[trigger] pos_of(self.cords@[k]) != pos_of(*cord),
            decreases self.cords@.len() - i,
        {
            let c = self.cords[i];
            if c[0] == cord[0] && c[1] == cord[1] {
                assert(self@.cells[i as int] == pos_of(*cord));
                return true;
            }
            i = i + 1;
        }
        assert forall|k: int| 0 <= k < self@.cells.len() implies self@.cells[k] != pos_of(*cord) by {
            assert(pos_of(self.cords@[k]) != pos_of(*cord));
        }
        false
    }

    /// Takes one hit point off; a sunk ship stays at zero.
    pub fn apply_hit(&mut self)
        ensures
            final(self)@ == old(self)@.hit(),
    {
        proof {
            use_type_invariant(&*self);
        }
        if self.hp > 0 {
            self.hp = self.hp - 1;
        }
        assert(final(self)@.cells =~= old(self)@.cells);
    }

    pub fn is_sunk(&self) -> (r: bool)
        ensures
            r == self@.sunk(),
    {
        self.hp == 0
    }

    pub fn id(&self) -> (r: u32)
        ensures
            r == self@.id,
    {
        self.id
    }

    pub fn hit_points(&self) -> (r: u32)
        ensures
            r == self@.hp,
    {
        self.hp
    }

    /// The number of cells the ship covers.
    pub fn len(&self) -> (r: usize)
        ensures
            r == self@.cells.len(),
    {
        self.cords.len()
    }

    /// The `i`-th cell the ship covers.
    pub fn cell(&self, i: usize) -> (r: [usize; 2])
        requires
            i < self@.cells.len(),
        ensures
            pos_of(r) == self@.cells[i as int],
    {
        self.cords[i]
    }
}

} // verus!
