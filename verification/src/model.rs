//! The board model: cell kinds, directions, actions, play states and the grid.

use vstd::prelude::*;

verus! {

/// Largest number of columns or rows a board may have.
pub const MAX_SIDE: usize = 1024;

/// What occupies one cell of the board.
#[derive(Clone, Copy, Debug, PartialEq, Eq, Structural)]
pub enum CellKind {
    Empty,
    Wall,
    Player,
    Rat,
    CyborgRat,
    Plank,
    Spiderweb,
    BlackHole,
    Explosive,
    Trigger(u8),
}

/// One of the four compass directions.
#[derive(Clone, Copy, Debug, PartialEq, Eq, Structural)]
pub enum Dir4 {
    North,
    South,
    East,
    West,
}

/// What one player does during one turn.
#[derive(Clone, Copy, Debug, PartialEq, Eq, Structural)]
pub enum Action {
    Move(Dir4),
    Stall,
}

/// The state of a game after a turn.
#[derive(Clone, Copy, Debug, PartialEq, Eq, Structural)]
pub enum PlayState {
    Playing,
    Won,
    GameOver,
}

/// A rectangular board. Cells outside the board read as walls.
pub struct Grid {
    width: usize,
    height: usize,
    rows: Vec<Vec<CellKind>>,
    facings: Vec<Vec<Option<Dir4>>>,
}

impl Grid {
    #[verifier::type_invariant]
    closed spec fn wf(self) -> bool {
        &&& self.width <= MAX_SIDE
        &&& self.height <= MAX_SIDE
        &&& self.rows@.len() == self.height
        &&& self.facings@.len() == self.height
        &&& forall|y: int| 0 <= y < self.height ==> #[trigger] self.rows@[y]@.len() == self.width
        &&& forall|y: int| 0 <= y < self.height ==> #[trigger] self.facings@[y]@.len() == self.width
    }

    /// Number of columns.
    pub closed spec fn w(&self) -> nat {
        self.width as nat
    }

    /// Number of rows.
    pub closed spec fn h(&self) -> nat {
        self.height as nat
    }

    /// Whether `(x, y)` lies on the board.
    pub open spec fn in_bounds(&self, x: int, y: int) -> bool {
        0 <= x < self.w() && 0 <= y < self.h()
    }

    /// The kind of the cell at `(x, y)`; a wall outside the board.
    pub closed spec fn kind_at(&self, x: int, y: int) -> CellKind {
        if 0 <= y < self.height && 0 <= x < self.width {
            self.rows@[y]@[x]
        } else {
            CellKind::Wall
        }
    }

    /// Every cell off the board reads as a wall.
    pub broadcast proof fn lemma_outside_is_wall(self, x: int, y: int)
        ensures
            !self.in_bounds(x, y) ==> #[trigger] self.kind_at(x, y) == CellKind::Wall,
    {
    }

    /// The direction the player at `(x, y)` faces, where one is recorded.
    pub closed spec fn facing_at(&self, x: int, y: int) -> Option<Dir4> {
        if 0 <= y < self.height && 0 <= x < self.width {
            self.facings@[y]@[x]
        } else {
            None
        }
    }

    /// Builds a board from its rows of cells and the matching rows of player facings.
    /// Gives `None` when the rows differ in length, when the facing rows do not have
    /// the shape of the cell rows, or when a side exceeds `MAX_SIDE`.
    pub fn from_rows(rows: Vec<Vec<CellKind>>, facings: Vec<Vec<Option<Dir4>>>) -> (res: Option<Grid>)
        ensures
            res is Some <==> {
                &&& rows@.len() <= MAX_SIDE
                &&& facings@.len() == rows@.len()
                &&& forall|y: int| 0 <= y < rows@.len() ==> #[trigger] rows@[y]@.len() == rows@[0]@.len()
                &&& forall|y: int| 0 <= y < rows@.len() ==> #[trigger] facings@[y]@.len() == rows@[y]@.len()
                &&& (rows@.len() > 0 ==> rows@[0]@.len() <= MAX_SIDE)
            },
            res matches Some(g) ==> {
                &&& g.h() == rows@.len()
                &&& g.w() == (if rows@.len() == 0 { 0 } else { rows@[0]@.len() })
                &&& forall|x: int, y: int| g.in_bounds(x, y) ==> #[trigger] g.kind_at(x, y) == rows@[y]@[x]
                &&& forall|x: int, y: int| g.in_bounds(x, y) ==> #[trigger] g.facing_at(x, y) == facings@[y]@[x]
            },
    {
        let height = rows.len();
        if height > MAX_SIDE || facings.len() != height {
            return None;
        }
        let width = if height == 0 { 0 } else { rows[0].len() };
        if width > MAX_SIDE {
            return None;
        }
        let mut y: usize = 0;
        while y < height
            invariant
                height == rows@.len(),
                facings@.len() == height,
                width == (if height == 0 { 0 } else { rows@[0]@.len() }),
                y <= height,
                forall|k: int| 0 <= k < y ==> #[trigger] rows@[k]@.len() == width,
                forall|k: int| 0 <= k < y ==> #[trigger] facings@[k]@.len() == rows@[k]@.len(),
            decreases height - y,
        {
            if rows[y].len() != width || facings[y].len() != width {
                return None;
            }
            y = y + 1;
        }
        Some(Grid { width, height, rows, facings })
    }

    /// Builds a board from rows of cells alone, recording no facings.
    pub fn from_kinds(rows: Vec<Vec<CellKind>>) -> (res: Option<Grid>)
        ensures
            res is Some <==> {
                &&& rows@.len() <= MAX_SIDE
                &&& forall|y: int| 0 <= y < rows@.len() ==> #[trigger] rows@[y]@.len() == rows@[0]@.len()
                &&& (rows@.len() > 0 ==> rows@[0]@.len() <= MAX_SIDE)
            },
            res matches Some(g) ==> {
                &&& g.h() == rows@.len()
                &&& g.w() == (if rows@.len() == 0 { 0 } else { rows@[0]@.len() })
                &&& forall|x: int, y: int| g.in_bounds(x, y) ==> #[trigger] g.kind_at(x, y) == rows@[y]@[x]
                &&& forall|x: int, y: int| g.in_bounds(x, y) ==> #[trigger] g.facing_at(x, y) == None::<Dir4>
            },
    {
        let mut facings: Vec<Vec<Option<Dir4>>> = Vec::new();
        let mut y: usize = 0;
        while y < rows.len()
            invariant
                y <= rows@.len(),
                facings@.len() == y,
                forall|k: int| 0 <= k < y ==> #[trigger] facings@[k]@.len() == rows@[k]@.len(),
                forall|k: int, x: int| 0 <= k < y && 0 <= x < rows@[k]@.len() ==> #[trigger] facings@[k]@[x] == None::<Dir4>,
            decreases rows@.len() - y,
        {
            let mut row: Vec<Option<Dir4>> = Vec::new();
            let n = rows[y].len();
            let mut x: usize = 0;
            while x < n
                invariant
                    x <= n,
                    row@.len() == x,
                    forall|j: int| 0 <= j < x ==> #[trigger] row@[j] == None::<Dir4>,
                decreases n - x,
            {
                row.push(None);
                x = x + 1;
            }
            facings.push(row);
            y = y + 1;
        }
        Grid::from_rows(rows, facings)
    }

    /// Brings the size limit of the board into the proof at hand: both sides are at most
    /// `MAX_SIDE`.
    pub fn note_size_limit(&self)
        ensures
            self.w() <= MAX_SIDE,
            self.h() <= MAX_SIDE,
    {
        proof { use_type_invariant(self); }
    }

    /// Number of columns.
    pub fn width(&self) -> (w: usize)
        ensures
            w == self.w(),
            w <= MAX_SIDE,
    {
        proof { use_type_invariant(self); }
        self.width
    }

    /// Number of rows.
    pub fn height(&self) -> (h: usize)
        ensures
            h == self.h(),
            h <= MAX_SIDE,
    {
        proof { use_type_invariant(self); }
        self.height
    }

    /// The kind of the cell at `(x, y)`; a wall outside the board.
    pub fn cell_kind_at(&self, x: usize, y: usize) -> (k: CellKind)
        ensures
            k == self.kind_at(x as int, y as int),
    {
        proof { use_type_invariant(self); }
        if y < self.height && x < self.width {
            self.rows[y][x]
        } else {
            CellKind::Wall
        }
    }

    /// The facing recorded for the cell at `(x, y)`.
    pub fn facing(&self, x: usize, y: usize) -> (f: Option<Dir4>)
        ensures
            f == self.facing_at(x as int, y as int),
    {
        proof { use_type_invariant(self); }
        if y < self.height && x < self.width {
            self.facings[y][x]
        } else {
            None
        }
    }
}

} // verus!
