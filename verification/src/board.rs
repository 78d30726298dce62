//! The 8x8 board: cells, players, disc counts and the starting layout.

use vstd::prelude::*;

verus! {

/// One of the two sides. The board always tracks exactly one current player.
#[derive(Clone, Copy, PartialEq, Eq, Structural, Debug)]
pub enum Player {
    Black,
    White,
}

/// Contents of a single board cell.
#[derive(Clone, Copy, PartialEq, Eq, Structural, Debug)]
pub enum Cell {
    Empty,
    Black,
    White,
}

impl Player {
    /// The disc colour a player places.
    pub open spec fn disc(self) -> Cell {
        match self {
            Player::Black => Cell::Black,
            Player::White => Cell::White,
        }
    }

    /// Total "opponent of" mapping: Black and White swap.
    pub open spec fn opponent_spec(self) -> Player {
        match self {
            Player::Black => Player::White,
            Player::White => Player::Black,
        }
    }

    pub fn opponent(self) -> (r: Player)
        ensures
            r == self.opponent_spec(),
    {
        match self {
            Player::Black => Player::White,
            Player::White => Player::Black,
        }
    }

    pub fn disc_cell(self) -> (r: Cell)
        ensures
            r == self.disc(),
    {
        match self {
            Player::Black => Cell::Black,
            Player::White => Cell::White,
        }
    }
}

/// True iff (r, c) is a coordinate of the 8x8 board.
pub open spec fn in_range(r: int, c: int) -> bool {
    0 <= r < 8 && 0 <= c < 8
}

/// Row-major index of a board coordinate.
pub open spec fn idx(r: int, c: int) -> int {
    r * 8 + c
}

/// How many cells of a prefix of the board hold `x`.
pub open spec fn count_upto(s: Seq<Cell>, x: Cell, k: int) -> int
    decreases k,
{
    if k <= 0 {
        0
    } else {
        count_upto(s, x, k - 1) + (if s[k - 1] == x { 1int } else { 0int })
    }
}

/// How many cells of the whole board hold `x`.
pub open spec fn count_cells(s: Seq<Cell>, x: Cell) -> int {
    count_upto(s, x, 64)
}

/// The fixed starting layout: the four centre discs, Black to move first.
pub open spec fn initial_board() -> Seq<Cell> {
    Seq::new(64, |i: int| if i == idx(3, 3) || i == idx(4, 4) {
        Cell::White
    } else if i == idx(3, 4) || i == idx(4, 3) {
        Cell::Black
    } else {
        Cell::Empty
    })
}

/// An 8x8 grid of cells, stored row-major. Value-copied during search.
pub struct BoardState {
    pub cells: Vec<Cell>,
}

impl BoardState {
    /// The board's mathematical model: a row-major sequence of 64 cells.
    pub open spec fn view(self) -> Seq<Cell> {
        self.cells@
    }

    /// Structural invariant: exactly 64 cells.
    pub open spec fn wf(self) -> bool {
        self.cells@.len() == 64
    }

    /// The cell at (r, c).
    pub open spec fn at(self, r: int, c: int) -> Cell {
        self.cells@[idx(r, c)]
    }

    /// A board with the fixed starting layout.
    pub fn starting_position() -> (b: BoardState)
        ensures
            b.wf(),
            b@ == initial_board(),
    {
        let mut cells: Vec<Cell> = Vec::new();
        let mut i: usize = 0;
        while i < 64
            invariant
                i <= 64,
                cells@.len() == i,
                forall|j: int| 0 <= j < i ==> cells@[j] == initial_board()[j],
            decreases 64 - i,
        {
            if i == 27 || i == 36 {
                cells.push(Cell::White);
            } else if i == 28 || i == 35 {
                cells.push(Cell::Black);
            } else {
                cells.push(Cell::Empty);
            }
            i += 1;
        }
        let b = BoardState { cells };
        proof {
            assert(b@ =~= initial_board());
        }
        b
    }

    /// Read one cell; coordinates must be on the board.
    pub fn get(&self, r: usize, c: usize) -> (x: Cell)
        requires
            self.wf(),
            in_range(r as int, c as int),
        ensures
            x == self.at(r as int, c as int),
    {
        self.cells[r * 8 + c]
    }

    /// Write one cell; coordinates must be on the board.
    pub fn set(&mut self, r: usize, c: usize, x: Cell)
        requires
            old(self).wf(),
            in_range(r as int, c as int),
        ensures
            final(self).wf(),
            final(self)@ == old(self)@.update(idx(r as int, c as int), x),
    {
        self.cells.set(r * 8 + c, x);
    }

    /// A value copy of the board, for hypothetical search futures.
    pub fn duplicate(&self) -> (b: BoardState)
        ensures
            b@ == self@,
    {
        let mut cells: Vec<Cell> = Vec::new();
        let mut i: usize = 0;
        while i < self.cells.len()
            invariant
                i <= self.cells@.len(),
                cells@.len() == i,
                forall|j: int| 0 <= j < i ==> cells@[j] == self.cells@[j],
            decreases self.cells@.len() - i,
        {
            cells.push(self.cells[i]);
            i += 1;
        }
        let b = BoardState { cells };
        proof {
            assert(b@ =~= self@);
        }
        b
    }

    /// How many discs of colour `x` stand on the board.
    pub fn count(&self, x: Cell) -> (n: usize)
        requires
            self.wf(),
        ensures
            n == count_cells(self@, x),
            n <= 64,
    {
        let mut n: usize = 0;
        let mut i: usize = 0;
        while i < 64
            invariant
                self.wf(),
                i <= 64,
                n == count_upto(self@, x, i as int),
                n <= i,
            decreases 64 - i,
        {
            if self.cells[i] == x {
                n += 1;
            }
            i += 1;
        }
        n
    }
}

} // verus!
