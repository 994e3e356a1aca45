//! The grid: the occupant of every cell, and the operations on it.

use vstd::prelude::*;
use crate::board::{
    Board, coin_at, coin_index, contested_in_row, contested_in_rows, count_in_row, empty_board,
    in_bounds, is_successor, lemma_step_with_is_successor, neighbors, occupant_at, population, put,
    rectangular, step_with, tally, width,
};
use crate::random::draw_between;
use crate::rules::{is_contested, next_occupant, tie_break};
use crate::cell::{Cell, DrawCommand, Occupant};

verus! {

/// The edge of a cell on the screen, in pixels.
pub const CELL_EDGE: u32 = 75;

/// The largest number of rows, and of columns, that a grid may have.  With
/// it the number of cells fits in a `u64`.
pub const MAX_DIM: usize = 0xFFFF_FFFF;

/// The one failure a grid operation can report.
#[derive(Clone, Copy, Debug, PartialEq, Eq, Structural)]
pub enum GridError {
    /// The coordinates name no cell of the grid.
    OutOfBounds,
}

/// How a game stands, told from the two populations.
#[derive(Clone, Copy, Debug, PartialEq, Eq, Structural)]
pub enum Outcome {
    PlayerAWins,
    PlayerBWins,
    Draw,
    Undetermined,
}

/// The outcome with `a` cells of player A and `b` of player B alive: a
/// player whose opponent has died out wins, both dead is a draw, and while
/// both live nothing is decided.
pub open spec fn verdict(a: nat, b: nat) -> Outcome {
    if a == 0 && b == 0 {
        Outcome::Draw
    } else if a == 0 {
        Outcome::PlayerBWins
    } else if b == 0 {
        Outcome::PlayerAWins
    } else {
        Outcome::Undetermined
    }
}

/// One if `found` is `who`, else zero.
fn mark(found: Occupant, who: Occupant) -> (n: u8)
    ensures
        n == tally(found, who),
{
    if found == who {
        1
    } else {
        0
    }
}

/// The shape of every cell of a board, row by row.
pub open spec fn shapes(board: Board) -> Seq<Seq<DrawCommand>> {
    Seq::new(
        board.len(),
        |r: int|
            Seq::new(
                board[r].len(),
                |c: int| (Cell { row: r as usize, col: c as usize, occupant: board[r][c] }).shape(),
            ),
    )
}

/// How many cells of edge `CELL_EDGE` it takes to cover `extent` pixels and
/// the pixel after them: the cell that sticks out at the end is counted.
pub open spec fn cells_across(extent: int) -> int {
    extent / (CELL_EDGE as int) + 1
}

/// The board that rows of cells stand for.
pub open spec fn board_of(cells: Seq<Vec<Cell>>) -> Board {
    Seq::new(cells.len(), |r: int| Seq::new(cells[r]@.len(), |c: int| cells[r]@[c].occupant))
}

/// Rows of cells that form a grid: all rows equally long, neither dimension
/// above `MAX_DIM`, and every cell at the position it records.
pub open spec fn well_laid(cells: Seq<Vec<Cell>>) -> bool {
    &&& cells.len() <= MAX_DIM
    &&& forall|r: int| 0 <= r < cells.len() ==> (#[trigger] cells[r])@.len() <= MAX_DIM
    &&& forall|r: int| 0 <= r < cells.len() ==> (#[trigger] cells[r])@.len() == cells[0]@.len()
    &&& forall|r: int, c: int|
        0 <= r < cells.len() && 0 <= c < cells[r]@.len() ==> {
            &&& (#[trigger] cells[r]@[c]).row == r
            &&& cells[r]@[c].col == c
        }
}

/// Whether rows of cells form a grid, so that `Grid::new` takes them.
pub fn check_layout(cells: &Vec<Vec<Cell>>) -> (ok: bool)
    ensures
        ok == well_laid(cells@),
{
    if cells.len() > MAX_DIM {
        return false;
    }
    let mut r: usize = 0;
    while r < cells.len()
        invariant
            r <= cells@.len(),
            cells@.len() <= MAX_DIM,
            forall|i: int| 0 <= i < r ==> (#[trigger] cells@[i])@.len() <= MAX_DIM,
            forall|i: int| 0 <= i < r ==> (#[trigger] cells@[i])@.len() == cells@[0]@.len(),
            forall|i: int, j: int|
                0 <= i < r && 0 <= j < cells@[i]@.len() ==> {
                    &&& (#[trigger] cells@[i]@[j]).row == i
                    &&& cells@[i]@[j].col == j
                },
        decreases cells@.len() - r,
    {
        if cells[r].len() > MAX_DIM || cells[r].len() != cells[0].len() {
            assert(!well_laid(cells@)) by {
                let row = cells@[r as int];
                assert(!(row@.len() <= MAX_DIM && row@.len() == cells@[0]@.len()));
            }
            return false;
        }
        let mut c: usize = 0;
        while c < cells[r].len()
            invariant
                r < cells@.len(),
                c <= cells@[r as int]@.len(),
                forall|j: int|
                    0 <= j < c ==> {
                        &&& (#[trigger] cells@[r as int]@[j]).row == r
                        &&& cells@[r as int]@[j].col == j
                    },
            decreases cells@[r as int]@.len() - c,
        {
            if cells[r][c].row != r || cells[r][c].col != c {
                assert(!well_laid(cells@)) by {
                    let cell = cells@[r as int]@[c as int];
                    assert(!(cell.row == r && cell.col == c));
                }
                return false;
            }
            c += 1;
        }
        r += 1;
    }
    true
}

/// A bounded rectangle of cells.  Its dimensions are fixed when it is made.
#[derive(Clone, Debug)]
pub struct Grid {
    cells: Vec<Vec<Cell>>,
}

impl View for Grid {
    type V = Board;

    closed spec fn view(&self) -> Board {
        board_of(self.cells@)
    }
}

impl Grid {
    /// The invariant of a grid: its cells are well laid.
    pub closed spec fn well_formed(&self) -> bool {
        well_laid(self.cells@)
    }

    /// What well-formedness says of the board.
    pub proof fn lemma_shape(&self)
        requires
            self.well_formed(),
        ensures
            rectangular(self@),
            self@.len() <= MAX_DIM,
            width(self@) <= MAX_DIM,
    {
        assert forall|r: int| 0 <= r < self@.len() implies (#[trigger] self@[r]).len() == width(
            self@,
        ) by {
            assert(self.cells@[r]@.len() == self.cells@[0]@.len());
        }
        if self@.len() > 0 {
            assert(self.cells@[0]@.len() <= MAX_DIM);
        }
    }

    /// Takes the rows of cells as the grid.
    pub fn new(cells: Vec<Vec<Cell>>) -> (grid: Grid)
        requires
            well_laid(cells@),
        ensures
            grid.well_formed(),
            grid@ == board_of(cells@),
    {
        Grid { cells }
    }

    /// A grid of `rows` by `cols` cells, all of them empty.
    pub fn create(rows: u32, cols: u32) -> (grid: Grid)
        ensures
            grid.well_formed(),
            grid@ == empty_board(rows as nat, cols as nat),
    {
        let mut cells: Vec<Vec<Cell>> = Vec::new();
        let mut r: usize = 0;
        while r < rows as usize
            invariant
                r <= rows,
                cells@.len() == r,
                forall|i: int| 0 <= i < r ==> (#[trigger] cells@[i])@.len() == cols,
                forall|i: int, j: int|
                    0 <= i < r && 0 <= j < cols ==> (#[trigger] cells@[i]@[j]) == (Cell {
                        row: i as usize,
                        col: j as usize,
                        occupant: Occupant::Empty,
                    }),
            decreases rows - r,
        {
            let mut row: Vec<Cell> = Vec::new();
            let mut c: usize = 0;
            while c < cols as usize
                invariant
                    c <= cols,
                    r < rows,
                    row@.len() == c,
                    forall|j: int|
                        0 <= j < c ==> (#[trigger] row@[j]) == (Cell {
                            row: r,
                            col: j as usize,
                            occupant: Occupant::Empty,
                        }),
                decreases cols - c,
            {
                row.push(Cell::new(r, c, Occupant::Empty));
                c += 1;
            }
            cells.push(row);
            r += 1;
        }
        let grid = Grid { cells };
        assert(grid@ =~~= empty_board(rows as nat, cols as nat));
        grid
    }

    /// The number of rows.
    pub fn rows(&self) -> (n: usize)
        ensures
            n == self@.len(),
    {
        self.cells.len()
    }

    /// The number of columns.
    pub fn cols(&self) -> (n: usize)
        ensures
            n == width(self@),
    {
        if self.cells.len() == 0 {
            0
        } else {
            self.cells[0].len()
        }
    }

    /// The occupant of a cell, or `OutOfBounds` where there is no such cell.
    pub fn occupant(&self, row: usize, col: usize) -> (found: Result<Occupant, GridError>)
        ensures
            in_bounds(self@, row as int, col as int) ==> found == Ok::<Occupant, GridError>(
                self@[row as int][col as int],
            ),
            !in_bounds(self@, row as int, col as int) ==> found == Err::<Occupant, GridError>(
                GridError::OutOfBounds,
            ),
    {
        if row < self.cells.len() && col < self.cells[row].len() {
            Ok(self.cells[row][col].occupant)
        } else {
            Err(GridError::OutOfBounds)
        }
    }

    /// Overwrites the occupant of one cell and touches nothing else.  Where
    /// the coordinates name no cell the grid stays as it is and the call
    /// reports `OutOfBounds`.
    pub fn set_occupant(&mut self, row: usize, col: usize, occupant: Occupant) -> (done: Result<
        (),
        GridError,
    >)
        requires
            old(self).well_formed(),
        ensures
            final(self).well_formed(),
            in_bounds(old(self)@, row as int, col as int) ==> done == Ok::<(), GridError>(())
                && final(self)@ == put(old(self)@, row as int, col as int, occupant),
            !in_bounds(old(self)@, row as int, col as int) ==> done == Err::<(), GridError>(
                GridError::OutOfBounds,
            ) && final(self)@ == old(self)@,
    {
        if row < self.cells.len() && col < self.cells[row].len() {
            self.cells[row][col].occupant = occupant;
            assert(self@ =~~= put(old(self)@, row as int, col as int, occupant));
            Ok(())
        } else {
            Err(GridError::OutOfBounds)
        }
    }

    /// The occupant at a position that may lie outside the grid, where
    /// nobody lives.
    fn peek(&self, row: i64, col: i64) -> (found: Occupant)
        requires
            self.well_formed(),
        ensures
            found == occupant_at(self@, row as int, col as int),
    {
        if row < 0 || col < 0 || row >= self.cells.len() as i64 {
            return Occupant::Empty;
        }
        let r = row as usize;
        if col >= self.cells[r].len() as i64 {
            return Occupant::Empty;
        }
        self.cells[r][col as usize].occupant
    }

    /// Counts the neighbours of a cell of the grid for both players.
    fn count_neighbors(&self, row: usize, col: usize) -> (counts: (u8, u8))
        requires
            self.well_formed(),
            in_bounds(self@, row as int, col as int),
        ensures
            counts.0 == neighbors(self@, row as int, col as int, Occupant::PlayerA),
            counts.1 == neighbors(self@, row as int, col as int, Occupant::PlayerB),
    {
        proof {
            reveal(neighbors);
        }
        let r = row as i64;
        let c = col as i64;
        let nw = self.peek(r - 1, c - 1);
        let n = self.peek(r - 1, c);
        let ne = self.peek(r - 1, c + 1);
        let w = self.peek(r, c - 1);
        let e = self.peek(r, c + 1);
        let sw = self.peek(r + 1, c - 1);
        let s = self.peek(r + 1, c);
        let se = self.peek(r + 1, c + 1);
        let a = mark(nw, Occupant::PlayerA) + mark(n, Occupant::PlayerA) + mark(
            ne,
            Occupant::PlayerA,
        ) + mark(w, Occupant::PlayerA) + mark(e, Occupant::PlayerA) + mark(sw, Occupant::PlayerA)
            + mark(s, Occupant::PlayerA) + mark(se, Occupant::PlayerA);
        let b = mark(nw, Occupant::PlayerB) + mark(n, Occupant::PlayerB) + mark(
            ne,
            Occupant::PlayerB,
        ) + mark(w, Occupant::PlayerB) + mark(e, Occupant::PlayerB) + mark(sw, Occupant::PlayerB)
            + mark(s, Occupant::PlayerB) + mark(se, Occupant::PlayerB);
        (a, b)
    }

    /// How many of the up to eight cells around `(row, col)` each player
    /// holds: player A first, player B second.  Cells beyond the border
    /// count for nobody.
    pub fn neighbor_counts(&self, row: usize, col: usize) -> (counts: Result<(u8, u8), GridError>)
        requires
            self.well_formed(),
        ensures
            in_bounds(self@, row as int, col as int) ==> counts == Ok::<(u8, u8), GridError>(
                (
                    neighbors(self@, row as int, col as int, Occupant::PlayerA) as u8,
                    neighbors(self@, row as int, col as int, Occupant::PlayerB) as u8,
                ),
            ),
            !in_bounds(self@, row as int, col as int) ==> counts == Err::<(u8, u8), GridError>(
                GridError::OutOfBounds,
            ),
    {
        if row < self.cells.len() && col < self.cells[row].len() {
            Ok(self.count_neighbors(row, col))
        } else {
            Err(GridError::OutOfBounds)
        }
    }

    /// How many births of the coming generation both players claim.
    pub fn count_contested(&self) -> (n: u64)
        requires
            self.well_formed(),
        ensures
            n == contested_in_rows(self@, self@.len() as int),
    {
        let mut n: u64 = 0;
        let mut r: usize = 0;
        while r < self.cells.len()
            invariant
                self.well_formed(),
                r <= self.cells@.len(),
                n == contested_in_rows(self@, r as int),
                n <= r * MAX_DIM,
            decreases self.cells@.len() - r,
        {
            let mut in_row: u64 = 0;
            let mut c: usize = 0;
            while c < self.cells[r].len()
                invariant
                    self.well_formed(),
                    r < self.cells@.len(),
                    c <= self.cells@[r as int]@.len(),
                    in_row == contested_in_row(self@, r as int, c as int),
                    in_row <= c,
                decreases self.cells@[r as int]@.len() - c,
            {
                let (a, b) = self.count_neighbors(r, c);
                if is_contested(self.cells[r][c].occupant, a, b) {
                    in_row += 1;
                }
                c += 1;
            }
            n += in_row;
            r += 1;
        }
        n
    }

    /// The generation that follows this one when the contested births are
    /// decided by the given coins.  Every cell is judged by the neighbour
    /// counts of this generation.  The contested births take their coins
    /// from the list in order, row after row and each row from its first
    /// column; a list that is too short is continued with zeros.
    pub fn next_generation_with(&self, coins: &Vec<u8>) -> (next: Grid)
        requires
            self.well_formed(),
        ensures
            next.well_formed(),
            next@ == step_with(self@, coins@),
    {
        let mut cells: Vec<Vec<Cell>> = Vec::new();
        let mut used: u64 = 0;
        let mut r: usize = 0;
        while r < self.cells.len()
            invariant
                self.well_formed(),
                r <= self.cells@.len(),
                cells@.len() == r,
                used == contested_in_rows(self@, r as int),
                used <= r * MAX_DIM,
                forall|i: int| 0 <= i < r ==> (#[trigger] cells@[i])@.len() == self.cells@[i]@.len(),
                forall|i: int, j: int|
                    0 <= i < r && 0 <= j < self.cells@[i]@.len() ==> {
                        &&& (#[trigger] cells@[i]@[j]).row == i
                        &&& cells@[i]@[j].col == j
                        &&& cells@[i]@[j].occupant == step_with(self@, coins@)[i][j]
                    },
            decreases self.cells@.len() - r,
        {
            let ghost base = used;
            let mut row: Vec<Cell> = Vec::new();
            let mut c: usize = 0;
            while c < self.cells[r].len()
                invariant
                    self.well_formed(),
                    r < self.cells@.len(),
                    c <= self.cells@[r as int]@.len(),
                    row@.len() == c,
                    base == contested_in_rows(self@, r as int),
                    base <= r * MAX_DIM,
                    used == base + contested_in_row(self@, r as int, c as int),
                    used <= base + c,
                    forall|j: int|
                        0 <= j < c ==> {
                            &&& (#[trigger] row@[j]).row == r
                            &&& row@[j].col == j
                            &&& row@[j].occupant == step_with(self@, coins@)[r as int][j]
                        },
                decreases self.cells@[r as int]@.len() - c,
            {
                let current = self.cells[r][c].occupant;
                let (a, b) = self.count_neighbors(r, c);
                let coin = if used < coins.len() as u64 {
                    coins[used as usize]
                } else {
                    0
                };
                assert(coin as int == coin_at(coins@, coin_index(self@, r as int, c as int)));
                row.push(Cell::new(r, c, next_occupant(current, a, b, tie_break(coin))));
                if is_contested(current, a, b) {
                    used += 1;
                }
                c += 1;
            }
            cells.push(row);
            r += 1;
        }
        let next = Grid { cells };
        assert(next@ =~~= step_with(self@, coins@));
        next
    }

    /// The generation that follows this one.  Every cell is judged by the
    /// neighbour counts of this generation; each contested birth is decided
    /// by a coin of its own, drawn from the random generator.
    pub fn next_generation(&self) -> (next: Grid)
        requires
            self.well_formed(),
        ensures
            next.well_formed(),
            is_successor(self@, next@),
    {
        let wanted = self.count_contested();
        let mut coins: Vec<u8> = Vec::new();
        let mut drawn: u64 = 0;
        // One coin for each contested birth, as far as a list can hold them.
        while drawn < wanted && coins.len() < usize::MAX
            invariant
                drawn <= wanted,
            decreases wanted - drawn,
        {
            coins.push(draw_between(0, 2));
            drawn += 1;
        }
        proof {
            lemma_step_with_is_successor(self@, coins@);
        }
        self.next_generation_with(&coins)
    }

    /// Advances the grid by one generation: all cells change at once.
    pub fn sim(&mut self)
        requires
            old(self).well_formed(),
        ensures
            final(self).well_formed(),
            is_successor(old(self)@, final(self)@),
    {
        let next = self.next_generation();
        *self = next;
    }

    /// The number of live cells of each player: player A first, player B
    /// second.
    pub fn count_occupants(&self) -> (counts: (u64, u64))
        requires
            self.well_formed(),
        ensures
            counts.0 == population(self@, Occupant::PlayerA),
            counts.1 == population(self@, Occupant::PlayerB),
    {
        let mut total_a: u64 = 0;
        let mut total_b: u64 = 0;
        let mut r: usize = 0;
        while r < self.cells.len()
            invariant
                self.well_formed(),
                r <= self.cells@.len(),
                total_a == population(self@.take(r as int), Occupant::PlayerA),
                total_b == population(self@.take(r as int), Occupant::PlayerB),
                total_a <= r * MAX_DIM,
                total_b <= r * MAX_DIM,
            decreases self.cells@.len() - r,
        {
            let ghost row = self@[r as int];
            let mut in_row_a: u64 = 0;
            let mut in_row_b: u64 = 0;
            let mut c: usize = 0;
            while c < self.cells[r].len()
                invariant
                    self.well_formed(),
                    r < self.cells@.len(),
                    row == self@[r as int],
                    c <= row.len(),
                    in_row_a == count_in_row(row.take(c as int), Occupant::PlayerA),
                    in_row_b == count_in_row(row.take(c as int), Occupant::PlayerB),
                    in_row_a <= c,
                    in_row_b <= c,
                decreases row.len() - c,
            {
                let found = self.cells[r][c].occupant;
                proof {
                    assert(row.take(c + 1).drop_last() =~= row.take(c as int));
                }
                in_row_a += mark(found, Occupant::PlayerA) as u64;
                in_row_b += mark(found, Occupant::PlayerB) as u64;
                c += 1;
            }
            proof {
                assert(row.take(c as int) =~= row);
                assert(self@.take(r + 1).drop_last() =~= self@.take(r as int));
            }
            total_a += in_row_a;
            total_b += in_row_b;
            r += 1;
        }
        proof {
            assert(self@.take(r as int) =~= self@);
        }
        (total_a, total_b)
    }

    /// How the game stands on this grid.
    pub fn check_winner(&self) -> (outcome: Outcome)
        requires
            self.well_formed(),
        ensures
            outcome == verdict(
                population(self@, Occupant::PlayerA),
                population(self@, Occupant::PlayerB),
            ),
    {
        let (a, b) = self.count_occupants();
        if a == 0 && b == 0 {
            Outcome::Draw
        } else if a == 0 {
            Outcome::PlayerBWins
        } else if b == 0 {
            Outcome::PlayerAWins
        } else {
            Outcome::Undetermined
        }
    }

    /// A copy of all cells, which stays as it is while the grid moves on.
    pub fn snapshot(&self) -> (cells: Vec<Vec<Cell>>)
        requires
            self.well_formed(),
        ensures
            well_laid(cells@),
            board_of(cells@) == self@,
    {
        let mut cells: Vec<Vec<Cell>> = Vec::new();
        let mut r: usize = 0;
        while r < self.cells.len()
            invariant
                self.well_formed(),
                r <= self.cells@.len(),
                cells@.len() == r,
                forall|i: int| 0 <= i < r ==> (#[trigger] cells@[i])@ == self.cells@[i]@,
            decreases self.cells@.len() - r,
        {
            let mut row: Vec<Cell> = Vec::new();
            let mut c: usize = 0;
            while c < self.cells[r].len()
                invariant
                    r < self.cells@.len(),
                    c <= self.cells@[r as int]@.len(),
                    row@.len() == c,
                    forall|j: int| 0 <= j < c ==> (#[trigger] row@[j]) == self.cells@[r as int]@[j],
                decreases self.cells@[r as int]@.len() - c,
            {
                row.push(self.cells[r][c]);
                c += 1;
            }
            assert(row@ =~= self.cells@[r as int]@);
            cells.push(row);
            r += 1;
        }
        assert(board_of(cells@) =~~= self@);
        cells
    }

    /// Whether two grids have the same dimensions and the same occupant in
    /// every cell.
    pub fn same_as(&self, other: &Grid) -> (same: bool)
        requires
            self.well_formed(),
            other.well_formed(),
        ensures
            same == (self@ == other@),
    {
        if self.cells.len() != other.cells.len() {
            assert(self@.len() != other@.len());
            return false;
        }
        let mut r: usize = 0;
        while r < self.cells.len()
            invariant
                self.cells@.len() == other.cells@.len(),
                r <= self.cells@.len(),
                forall|i: int| 0 <= i < r ==> (#[trigger] self@[i]) == other@[i],
            decreases self.cells@.len() - r,
        {
            if self.cells[r].len() != other.cells[r].len() {
                assert(self@[r as int].len() != other@[r as int].len());
                return false;
            }
            let mut c: usize = 0;
            while c < self.cells[r].len()
                invariant
                    r < self.cells@.len(),
                    self.cells@.len() == other.cells@.len(),
                    self.cells@[r as int]@.len() == other.cells@[r as int]@.len(),
                    c <= self.cells@[r as int]@.len(),
                    forall|j: int|
                        0 <= j < c ==> (#[trigger] self@[r as int][j]) == other@[r as int][j],
                decreases self.cells@[r as int]@.len() - c,
            {
                if self.cells[r][c].occupant != other.cells[r][c].occupant {
                    assert(self@[r as int][c as int] != other@[r as int][c as int]);
                    return false;
                }
                c += 1;
            }
            assert(self@[r as int] =~= other@[r as int]);
            r += 1;
        }
        assert(self@ =~= other@);
        true
    }

    /// The commands that draw the grid: one per cell, row after row.
    pub fn draw(&self) -> (cmds: Vec<DrawCommand>)
        requires
            self.well_formed(),
        ensures
            cmds@ == shapes(self@).flatten(),
    {
        let ghost all = shapes(self@);
        let mut cmds: Vec<DrawCommand> = Vec::new();
        let mut r: usize = 0;
        assert(all.take(0) =~= Seq::<Seq<DrawCommand>>::empty());
        while r < self.cells.len()
            invariant
                self.well_formed(),
                all == shapes(self@),
                r <= self.cells@.len(),
                cmds@ == all.take(r as int).flatten(),
            decreases self.cells@.len() - r,
        {
            let mut c: usize = 0;
            while c < self.cells[r].len()
                invariant
                    self.well_formed(),
                    all == shapes(self@),
                    r < self.cells@.len(),
                    c <= self.cells@[r as int]@.len(),
                    cmds@ == all.take(r as int).flatten() + all[r as int].take(c as int),
                decreases self.cells@[r as int]@.len() - c,
            {
                cmds.push(self.cells[r][c].draw());
                assert(all[r as int].take(c + 1) =~= all[r as int].take(c as int).push(
                    all[r as int][c as int],
                ));
                c += 1;
            }
            assert(all[r as int].take(c as int) =~= all[r as int]);
            assert(all.take(r + 1) =~= all.take(r as int).push(all[r as int]));
            proof {
                all.take(r as int).lemma_flatten_push(all[r as int]);
            }
            r += 1;
        }
        assert(all.take(r as int) =~= all);
        cmds
    }
}

/// The empty grid that covers a drawing surface of `width` by `height`
/// pixels.  Rows run along the width and columns along the height; the
/// last cell of either direction may reach beyond the surface.
pub fn grid_init(width: u32, height: u32) -> (grid: Grid)
    ensures
        grid.well_formed(),
        grid@ == empty_board(cells_across(width as int) as nat, cells_across(height as int) as nat),
{
    Grid::create(width / CELL_EDGE + 1, height / CELL_EDGE + 1)
}

} // verus!
