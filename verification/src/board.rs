//! The mathematical model of a grid: a sequence of rows of occupants, and
//! what a generation, a neighbourhood and a population are on it.

use vstd::prelude::*;
use crate::cell::Occupant;
use crate::rules::{coin_winner, contested, evolve, lemma_evolve_symmetric, may_follow};

verus! {

/// A grid as a value: `board[row][col]` is the occupant of that cell.
pub type Board = Seq<Seq<Occupant>>;

/// The number of columns: the length of the first row, or zero without rows.
pub open spec fn width(board: Board) -> nat {
    if board.len() == 0 {
        0
    } else {
        board[0].len()
    }
}

/// Every row has the same length.
pub open spec fn rectangular(board: Board) -> bool {
    forall|r: int| 0 <= r < board.len() ==> (#[trigger] board[r]).len() == width(board)
}

/// Whether `(row, col)` names a cell of the board.
pub open spec fn in_bounds(board: Board, row: int, col: int) -> bool {
    0 <= row < board.len() && 0 <= col < board[row].len()
}

/// The occupant at a position; positions outside the grid hold nobody.
pub open spec fn occupant_at(board: Board, row: int, col: int) -> Occupant {
    if in_bounds(board, row, col) {
        board[row][col]
    } else {
        Occupant::Empty
    }
}

/// One if `found` is the player `who`, else zero.
pub open spec fn tally(found: Occupant, who: Occupant) -> nat {
    if found == who {
        1
    } else {
        0
    }
}

/// How many of the eight cells around `(row, col)` the player `who` holds.
/// The grid does not wrap: what lies outside it counts for nobody.
#[verifier::opaque]
pub open spec fn neighbors(board: Board, row: int, col: int, who: Occupant) -> nat {
    tally(occupant_at(board, row - 1, col - 1), who)
        + tally(occupant_at(board, row - 1, col), who)
        + tally(occupant_at(board, row - 1, col + 1), who)
        + tally(occupant_at(board, row, col - 1), who)
        + tally(occupant_at(board, row, col + 1), who)
        + tally(occupant_at(board, row + 1, col - 1), who)
        + tally(occupant_at(board, row + 1, col), who)
        + tally(occupant_at(board, row + 1, col + 1), who)
}

/// Two boards with the same number of rows and the same row lengths.
pub open spec fn same_shape(a: Board, b: Board) -> bool {
    &&& a.len() == b.len()
    &&& forall|r: int| 0 <= r < a.len() ==> (#[trigger] a[r]).len() == b[r].len()
}

/// `next` is a generation that may follow `current`: every cell of `next` is
/// what the rule gives for that cell from the neighbour counts in `current`
/// alone, with the coin of each contested birth falling either way.
pub open spec fn is_successor(current: Board, next: Board) -> bool {
    &&& same_shape(current, next)
    &&& forall|r: int, c: int|
        in_bounds(current, r, c) ==> may_follow(
            current[r][c],
            neighbors(current, r, c, Occupant::PlayerA) as int,
            neighbors(current, r, c, Occupant::PlayerB) as int,
            #[trigger] next[r][c],
        )
}

/// Whether the cell at `(row, col)` is a birth that both players claim.
pub open spec fn contested_at(board: Board, row: int, col: int) -> bool {
    in_bounds(board, row, col) && contested(
        board[row][col],
        neighbors(board, row, col, Occupant::PlayerA) as int,
        neighbors(board, row, col, Occupant::PlayerB) as int,
    )
}

/// How many contested births row `row` has in its columns below `col`.
pub open spec fn contested_in_row(board: Board, row: int, col: int) -> nat
    decreases col,
{
    if col <= 0 {
        0
    } else {
        contested_in_row(board, row, col - 1) + if contested_at(board, row, col - 1) {
            1nat
        } else {
            0nat
        }
    }
}

/// How many contested births the rows below `row` have.
pub open spec fn contested_in_rows(board: Board, row: int) -> nat
    decreases row,
{
    if row <= 0 {
        0
    } else {
        contested_in_rows(board, row - 1) + contested_in_row(
            board,
            row - 1,
            board[row - 1].len() as int,
        )
    }
}

/// The place of a cell's coin in a list of coins: the number of contested
/// births that come before the cell, going through the rows in order and
/// through each row from its first column.
pub open spec fn coin_index(board: Board, row: int, col: int) -> nat {
    contested_in_rows(board, row) + contested_in_row(board, row, col)
}

/// The coin at a place of a list; beyond its end every coin is zero.
pub open spec fn coin_at(coins: Seq<u8>, place: nat) -> int {
    if place < coins.len() {
        coins[place as int] as int
    } else {
        0
    }
}

/// The generation that follows `board` when the contested births are
/// decided, in order, by the coins of the list.
pub open spec fn step_with(board: Board, coins: Seq<u8>) -> Board {
    Seq::new(
        board.len(),
        |r: int|
            Seq::new(
                board[r].len(),
                |c: int|
                    evolve(
                        board[r][c],
                        neighbors(board, r, c, Occupant::PlayerA) as int,
                        neighbors(board, r, c, Occupant::PlayerB) as int,
                        coin_winner(coin_at(coins, coin_index(board, r, c))),
                    ),
            ),
    )
}

/// A board of the given size on which nobody lives.
pub open spec fn empty_board(rows: nat, cols: nat) -> Board {
    Seq::new(rows, |r: int| Seq::new(cols, |c: int| Occupant::Empty))
}

/// Nobody lives on the board.
pub open spec fn all_empty(board: Board) -> bool {
    forall|r: int, c: int| in_bounds(board, r, c) ==> (#[trigger] board[r][c]) == Occupant::Empty
}

/// The board with one cell overwritten.
pub open spec fn put(board: Board, row: int, col: int, occupant: Occupant) -> Board {
    board.update(row, board[row].update(col, occupant))
}

/// The board with the two players exchanged in every cell.
pub open spec fn swapped(board: Board) -> Board {
    Seq::new(board.len(), |r: int| Seq::new(board[r].len(), |c: int| board[r][c].swapped()))
}

/// How often `who` occurs in a row.
pub open spec fn count_in_row(row: Seq<Occupant>, who: Occupant) -> nat
    decreases row.len(),
{
    if row.len() == 0 {
        0
    } else {
        count_in_row(row.drop_last(), who) + tally(row.last(), who)
    }
}

/// How many cells of the board hold `who`.
pub open spec fn population(board: Board, who: Occupant) -> nat
    decreases board.len(),
{
    if board.len() == 0 {
        0
    } else {
        population(board.drop_last(), who) + count_in_row(board.last(), who)
    }
}

/// A board that the rule leaves as it is, however the coins fall.
pub open spec fn is_still_life(board: Board) -> bool {
    forall|r: int, c: int|
        in_bounds(board, r, c) ==> {
            &&& (#[trigger] board[r][c]) == evolve(
                board[r][c],
                neighbors(board, r, c, Occupant::PlayerA) as int,
                neighbors(board, r, c, Occupant::PlayerB) as int,
                Occupant::PlayerA,
            )
            &&& board[r][c] == evolve(
                board[r][c],
                neighbors(board, r, c, Occupant::PlayerA) as int,
                neighbors(board, r, c, Occupant::PlayerB) as int,
                Occupant::PlayerB,
            )
        }
}

/// Whether the only life on the board is a block of two by two cells of
/// `who` with its first cell at `(row, col)`.
pub open spec fn is_lone_block(board: Board, row: int, col: int, who: Occupant) -> bool {
    &&& who != Occupant::Empty
    &&& in_bounds(board, row, col)
    &&& in_bounds(board, row + 1, col + 1)
    &&& forall|r: int, c: int|
        in_bounds(board, r, c) ==> (#[trigger] board[r][c]) == if row <= r <= row + 1 && col <= c
            <= col + 1 {
            who
        } else {
            Occupant::Empty
        }
}

/// The positions of the board that `who` holds.
pub open spec fn positions_of(board: Board, who: Occupant) -> Set<(int, int)> {
    Set::new(|p: (int, int)| in_bounds(board, p.0, p.1) && board[p.0][p.1] == who)
}

/// The positions `(at, col)` at which the row holds `who` in column `col`.
pub open spec fn positions_in_row(row: Seq<Occupant>, at: int, who: Occupant) -> Set<(int, int)> {
    Set::new(|p: (int, int)| p.0 == at && 0 <= p.1 < row.len() && row[p.1] == who)
}

/// The board after a list of placements, made in order: each is a row, a
/// column and the occupant put there.
pub open spec fn after_placements(board: Board, placements: Seq<(int, int, Occupant)>) -> Board
    decreases placements.len(),
{
    if placements.len() == 0 {
        board
    } else {
        let last = placements.last();
        put(after_placements(board, placements.drop_last()), last.0, last.1, last.2)
    }
}

/// The occupants that a list of placements puts down, in order.
pub open spec fn placed_occupants(placements: Seq<(int, int, Occupant)>) -> Seq<Occupant> {
    placements.map_values(|p: (int, int, Occupant)| p.2)
}

/// No two placements of the list name the same cell.
pub open spec fn distinct_cells(placements: Seq<(int, int, Occupant)>) -> bool {
    forall|i: int, j: int|
        0 <= i < j < placements.len() ==> !((#[trigger] placements[i]).0 == (
        #[trigger] placements[j]).0 && placements[i].1 == placements[j].1)
}

/// Whatever the coins show, the generation they decide may follow.
pub proof fn lemma_step_with_is_successor(board: Board, coins: Seq<u8>)
    ensures
        is_successor(board, step_with(board, coins)),
{
}

/// An empty grid stays empty: no generation that follows a board without
/// life has life on it.
pub proof fn lemma_empty_stays_empty(current: Board, next: Board)
    requires
        all_empty(current),
        is_successor(current, next),
    ensures
        all_empty(next),
{
    assert forall|r: int, c: int| in_bounds(next, r, c) implies (#[trigger] next[r][c])
        == Occupant::Empty by {
        assert(current[r].len() == next[r].len());
        lemma_nobody_around(current, r, c, Occupant::PlayerA);
        lemma_nobody_around(current, r, c, Occupant::PlayerB);
        assert(current[r][c] == Occupant::Empty);
    }
}

/// On a board without life no cell has a neighbour of either player.
pub proof fn lemma_nobody_around(board: Board, row: int, col: int, who: Occupant)
    requires
        all_empty(board),
        who != Occupant::Empty,
    ensures
        neighbors(board, row, col, who) == 0,
{
    reveal(neighbors);
    assert forall|r: int, c: int| tally(#[trigger] occupant_at(board, r, c), who) == 0 by {
        if in_bounds(board, r, c) {
            assert(board[r][c] == Occupant::Empty);
        }
    }
}

/// A cell without any neighbour, alive or not, is empty in the next
/// generation.
pub proof fn lemma_lonely_cell_dies(current: Board, next: Board, row: int, col: int)
    requires
        is_successor(current, next),
        in_bounds(current, row, col),
        neighbors(current, row, col, Occupant::PlayerA) == 0,
        neighbors(current, row, col, Occupant::PlayerB) == 0,
    ensures
        next[row][col] == Occupant::Empty,
{
}

/// An empty cell with exactly three neighbours of player A and none of
/// player B belongs to player A in the next generation.
pub proof fn lemma_three_neighbors_give_birth(current: Board, next: Board, row: int, col: int)
    requires
        is_successor(current, next),
        in_bounds(current, row, col),
        current[row][col] == Occupant::Empty,
        neighbors(current, row, col, Occupant::PlayerA) == 3,
        neighbors(current, row, col, Occupant::PlayerB) == 0,
    ensures
        next[row][col] == Occupant::PlayerA,
{
}

/// Where the players are exchanged on a board, every position holds the
/// opponent of whom it held.
pub proof fn lemma_occupant_swapped(board: Board, row: int, col: int)
    ensures
        occupant_at(swapped(board), row, col) == occupant_at(board, row, col).swapped(),
{
}

/// Exchanging the players on a board exchanges the two neighbour counts of
/// every cell.
pub proof fn lemma_neighbors_swapped(board: Board, row: int, col: int)
    ensures
        neighbors(swapped(board), row, col, Occupant::PlayerA) == neighbors(
            board,
            row,
            col,
            Occupant::PlayerB,
        ),
        neighbors(swapped(board), row, col, Occupant::PlayerB) == neighbors(
            board,
            row,
            col,
            Occupant::PlayerA,
        ),
{
    reveal(neighbors);
    lemma_occupant_swapped(board, row - 1, col - 1);
    lemma_occupant_swapped(board, row - 1, col);
    lemma_occupant_swapped(board, row - 1, col + 1);
    lemma_occupant_swapped(board, row, col - 1);
    lemma_occupant_swapped(board, row, col + 1);
    lemma_occupant_swapped(board, row + 1, col - 1);
    lemma_occupant_swapped(board, row + 1, col);
    lemma_occupant_swapped(board, row + 1, col + 1);
}

/// The rule is symmetric in the players: if `next` may follow `current`,
/// then `next` with the players exchanged may follow `current` with the
/// players exchanged.
pub proof fn lemma_step_symmetric(current: Board, next: Board)
    requires
        is_successor(current, next),
    ensures
        is_successor(swapped(current), swapped(next)),
{
    let mirrored = swapped(current);
    let mirrored_next = swapped(next);
    assert forall|r: int, c: int| in_bounds(mirrored, r, c) implies may_follow(
        mirrored[r][c],
        neighbors(mirrored, r, c, Occupant::PlayerA) as int,
        neighbors(mirrored, r, c, Occupant::PlayerB) as int,
        #[trigger] mirrored_next[r][c],
    ) by {
        let a = neighbors(current, r, c, Occupant::PlayerA) as int;
        let b = neighbors(current, r, c, Occupant::PlayerB) as int;
        assert(in_bounds(current, r, c));
        assert(current[r].len() == next[r].len());
        assert(may_follow(current[r][c], a, b, next[r][c]));
        lemma_neighbors_swapped(current, r, c);
        lemma_evolve_symmetric(current[r][c], a, b, Occupant::PlayerA);
        lemma_evolve_symmetric(current[r][c], a, b, Occupant::PlayerB);
    }
    assert forall|r: int| 0 <= r < mirrored.len() implies (#[trigger] mirrored[r]).len()
        == mirrored_next[r].len() by {
        assert(current[r].len() == next[r].len());
    }
}

/// Overwriting one cell of a row changes the count of `who` by what left
/// the cell and what came.
pub proof fn lemma_count_in_row_update(row: Seq<Occupant>, col: int, occupant: Occupant, who: Occupant)
    requires
        0 <= col < row.len(),
    ensures
        count_in_row(row.update(col, occupant), who) == count_in_row(row, who) - tally(
            row[col],
            who,
        ) + tally(occupant, who),
    decreases row.len(),
{
    let updated = row.update(col, occupant);
    if col == row.len() - 1 {
        assert(updated.drop_last() =~= row.drop_last());
    } else {
        assert(updated.drop_last() =~= row.drop_last().update(col, occupant));
        lemma_count_in_row_update(row.drop_last(), col, occupant, who);
    }
}

/// Overwriting one cell changes the population of `who` by what left the
/// cell and what came.
pub proof fn lemma_put_population(board: Board, row: int, col: int, occupant: Occupant, who: Occupant)
    requires
        in_bounds(board, row, col),
    ensures
        population(put(board, row, col, occupant), who) == population(board, who) - tally(
            board[row][col],
            who,
        ) + tally(occupant, who),
    decreases board.len(),
{
    let updated = put(board, row, col, occupant);
    if row == board.len() - 1 {
        assert(updated.drop_last() =~= board.drop_last());
        lemma_count_in_row_update(board[row], col, occupant, who);
    } else {
        assert(updated.drop_last() =~= put(board.drop_last(), row, col, occupant));
        lemma_put_population(board.drop_last(), row, col, occupant, who);
    }
}

/// A row that `who` does not occur in counts zero.
pub proof fn lemma_count_in_row_absent(row: Seq<Occupant>, who: Occupant)
    requires
        forall|c: int| 0 <= c < row.len() ==> row[c] != who,
    ensures
        count_in_row(row, who) == 0,
    decreases row.len(),
{
    if row.len() > 0 {
        lemma_count_in_row_absent(row.drop_last(), who);
    }
}

/// A board without life has no population of either player.
pub proof fn lemma_population_of_empty(board: Board, who: Occupant)
    requires
        all_empty(board),
        who != Occupant::Empty,
    ensures
        population(board, who) == 0,
    decreases board.len(),
{
    if board.len() > 0 {
        let last = board.len() - 1;
        assert forall|c: int| 0 <= c < board.last().len() implies board.last()[c] != who by {
            assert(in_bounds(board, last, c));
            assert(board[last][c] == Occupant::Empty);
        }
        lemma_count_in_row_absent(board.last(), who);
        assert forall|r: int, c: int| in_bounds(board.drop_last(), r, c) implies (
        #[trigger] board.drop_last()[r][c]) == Occupant::Empty by {
            assert(in_bounds(board, r, c));
            assert(board[r][c] == Occupant::Empty);
        }
        lemma_population_of_empty(board.drop_last(), who);
    }
}

/// Placements keep the shape of the board, and a cell that none of them
/// names keeps its occupant.
pub proof fn lemma_placements_elsewhere(
    board: Board,
    placements: Seq<(int, int, Occupant)>,
    row: int,
    col: int,
)
    requires
        forall|i: int|
            0 <= i < placements.len() ==> in_bounds(
                board,
                (#[trigger] placements[i]).0,
                placements[i].1,
            ),
        forall|i: int|
            0 <= i < placements.len() ==> !((#[trigger] placements[i]).0 == row && placements[i].1
                == col),
    ensures
        same_shape(board, after_placements(board, placements)),
        in_bounds(board, row, col) ==> after_placements(board, placements)[row][col]
            == board[row][col],
    decreases placements.len(),
{
    if placements.len() > 0 {
        let init = placements.drop_last();
        assert forall|i: int| 0 <= i < init.len() implies in_bounds(
            board,
            (#[trigger] init[i]).0,
            init[i].1,
        ) && !(init[i].0 == row && init[i].1 == col) by {
            assert(init[i] == placements[i]);
        }
        lemma_placements_elsewhere(board, init, row, col);
        let before = after_placements(board, init);
        let last = placements.last();
        assert(in_bounds(board, last.0, last.1));
        assert(before[last.0].len() == board[last.0].len());
        let after = put(before, last.0, last.1, last.2);
        assert forall|r: int| 0 <= r < board.len() implies (#[trigger] board[r]).len()
            == after[r].len() by {
            assert(board[r].len() == before[r].len());
        }
    }
}

/// Counting after placing: on a board that starts empty, after placements on
/// pairwise distinct cells of the board, the population of a player is the
/// number of placements that put that player down.
pub proof fn lemma_population_after_placements(
    board: Board,
    placements: Seq<(int, int, Occupant)>,
    who: Occupant,
)
    requires
        all_empty(board),
        who != Occupant::Empty,
        distinct_cells(placements),
        forall|i: int|
            0 <= i < placements.len() ==> in_bounds(
                board,
                (#[trigger] placements[i]).0,
                placements[i].1,
            ),
    ensures
        population(after_placements(board, placements), who) == count_in_row(
            placed_occupants(placements),
            who,
        ),
    decreases placements.len(),
{
    if placements.len() == 0 {
        lemma_population_of_empty(board, who);
        assert(placed_occupants(placements) =~= Seq::<Occupant>::empty());
    } else {
        let init = placements.drop_last();
        let last = placements.last();
        let n = placements.len() - 1;
        assert(last == placements[n]);
        assert forall|i: int| 0 <= i < init.len() implies in_bounds(
            board,
            (#[trigger] init[i]).0,
            init[i].1,
        ) && !(init[i].0 == last.0 && init[i].1 == last.1) by {
            assert(init[i] == placements[i]);
        }
        assert forall|i: int, j: int| 0 <= i < j < init.len() implies !((#[trigger] init[i]).0 == (
        #[trigger] init[j]).0 && init[i].1 == init[j].1) by {
            assert(init[i] == placements[i]);
            assert(init[j] == placements[j]);
        }
        lemma_population_after_placements(board, init, who);
        lemma_placements_elsewhere(board, init, last.0, last.1);
        let before = after_placements(board, init);
        assert(in_bounds(board, last.0, last.1));
        assert(board[last.0].len() == before[last.0].len());
        assert(before[last.0][last.1] == Occupant::Empty);
        lemma_put_population(before, last.0, last.1, last.2, who);
        assert(placed_occupants(placements).drop_last() =~= placed_occupants(init));
    }
}

/// The only generation that may follow a still life is the still life
/// itself.
pub proof fn lemma_still_life_repeats(current: Board, next: Board)
    requires
        is_still_life(current),
        is_successor(current, next),
    ensures
        next == current,
{
    assert forall|r: int| 0 <= r < current.len() implies #[trigger] next[r] == current[r] by {
        assert(current[r].len() == next[r].len());
        assert forall|c: int| 0 <= c < current[r].len() implies #[trigger] next[r][c]
            == current[r][c] by {
            assert(in_bounds(current, r, c));
        }
        assert(next[r] =~= current[r]);
    }
    assert(next =~= current);
}

/// Where no birth is contested, the rule leaves no choice: two generations
/// that may follow the same board are equal.
pub proof fn lemma_uncontested_successor_is_unique(current: Board, first: Board, second: Board)
    requires
        forall|r: int, c: int| !contested_at(current, r, c),
        is_successor(current, first),
        is_successor(current, second),
    ensures
        first == second,
{
    assert forall|r: int| 0 <= r < current.len() implies #[trigger] first[r] == second[r] by {
        assert(current[r].len() == first[r].len());
        assert(current[r].len() == second[r].len());
        assert forall|c: int| 0 <= c < current[r].len() implies #[trigger] first[r][c]
            == second[r][c] by {
            assert(!contested_at(current, r, c));
            assert(in_bounds(current, r, c));
        }
        assert(first[r] =~= second[r]);
    }
    assert(first =~= second);
}

/// Stepping and exchanging the players commute.  Where no birth is
/// contested: the generation that follows the board with the players
/// exchanged is the generation that follows the board, with the players
/// exchanged.
pub proof fn lemma_step_commutes_with_swap(current: Board, next: Board, mirrored_next: Board)
    requires
        forall|r: int, c: int| !contested_at(current, r, c),
        is_successor(current, next),
        is_successor(swapped(current), mirrored_next),
    ensures
        mirrored_next == swapped(next),
{
    let mirrored = swapped(current);
    assert forall|r: int, c: int| !contested_at(mirrored, r, c) by {
        lemma_neighbors_swapped(current, r, c);
        assert(!contested_at(current, r, c));
    }
    lemma_step_symmetric(current, next);
    lemma_uncontested_successor_is_unique(mirrored, mirrored_next, swapped(next));
}

/// The count of `who` in a row is the number of columns in which the row
/// holds `who`.
pub proof fn lemma_count_in_row_is_cardinality(row: Seq<Occupant>, at: int, who: Occupant)
    ensures
        positions_in_row(row, at, who).finite(),
        count_in_row(row, who) == positions_in_row(row, at, who).len(),
    decreases row.len(),
{
    let all = positions_in_row(row, at, who);
    if row.len() == 0 {
        assert(all =~= Set::<(int, int)>::empty());
    } else {
        let init = row.drop_last();
        let fewer = positions_in_row(init, at, who);
        lemma_count_in_row_is_cardinality(init, at, who);
        let last = (at, row.len() - 1);
        assert(!fewer.contains(last));
        if row.last() == who {
            assert(all =~= fewer.insert(last));
        } else {
            assert(all =~= fewer);
        }
    }
}

/// The population of `who` is the number of positions that `who` holds.
pub proof fn lemma_population_is_cardinality(board: Board, who: Occupant)
    ensures
        positions_of(board, who).finite(),
        population(board, who) == positions_of(board, who).len(),
    decreases board.len(),
{
    let all = positions_of(board, who);
    if board.len() == 0 {
        assert(all =~= Set::<(int, int)>::empty());
    } else {
        let init = board.drop_last();
        let at = board.len() - 1;
        let above = positions_of(init, who);
        let below = positions_in_row(board.last(), at, who);
        lemma_population_is_cardinality(init, who);
        lemma_count_in_row_is_cardinality(board.last(), at, who);
        assert(above.disjoint(below));
        assert(all =~= above + below) by {
            assert forall|p: (int, int)| all.contains(p) <==> (above + below).contains(p) by {
                if 0 <= p.0 < at {
                    assert(init[p.0] == board[p.0]);
                }
            }
        }
        vstd::set_lib::lemma_set_disjoint_lens(above, below);
    }
}

/// A block of two by two cells that stands alone is a still life.
pub proof fn lemma_lone_block_is_still_life(board: Board, row: int, col: int, who: Occupant)
    requires
        rectangular(board),
        is_lone_block(board, row, col, who),
    ensures
        is_still_life(board),
{
    assert forall|r: int, c: int| in_bounds(board, r, c) implies {
        &&& (#[trigger] board[r][c]) == evolve(
            board[r][c],
            neighbors(board, r, c, Occupant::PlayerA) as int,
            neighbors(board, r, c, Occupant::PlayerB) as int,
            Occupant::PlayerA,
        )
        &&& board[r][c] == evolve(
            board[r][c],
            neighbors(board, r, c, Occupant::PlayerA) as int,
            neighbors(board, r, c, Occupant::PlayerB) as int,
            Occupant::PlayerB,
        )
    } by {
        lemma_around_lone_block(board, row, col, who, r, c);
    }
}

/// Around a block that stands alone: a cell of the block has three
/// neighbours of its owner, any other cell has at most two, and no cell has
/// a neighbour of the other player.
pub proof fn lemma_around_lone_block(
    board: Board,
    row: int,
    col: int,
    who: Occupant,
    r: int,
    c: int,
)
    requires
        rectangular(board),
        is_lone_block(board, row, col, who),
        in_bounds(board, r, c),
    ensures
        neighbors(board, r, c, who.swapped()) == 0,
        board[r][c] == who ==> neighbors(board, r, c, who) == 3,
        board[r][c] != who ==> neighbors(board, r, c, who) <= 2,
{
    reveal(neighbors);
    assert(board[row].len() == width(board));
    assert(board[row + 1].len() == width(board));
    assert(board[r].len() == width(board));
    assert forall|i: int, j: int| #[trigger]
        occupant_at(board, i, j) == if row <= i <= row + 1 && col <= j <= col + 1 {
            who
        } else {
            Occupant::Empty
        } by {
        if in_bounds(board, i, j) {
            assert(board[i][j] == occupant_at(board, i, j));
        }
        if 0 <= i < board.len() {
            assert(board[i].len() == width(board));
        }
    }
}

} // verus!
