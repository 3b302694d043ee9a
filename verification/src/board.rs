//! The grid, its eight lines and the win predicate.
//!
//! The grid has nine cells, numbered row by row from the top left. A cell is
//! empty or holds the mark of one participant. The value of an empty cell is
//! none of the two marks, so a line of empty cells is never a line of equal
//! marks.
use vstd::prelude::*;

verus! {

/// The number of cells of the grid.
pub const CELLS: usize = 9;

/// The mark of the participant who opened the match, and who moves first.
pub const MARK_FIRST: u8 = 0;

/// The mark of the participant who joined.
pub const MARK_SECOND: u8 = 1;

/// The value of a cell that holds no mark.
pub const EMPTY: u8 = 9;

/// The number of lines: three rows, three columns, two diagonals.
pub const LINES: usize = 8;

/// Whether `cell` holds a participant's mark.
pub open spec fn is_mark(cell: u8) -> bool {
    cell == MARK_FIRST || cell == MARK_SECOND
}

/// Whether `board` is a grid: nine cells, each empty or marked.
pub open spec fn is_board(board: Seq<u8>) -> bool {
    &&& board.len() == CELLS
    &&& forall|i: int| 0 <= i < CELLS ==> is_mark(#[trigger] board[i]) || board[i] == EMPTY
}

/// The grid before the first move.
pub open spec fn empty_board() -> Seq<u8> {
    Seq::new(CELLS as nat, |i: int| EMPTY)
}

/// The three cells of line `l`: the rows are lines 0 to 2 from the top, the
/// columns lines 3 to 5 from the left, line 6 runs from the top left to the
/// bottom right and line 7 from the top right to the bottom left.
pub open spec fn line(l: int) -> (int, int, int) {
    if 0 <= l < 3 {
        (3 * l, 3 * l + 1, 3 * l + 2)
    } else if 3 <= l < 6 {
        (l - 3, l, l + 3)
    } else if l == 6 {
        (0, 4, 8)
    } else {
        (2, 4, 6)
    }
}

/// Whether the three cells of line `l` all hold `mark`.
pub open spec fn line_holds(board: Seq<u8>, l: int, mark: u8) -> bool {
    let (a, b, c) = line(l);
    board[a] == mark && board[b] == mark && board[c] == mark
}

/// Whether line `l` is won: its three cells hold the same participant's mark.
pub open spec fn line_won(board: Seq<u8>, l: int) -> bool {
    exists|mark: u8| is_mark(mark) && #[trigger] line_holds(board, l, mark)
}

/// Whether some line of `board` is won.
pub open spec fn has_win(board: Seq<u8>) -> bool {
    exists|l: int| 0 <= l < LINES && #[trigger] line_won(board, l)
}

/// The number of cells of `board` that hold a mark or anything else but the
/// empty value.
pub open spec fn filled(board: Seq<u8>) -> nat
    decreases board.len(),
{
    if board.len() == 0 {
        0
    } else {
        filled(board.drop_last()) + if board.last() != EMPTY {
            1nat
        } else {
            0nat
        }
    }
}

/// No more cells are filled than there are.
pub proof fn lemma_filled_bound(board: Seq<u8>)
    ensures
        filled(board) <= board.len(),
    decreases board.len(),
{
    if board.len() > 0 {
        lemma_filled_bound(board.drop_last());
    }
}

/// A grid of empty cells has no filled cell.
pub proof fn lemma_filled_none(board: Seq<u8>)
    requires
        forall|i: int| 0 <= i < board.len() ==> board[i] == EMPTY,
    ensures
        filled(board) == 0,
    decreases board.len(),
{
    if board.len() > 0 {
        lemma_filled_none(board.drop_last());
    }
}

/// Writing a mark into an empty cell fills one cell more.
pub proof fn lemma_filled_update(board: Seq<u8>, cell: int, mark: u8)
    requires
        0 <= cell < board.len(),
        board[cell] == EMPTY,
        mark != EMPTY,
    ensures
        filled(board.update(cell, mark)) == filled(board) + 1,
    decreases board.len(),
{
    let after = board.update(cell, mark);
    if cell == board.len() - 1 {
        assert(after.drop_last() =~= board.drop_last());
    } else {
        assert(after.drop_last() =~= board.drop_last().update(cell, mark));
        lemma_filled_update(board.drop_last(), cell, mark);
    }
}

/// Where every cell is filled, no cell is empty.
pub proof fn lemma_filled_all(board: Seq<u8>)
    requires
        filled(board) == board.len(),
    ensures
        forall|i: int| 0 <= i < board.len() ==> board[i] != EMPTY,
    decreases board.len(),
{
    if board.len() > 0 {
        lemma_filled_bound(board.drop_last());
        lemma_filled_all(board.drop_last());
        assert forall|i: int| 0 <= i < board.len() implies board[i] != EMPTY by {
            if i < board.len() - 1 {
                assert(board[i] == board.drop_last()[i]);
            }
        }
    }
}

/// A line with an empty cell is not won.
pub proof fn lemma_empty_cell_blocks_line(board: Seq<u8>, l: int)
    requires
        0 <= l < LINES,
        board[line(l).0] == EMPTY || board[line(l).1] == EMPTY || board[line(l).2] == EMPTY,
    ensures
        !line_won(board, l),
{
    assert forall|mark: u8| is_mark(mark) implies !line_holds(board, l, mark) by {}
}

/// Where no cell is filled, every cell is empty.
pub proof fn lemma_filled_zero(board: Seq<u8>)
    requires
        filled(board) == 0,
    ensures
        forall|i: int| 0 <= i < board.len() ==> board[i] == EMPTY,
    decreases board.len(),
{
    if board.len() > 0 {
        lemma_filled_zero(board.drop_last());
        assert forall|i: int| 0 <= i < board.len() implies board[i] == EMPTY by {
            if i < board.len() - 1 {
                assert(board[i] == board.drop_last()[i]);
            }
        }
    }
}

/// A grid without a filled cell has no won line.
pub proof fn lemma_unfilled_has_no_win(board: Seq<u8>)
    requires
        board.len() == CELLS,
        filled(board) == 0,
    ensures
        !has_win(board),
{
    lemma_filled_zero(board);
    assert forall|l: int| 0 <= l < LINES implies !line_won(board, l) by {
        lemma_empty_cell_blocks_line(board, l);
    }
}

/// The empty grid is a grid without a filled cell, and has no won line.
pub proof fn lemma_empty_board_has_no_win()
    ensures
        is_board(empty_board()),
        filled(empty_board()) == 0,
        !has_win(empty_board()),
{
    lemma_filled_none(empty_board());
    lemma_unfilled_has_no_win(empty_board());
}

/// A newly won line runs through the cell that was written last, and holds
/// the mark that was written there.
pub proof fn lemma_new_win_is_movers(board: Seq<u8>, cell: int, mark: u8, l: int)
    requires
        board.len() == CELLS,
        0 <= cell < CELLS,
        0 <= l < LINES,
        !has_win(board),
        line_won(board.update(cell, mark), l),
    ensures
        line_holds(board.update(cell, mark), l, mark),
        line(l).0 == cell || line(l).1 == cell || line(l).2 == cell,
{
    let after = board.update(cell, mark);
    let (a, b, c) = line(l);
    let held = choose|m: u8| is_mark(m) && #[trigger] line_holds(after, l, m);
    if a != cell && b != cell && c != cell {
        assert(line_holds(board, l, held));
        assert(line_won(board, l));
    }
}

/// Whether every cell of `board` is empty or holds a participant's mark.
pub fn is_grid(board: &[u8; 9]) -> (grid: bool)
    ensures
        grid == is_board(board@),
{
    let mut i: usize = 0;
    while i < CELLS
        invariant
            i <= CELLS,
            forall|k: int| 0 <= k < i ==> is_mark(#[trigger] board@[k]) || board@[k] == EMPTY,
        decreases CELLS - i,
    {
        let cell: u8 = board[i];
        if cell != MARK_FIRST && cell != MARK_SECOND && cell != EMPTY {
            return false;
        }
        i = i + 1;
    }
    true
}

/// The number of cells of `board` that are not empty.
pub fn count_filled(board: &[u8; 9]) -> (count: u8)
    ensures
        count == filled(board@),
        count <= CELLS,
{
    let mut count: u8 = 0;
    let mut i: usize = 0;
    while i < CELLS
        invariant
            i <= CELLS,
            count <= i,
            count == filled(board@.take(i as int)),
        decreases CELLS - i,
    {
        proof {
            assert(board@.take(i + 1).drop_last() =~= board@.take(i as int));
        }
        if board[i] != EMPTY {
            count = count + 1;
        }
        i = i + 1;
    }
    proof {
        assert(board@.take(CELLS as int) =~= board@);
    }
    count
}

/// Whether some line of `board` holds three equal marks.
pub fn winning(board: &[u8; 9]) -> (won: bool)
    ensures
        won == has_win(board@),
{
    let rows: bool = same_mark(board[0], board[1], board[2]) || same_mark(
        board[3],
        board[4],
        board[5],
    ) || same_mark(board[6], board[7], board[8]);
    let columns: bool = same_mark(board[0], board[3], board[6]) || same_mark(
        board[1],
        board[4],
        board[7],
    ) || same_mark(board[2], board[5], board[8]);
    let diagonals: bool = same_mark(board[0], board[4], board[8]) || same_mark(
        board[2],
        board[4],
        board[6],
    );
    proof {
        let b = board@;
        assert forall|l: int| 0 <= l < LINES implies line_won(b, l) == spec_same_mark(
            b[line(l).0],
            b[line(l).1],
            b[line(l).2],
        ) by {
            let first = b[line(l).0];
            if spec_same_mark(b[line(l).0], b[line(l).1], b[line(l).2]) {
                assert(line_holds(b, l, first));
            }
        }
        if rows || columns || diagonals {
            let l: int = if same_mark(b[0], b[1], b[2]) {
                0
            } else if same_mark(b[3], b[4], b[5]) {
                1
            } else if same_mark(b[6], b[7], b[8]) {
                2
            } else if same_mark(b[0], b[3], b[6]) {
                3
            } else if same_mark(b[1], b[4], b[7]) {
                4
            } else if same_mark(b[2], b[5], b[8]) {
                5
            } else if same_mark(b[0], b[4], b[8]) {
                6
            } else {
                7
            };
            assert(line_won(b, l));
        }
    }
    rows || columns || diagonals
}

/// Whether three cells hold the same participant's mark.
pub open spec fn spec_same_mark(a: u8, b: u8, c: u8) -> bool {
    a == b && a == c && is_mark(a)
}

#[verifier::when_used_as_spec(spec_same_mark)]
fn same_mark(a: u8, b: u8, c: u8) -> (same: bool)
    ensures
        same == spec_same_mark(a, b, c),
{
    a == b && a == c && (a == MARK_FIRST || a == MARK_SECOND)
}

} // verus!
