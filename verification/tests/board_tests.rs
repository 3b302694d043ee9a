use tic_tac_toe::board::{
    count_filled, is_grid, winning, CELLS, EMPTY, LINES, MARK_FIRST, MARK_SECOND,
};

const ALL_LINES: [[usize; 3]; 8] = [
    [0, 1, 2],
    [3, 4, 5],
    [6, 7, 8],
    [0, 3, 6],
    [1, 4, 7],
    [2, 5, 8],
    [0, 4, 8],
    [2, 4, 6],
];

#[test]
fn the_grid_has_nine_cells_and_eight_lines() {
    assert_eq!(CELLS, 9);
    assert_eq!(LINES, 8);
    assert_eq!(ALL_LINES.len(), LINES);
}

#[test]
fn the_empty_value_is_no_mark() {
    assert_ne!(EMPTY, MARK_FIRST);
    assert_ne!(EMPTY, MARK_SECOND);
    assert_ne!(MARK_FIRST, MARK_SECOND);
}

#[test]
fn an_empty_grid_is_not_won() {
    assert!(!winning(&[EMPTY; 9]));
}

#[test]
fn every_line_wins_for_the_first_mark() {
    for line in ALL_LINES {
        let mut board = [EMPTY; 9];
        for cell in line {
            board[cell] = MARK_FIRST;
        }
        assert!(winning(&board), "line {:?}", line);
    }
}

#[test]
fn every_line_wins_for_the_second_mark() {
    for line in ALL_LINES {
        let mut board = [EMPTY; 9];
        for cell in line {
            board[cell] = MARK_SECOND;
        }
        assert!(winning(&board), "line {:?}", line);
    }
}

#[test]
fn two_in_a_line_do_not_win() {
    for line in ALL_LINES {
        for missing in 0..3 {
            let mut board = [EMPTY; 9];
            for (k, cell) in line.iter().enumerate() {
                if k != missing {
                    board[*cell] = MARK_FIRST;
                }
            }
            assert!(!winning(&board), "line {:?} without {}", line, missing);
        }
    }
}

#[test]
fn a_mixed_line_does_not_win() {
    for line in ALL_LINES {
        let mut board = [EMPTY; 9];
        board[line[0]] = MARK_FIRST;
        board[line[1]] = MARK_SECOND;
        board[line[2]] = MARK_FIRST;
        assert!(!winning(&board), "line {:?}", line);
    }
}

#[test]
fn equal_cells_that_are_no_marks_do_not_win() {
    assert!(!winning(&[7; 9]));
    assert!(!winning(&[EMPTY, EMPTY, EMPTY, 0, 1, 0, 1, 0, 1]));
}

#[test]
fn a_full_grid_without_a_line_is_not_won() {
    // 0 1 0
    // 0 1 1
    // 1 0 0
    assert!(!winning(&[0, 1, 0, 0, 1, 1, 1, 0, 0]));
}

#[test]
fn a_full_grid_with_a_line_is_won() {
    // 0 0 0
    // 1 1 0
    // 1 1 0
    assert!(winning(&[0, 0, 0, 1, 1, 0, 1, 1, 0]));
}

#[test]
fn count_filled_counts_the_cells_that_are_not_empty() {
    assert_eq!(count_filled(&[EMPTY; 9]), 0);
    assert_eq!(count_filled(&[0, EMPTY, EMPTY, EMPTY, 1, EMPTY, EMPTY, EMPTY, 0]), 3);
    assert_eq!(count_filled(&[0, 1, 0, 0, 1, 1, 1, 0, 0]), 9);
    assert_eq!(count_filled(&[EMPTY, EMPTY, EMPTY, EMPTY, EMPTY, EMPTY, EMPTY, EMPTY, 1]), 1);
}

#[test]
fn is_grid_accepts_marks_and_empty_cells_only() {
    assert!(is_grid(&[EMPTY; 9]));
    assert!(is_grid(&[0, 1, 0, 0, 1, 1, 1, 0, 0]));
    assert!(is_grid(&[0, EMPTY, 1, EMPTY, EMPTY, EMPTY, EMPTY, EMPTY, EMPTY]));
    assert!(!is_grid(&[2, EMPTY, EMPTY, EMPTY, EMPTY, EMPTY, EMPTY, EMPTY, EMPTY]));
    assert!(!is_grid(&[EMPTY, EMPTY, EMPTY, EMPTY, EMPTY, EMPTY, EMPTY, EMPTY, 8]));
    assert!(!is_grid(&[255; 9]));
}
