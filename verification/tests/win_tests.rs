use tictactoe::board::Board;

const LINES: [[usize; 3]; 8] = [
    [0, 1, 2],
    [3, 4, 5],
    [6, 7, 8],
    [0, 3, 6],
    [1, 4, 7],
    [2, 5, 8],
    [0, 4, 8],
    [2, 4, 6],
];

fn board_with_line(line: [usize; 3], side: i8) -> Board {
    let mut b = Board::new();
    for &cell in line.iter() {
        b.state[cell] = side;
    }
    b.counter = 3;
    b
}

#[test]
fn every_line_wins_for_its_side_only() {
    for &line in LINES.iter() {
        for side in [0i8, 1i8] {
            let b = board_with_line(line, side);
            let other = 1 - side;
            assert!(b.is_win(&side));
            assert!(!b.is_win(&other));
        }
    }
}

#[test]
fn no_win_on_empty_board() {
    let b = Board::new();
    assert!(!b.is_win(&0));
    assert!(!b.is_win(&1));
}

#[test]
fn two_in_a_line_is_no_win() {
    let mut b = Board::new();
    b.state[0] = 0;
    b.state[1] = 0;
    b.counter = 2;
    assert!(!b.is_win(&0));
    assert!(!b.is_win(&1));
}

#[test]
fn mixed_line_is_no_win() {
    let mut b = Board::new();
    b.state[0] = 0;
    b.state[1] = 1;
    b.state[2] = 0;
    b.counter = 3;
    assert!(!b.is_win(&0));
    assert!(!b.is_win(&1));
}
