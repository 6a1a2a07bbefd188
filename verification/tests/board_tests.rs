use tictactoe::board::Board;

#[test]
fn new_board_is_empty() {
    let b = Board::new();
    assert_eq!(b.counter, 0);
    assert_eq!(b.state, vec![-1i8; 9]);
}

#[test]
fn apply_move_places_alternating_marks() {
    let mut b = Board::new();
    assert!(b.apply_move(4));
    assert_eq!(b.state[4], 0);
    assert_eq!(b.counter, 1);
    assert!(b.apply_move(0));
    assert_eq!(b.state[0], 1);
    assert_eq!(b.counter, 2);
    assert!(b.apply_move(8));
    assert_eq!(b.state[8], 0);
    assert_eq!(b.counter, 3);
}

#[test]
fn apply_move_rejects_occupied_cell() {
    let mut b = Board::new();
    assert!(b.apply_move(4));
    assert!(!b.apply_move(4));
    assert_eq!(b.state[4], 0);
    assert_eq!(b.counter, 1);
}

#[test]
fn apply_then_unmove_restores_board() {
    let mut b = Board::new();
    b.apply_move(0);
    b.apply_move(5);
    let cells_before = b.state.clone();
    let counter_before = b.counter;
    assert!(b.apply_move(7));
    b.unmove(7);
    assert_eq!(b.state, cells_before);
    assert_eq!(b.counter, counter_before);
}

#[test]
fn legal_moves_plus_counter_is_nine() {
    let mut b = Board::new();
    assert_eq!(b.valid_moves().len() as u32 + b.counter, 9);
    b.apply_move(3);
    assert_eq!(b.valid_moves().len() as u32 + b.counter, 9);
    b.apply_move(6);
    b.apply_move(0);
    assert_eq!(b.valid_moves().len() as u32 + b.counter, 9);
}

#[test]
fn valid_moves_lists_empty_cells_ascending() {
    let mut b = Board::new();
    assert_eq!(b.valid_moves(), vec![0, 1, 2, 3, 4, 5, 6, 7, 8]);
    b.apply_move(4);
    b.apply_move(0);
    assert_eq!(b.valid_moves(), vec![1, 2, 3, 5, 6, 7, 8]);
}

#[test]
fn is_end_only_on_full_board() {
    let mut b = Board::new();
    assert!(!b.is_end());
    for i in 0..9 {
        assert!(!b.is_end());
        b.apply_move(i);
    }
    assert!(b.is_end());
}

#[test]
fn render_empty_board_shows_indices() {
    let b = Board::new();
    assert_eq!(b.render_text(), "0|1|2\n-----\n3|4|5\n-----\n6|7|8");
}

#[test]
fn render_shows_marks_for_occupied_cells() {
    let mut b = Board::new();
    b.apply_move(0);
    b.apply_move(4);
    b.apply_move(8);
    assert_eq!(b.render_text(), "X|1|2\n-----\n3|O|5\n-----\n6|7|X");
}
