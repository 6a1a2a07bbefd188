use tictactoe::board::Board;
use tictactoe::game::{play_game, GameState};
use tictactoe::players::{BestPlayer, Player, RandomPlayer};
use tictactoe::search::minimax;

#[test]
fn empty_board_is_a_forced_draw() {
    let mut b = Board::new();
    let (score, mv) = minimax(&mut b, &0);
    assert_eq!(score, 0);
    assert!(mv.is_some());
    // The search backtracks fully: the board comes out untouched.
    assert_eq!(b.counter, 0);
    assert_eq!(b.state, vec![-1i8; 9]);
}

#[test]
fn minimax_completes_the_top_row() {
    // Cells 0 and 1 belong to side 0, cell 2 is empty: move 2 wins at
    // once, so the optimal line scores +1 through move 2.
    let mut b = Board::new();
    b.state[0] = 0;
    b.state[1] = 0;
    b.counter = 2;
    let (score, mv) = minimax(&mut b, &0);
    assert_eq!(score, 1);
    assert_eq!(mv, Some(2));
}

#[test]
fn minimax_on_terminal_position_returns_no_move() {
    let mut b = Board::new();
    b.state[0] = 0;
    b.state[1] = 0;
    b.state[2] = 0;
    b.counter = 3;
    let (score, mv) = minimax(&mut b, &1);
    assert_eq!(score, 1);
    assert_eq!(mv, None);

    let mut b = Board::new();
    b.state[3] = 1;
    b.state[4] = 1;
    b.state[5] = 1;
    b.counter = 3;
    let (score, mv) = minimax(&mut b, &0);
    assert_eq!(score, -1);
    assert_eq!(mv, None);
}

#[test]
fn minimax_blocks_an_immediate_threat() {
    // Side 0 threatens the top row at cell 2; side 1 to move must block
    // there, since every other move loses.
    let mut b = Board::new();
    b.state[0] = 0;
    b.state[1] = 0;
    b.state[4] = 1;
    b.counter = 3;
    let (_score, mv) = minimax(&mut b, &1);
    assert_eq!(mv, Some(2));
}

#[test]
fn best_against_best_draws_in_nine_moves() {
    let mut b = Board::new();
    let p0 = Player::Best(BestPlayer::new(0));
    let p1 = Player::Best(BestPlayer::new(1));
    let result = play_game(&mut b, &p0, &p1);
    assert_eq!(result, GameState::Draw);
    assert_eq!(b.counter, 9);
    assert!(!b.is_win(&0));
    assert!(!b.is_win(&1));
}

#[test]
fn best_never_loses_to_random() {
    for _ in 0..3 {
        let mut b = Board::new();
        let p0 = Player::Best(BestPlayer::new(0));
        let p1 = Player::Random(RandomPlayer);
        let result = play_game(&mut b, &p0, &p1);
        assert_ne!(result, GameState::Won(1));
    }
}
