use tictactoe::board::Board;
use tictactoe::players::{BetterPlayer, HumanMoveOutcome, HumanPlayer, Player, RandomPlayer};

#[test]
fn dispatch_applies_one_move_per_strategy() {
    let mut b = Board::new();
    let random = Player::Random(RandomPlayer);
    let greedy = Player::Better(BetterPlayer::new(1));
    let mv0 = random.play(&mut b);
    assert_eq!(b.state[mv0 as usize], 0);
    assert_eq!(b.counter, 1);
    let mv1 = greedy.play(&mut b);
    assert_eq!(b.state[mv1 as usize], 1);
    assert_eq!(b.counter, 2);
}

#[test]
fn greedy_takes_immediate_win() {
    // Side 0 holds cells 0 and 1 of the top row; cell 2 completes it.
    let mut b = Board::new();
    b.apply_move(0); // X
    b.apply_move(3); // O
    b.apply_move(1); // X
    b.apply_move(4); // O
    let greedy = BetterPlayer::new(0);
    let mv = greedy.play(&mut b);
    assert_eq!(mv, 2);
    assert!(b.is_win(&0));
}

#[test]
fn greedy_takes_least_winning_cell() {
    // Side 0 holds 1, 4 and 2, 5: cells 6 (diagonal 2-4-6), 7 (middle
    // column) and 8 (right column) each win at once; the ascending scan
    // must stop at 6.
    let mut b = Board::new();
    b.state[1] = 0;
    b.state[4] = 0;
    b.state[2] = 0;
    b.state[5] = 0;
    b.state[0] = 1;
    b.state[3] = 1;
    b.counter = 6;
    let greedy = BetterPlayer::new(0);
    let mv = greedy.play(&mut b);
    assert_eq!(mv, 6);
    assert!(b.is_win(&0));
}

#[test]
fn greedy_without_win_plays_some_legal_move() {
    let mut b = Board::new();
    let greedy = BetterPlayer::new(0);
    let mv = greedy.play(&mut b);
    assert!((0..9).contains(&mv));
    assert_eq!(b.state[mv as usize], 0);
    assert_eq!(b.counter, 1);
}

#[test]
fn random_player_takes_the_only_empty_cell() {
    let mut b = Board::new();
    for i in 0..8 {
        b.apply_move(i);
    }
    assert_eq!(b.state[8], -1);
    let random = RandomPlayer;
    let mv = random.play(&mut b);
    assert_eq!(mv, 8);
    assert!(b.is_end());
}

#[test]
fn random_player_plays_a_legal_move() {
    let mut b = Board::new();
    b.apply_move(4);
    let random = RandomPlayer;
    let mv = random.play(&mut b);
    assert!((0..9).contains(&mv));
    assert_ne!(mv, 4);
    assert_eq!(b.state[mv as usize], 1);
    assert_eq!(b.counter, 2);
}

#[test]
fn human_rejects_unparsed_input() {
    let mut b = Board::new();
    let human = HumanPlayer;
    assert_eq!(human.try_move(&mut b, None), HumanMoveOutcome::BadInput);
    assert_eq!(b.counter, 0);
}

#[test]
fn human_rejects_out_of_range_input() {
    let mut b = Board::new();
    let human = HumanPlayer;
    assert_eq!(human.try_move(&mut b, Some(9)), HumanMoveOutcome::OutOfRange);
    assert_eq!(human.try_move(&mut b, Some(-1)), HumanMoveOutcome::OutOfRange);
    assert_eq!(b.counter, 0);
}

#[test]
fn human_rejects_occupied_cell() {
    let mut b = Board::new();
    b.apply_move(4);
    let human = HumanPlayer;
    assert_eq!(human.try_move(&mut b, Some(4)), HumanMoveOutcome::Occupied);
    assert_eq!(b.counter, 1);
    assert_eq!(b.state[4], 0);
}

#[test]
fn human_places_on_valid_input() {
    let mut b = Board::new();
    let human = HumanPlayer;
    assert_eq!(human.try_move(&mut b, Some(4)), HumanMoveOutcome::Placed);
    assert_eq!(b.counter, 1);
    assert_eq!(b.state[4], 0);
}
