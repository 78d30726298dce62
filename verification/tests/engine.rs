//! Rules-level behaviour: the starting layout, legal moves, move
//! application, scoring, and terminal detection.

use othello::{AiDifficulty, BoardState, Cell, OthelloGame, Player};

fn empty_cells() -> Vec<Cell> {
    vec![Cell::Empty; 64]
}

fn board_from(cells: Vec<Cell>) -> BoardState {
    assert_eq!(cells.len(), 64);
    BoardState { cells }
}

#[test]
fn new_game_has_starting_layout() {
    let game = OthelloGame::new();
    assert_eq!(game.board.cells[3 * 8 + 3], Cell::White);
    assert_eq!(game.board.cells[3 * 8 + 4], Cell::Black);
    assert_eq!(game.board.cells[4 * 8 + 3], Cell::Black);
    assert_eq!(game.board.cells[4 * 8 + 4], Cell::White);
    let occupied = game.board.cells.iter().filter(|c| **c != Cell::Empty).count();
    assert_eq!(occupied, 4);
    assert_eq!(game.current_player(), Player::Black);
    assert_eq!(game.ai_difficulty(), AiDifficulty::Medium);
}

#[test]
fn initial_legal_moves_are_exactly_four() {
    let game = OthelloGame::new();
    let moves = game.get_valid_moves();
    assert_eq!(moves, vec![(2, 3), (3, 2), (4, 5), (5, 4)]);
    assert_eq!(game.get_valid_moves_count(), 4);
}

#[test]
fn initial_move_validity_checks() {
    let game = OthelloGame::new();
    assert!(game.is_valid_move(2, 3));
    assert!(game.is_valid_move(5, 4));
    assert!(!game.is_valid_move(0, 0));
    assert!(!game.is_valid_move(3, 3)); // occupied
    assert!(!game.is_valid_move(2, 2)); // empty but captures nothing
}

#[test]
fn applying_first_move_flips_one_disc() {
    let mut game = OthelloGame::new();
    assert_eq!(game.get_score(), vec![2, 2]);
    game.make_move(2, 3);
    assert_eq!(game.board.cells[2 * 8 + 3], Cell::Black);
    assert_eq!(game.board.cells[3 * 8 + 3], Cell::Black); // flipped White -> Black
    assert_eq!(game.board.cells[3 * 8 + 4], Cell::Black);
    assert_eq!(game.board.cells[4 * 8 + 3], Cell::Black);
    assert_eq!(game.board.cells[4 * 8 + 4], Cell::White);
    assert_eq!(game.get_score(), vec![4, 1]);
}

#[test]
fn move_application_is_flip_monotonic() {
    let mut game = OthelloGame::new();
    let before = game.get_score();
    game.make_move(2, 3);
    let after = game.get_score();
    // mover gained 1 + flipped, opponent lost flipped, total grew by one
    let flipped = before[1] - after[1];
    assert!(flipped >= 1);
    assert_eq!(after[0], before[0] + 1 + flipped);
    assert_eq!(after[0] + after[1], before[0] + before[1] + 1);
}

#[test]
fn switch_player_alternates() {
    let mut game = OthelloGame::new();
    assert_eq!(game.current_player(), Player::Black);
    game.switch_player();
    assert_eq!(game.current_player(), Player::White);
    game.switch_player();
    assert_eq!(game.current_player(), Player::Black);
}

#[test]
fn fresh_game_is_not_over() {
    let game = OthelloGame::new();
    assert!(!game.is_game_over());
}

#[test]
fn full_board_is_terminal_whatever_the_distribution() {
    let all_black = board_from(vec![Cell::Black; 64]);
    assert!(all_black.is_terminal_state());

    let mut mixed = vec![Cell::Black; 64];
    for i in 0..32 {
        mixed[i] = Cell::White;
    }
    let half = board_from(mixed);
    assert!(half.is_terminal_state());
}

#[test]
fn deadlock_with_empty_cells_is_terminal() {
    // one lone disc: neither side can capture anything, so both pass
    let mut cells = empty_cells();
    cells[0] = Cell::Black;
    let board = board_from(cells);
    assert!(!board.has_valid_moves_for_player(Player::Black));
    assert!(!board.has_valid_moves_for_player(Player::White));
    assert!(board.is_terminal_state());
}

#[test]
fn one_stuck_side_is_not_terminal() {
    // B W . : Black may play (0,2); White has nothing to capture
    let mut cells = empty_cells();
    cells[0] = Cell::Black;
    cells[1] = Cell::White;
    let board = board_from(cells);
    assert!(board.has_valid_moves_for_player(Player::Black));
    assert!(!board.has_valid_moves_for_player(Player::White));
    assert!(!board.is_terminal_state());

    let game = OthelloGame {
        board,
        current_player: Player::White,
        ai_difficulty: AiDifficulty::Easy,
    };
    assert!(!game.is_game_over());
    assert_eq!(game.get_valid_moves_count(), 0);
}

#[test]
fn capture_closes_runs_in_all_directions() {
    // W W W around the column: B at both ends of a vertical run
    let mut cells = empty_cells();
    cells[8 * 1 + 4] = Cell::Black; // (1,4)
    cells[8 * 2 + 4] = Cell::White; // (2,4)
    cells[8 * 3 + 4] = Cell::White; // (3,4)
    let board = board_from(cells);
    // Black playing (4,4) captures upward through both White discs
    assert!(board.is_valid_move_for_player(4, 4, Player::Black));
    let mut b2 = board;
    b2.make_move_on_board(4, 4, Player::Black);
    assert_eq!(b2.cells[8 * 2 + 4], Cell::Black);
    assert_eq!(b2.cells[8 * 3 + 4], Cell::Black);
    assert_eq!(b2.cells[8 * 4 + 4], Cell::Black);
    assert_eq!(b2.count(Cell::Black), 4);
    assert_eq!(b2.count(Cell::White), 0);
}

#[test]
fn run_interrupted_by_gap_does_not_capture() {
    // . W W . B : the empty gap stops the scan before the closing disc
    let mut cells = empty_cells();
    cells[1] = Cell::White;
    cells[2] = Cell::White;
    cells[4] = Cell::Black;
    let board = board_from(cells);
    assert!(!board.is_valid_move_for_player(0, 0, Player::Black));
}

#[test]
fn edge_without_closing_disc_does_not_capture() {
    // W B B B ... with no Black closing disc beyond the edge
    let mut cells = empty_cells();
    cells[1] = Cell::Black;
    cells[2] = Cell::Black;
    let board = board_from(cells);
    // White at (0,0)? scanning right walks B B then Empty: no capture
    assert!(!board.is_valid_move_for_player(0, 0, Player::White));
}

#[test]
fn clone_board_copies_the_position() {
    let mut game = OthelloGame::new();
    let snapshot = game.clone_board();
    game.make_move(2, 3);
    // the snapshot kept the old position
    assert_eq!(snapshot.cells[2 * 8 + 3], Cell::Empty);
    assert_eq!(snapshot.cells[3 * 8 + 3], Cell::White);
    assert_eq!(game.board.cells[3 * 8 + 3], Cell::Black);
}

#[test]
fn difficulty_descriptions_are_fixed() {
    let mut game = OthelloGame::new();
    game.set_ai_difficulty(AiDifficulty::Easy);
    assert_eq!(game.get_ai_difficulty_description(), "初級 (貪欲法)");
    game.set_ai_difficulty(AiDifficulty::Medium);
    assert_eq!(game.get_ai_difficulty_description(), "中級 (ミニマックス 3手先読み)");
    game.set_ai_difficulty(AiDifficulty::Hard);
    assert_eq!(game.get_ai_difficulty_description(), "上級 (アルファベータ 5手先読み)");
    game.set_ai_difficulty(AiDifficulty::Expert);
    assert_eq!(
        game.get_ai_difficulty_description(),
        "エキスパート (アルファベータ 7手先読み + 高度評価)"
    );
    assert_eq!(game.ai_difficulty(), AiDifficulty::Expert);
}
