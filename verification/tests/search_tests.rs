//! Evaluation and search behaviour: exact heuristic values, greedy
//! tie-breaking, the tier dispatch, and alpha-beta agreeing with plain
//! minimax.

use othello::eval::{calculate_basic_move_score, count_flips_in_direction, evaluate_board, evaluate_stability};
use othello::search::{alpha_beta, get_alpha_beta_move, get_greedy_move, get_minimax_move, minimax};
use othello::{AiDifficulty, BoardState, Cell, OthelloGame, Player};

fn initial_board() -> BoardState {
    BoardState::starting_position()
}

#[test]
fn directional_flip_counts_on_the_initial_board() {
    let board = initial_board();
    // Black at (2,3): downward closes through the White disc at (3,3)
    assert_eq!(count_flips_in_direction(&board, 2, 3, 1, 0, Player::Black), 1);
    // rightward from (2,3) meets only empty cells
    assert_eq!(count_flips_in_direction(&board, 2, 3, 0, 1, Player::Black), 0);
    // a run that reaches an own disc with no opposing disc counts zero
    assert_eq!(count_flips_in_direction(&board, 2, 4, 1, 0, Player::Black), 0);
}

#[test]
fn basic_move_score_has_exact_value() {
    let board = initial_board();
    // destination weight -1, plus 2 * 1 flipped disc
    assert_eq!(calculate_basic_move_score(&board, 2, 3, Player::Black), 1);
    assert_eq!(calculate_basic_move_score(&board, 3, 2, Player::Black), 1);
}

#[test]
fn evaluation_of_the_starting_position_is_balanced() {
    let board = initial_board();
    assert_eq!(evaluate_board(&board, Player::Black), 0);
    assert_eq!(evaluate_board(&board, Player::White), 0);
    assert_eq!(evaluate_stability(&board, Player::Black), 0);
}

#[test]
fn evaluation_after_one_move_has_exact_value() {
    let mut board = initial_board();
    board.make_move_on_board(2, 3, Player::Black);
    // positional sum 9, opening phase doubles it, no border discs
    assert_eq!(evaluate_board(&board, Player::Black), 18);
    assert_eq!(evaluate_board(&board, Player::White), -18);
}

#[test]
fn corner_control_dominates_stability() {
    let mut cells = vec![Cell::Empty; 64];
    cells[0] = Cell::Black; // corner (0,0)
    let board = BoardState { cells };
    // 25 for the corner plus 5 + 5 from the two edges that share it
    assert_eq!(evaluate_stability(&board, Player::Black), 35);
    assert_eq!(evaluate_stability(&board, Player::White), -35);
}

#[test]
fn greedy_breaks_ties_row_major_first() {
    // all four opening moves score 1; the row-major-first one must win
    let board = initial_board();
    assert_eq!(get_greedy_move(&board, Player::Black), Some((2, 3)));
}

#[test]
fn greedy_prefers_the_strictly_better_move() {
    // Black can take a long run at (4,4) or a single disc at (0,2)
    let mut cells = vec![Cell::Empty; 64];
    cells[0] = Cell::Black; // (0,0)
    cells[1] = Cell::White; // (0,1)
    cells[8 * 1 + 4] = Cell::Black; // (1,4)
    cells[8 * 2 + 4] = Cell::White; // (2,4)
    cells[8 * 3 + 4] = Cell::White; // (3,4)
    let board = BoardState { cells };
    // (0,2): weight 10, one flip  -> 12; (4,4): weight -1, two flips -> 3
    assert_eq!(calculate_basic_move_score(&board, 0, 2, Player::Black), 12);
    assert_eq!(calculate_basic_move_score(&board, 4, 4, Player::Black), 3);
    assert_eq!(get_greedy_move(&board, Player::Black), Some((0, 2)));
}

#[test]
fn greedy_returns_none_only_without_moves() {
    let mut cells = vec![Cell::Empty; 64];
    cells[0] = Cell::Black;
    let stuck = BoardState { cells };
    assert_eq!(get_greedy_move(&stuck, Player::Black), None);
    assert!(get_greedy_move(&initial_board(), Player::Black).is_some());
}

#[test]
fn alpha_beta_matches_minimax_scores() {
    let board = initial_board();
    for depth in 0..5u8 {
        let plain = minimax(&board, depth, true, Player::Black, Player::Black);
        let pruned = alpha_beta(
            &board,
            depth,
            i32::MIN,
            i32::MAX,
            true,
            Player::Black,
            Player::Black,
        );
        assert_eq!(plain, pruned);
    }
}

#[test]
fn alpha_beta_matches_minimax_after_some_play() {
    let mut board = initial_board();
    board.make_move_on_board(2, 3, Player::Black);
    board.make_move_on_board(2, 2, Player::White);
    for depth in 0..4u8 {
        let plain = minimax(&board, depth, true, Player::Black, Player::Black);
        let pruned = alpha_beta(
            &board,
            depth,
            i32::MIN,
            i32::MAX,
            true,
            Player::Black,
            Player::Black,
        );
        assert_eq!(plain, pruned);
    }
}

#[test]
fn alpha_beta_and_minimax_pick_the_same_root_move() {
    let board = initial_board();
    for depth in 1..4u8 {
        assert_eq!(
            get_minimax_move(&board, depth, Player::Black),
            get_alpha_beta_move(&board, depth, Player::Black)
        );
    }
}

#[test]
fn every_tier_moves_when_a_move_exists() {
    for difficulty in [
        AiDifficulty::Easy,
        AiDifficulty::Medium,
        AiDifficulty::Hard,
        AiDifficulty::Expert,
    ] {
        let mut game = OthelloGame::new();
        game.set_ai_difficulty(difficulty);
        let proposal = game.get_ai_move();
        assert!(proposal.is_some());
        let (row, col) = proposal.unwrap();
        assert!(game.is_valid_move(row, col));
    }
}

#[test]
fn make_ai_move_plays_and_hands_over_the_turn() {
    let mut game = OthelloGame::new();
    game.set_ai_difficulty(AiDifficulty::Easy);
    assert!(game.make_ai_move());
    assert_eq!(game.current_player(), Player::White);
    let score = game.get_score();
    assert_eq!(score[0] + score[1], 5);
}

#[test]
fn make_ai_move_reports_a_forced_pass() {
    let mut cells = vec![Cell::Empty; 64];
    cells[0] = Cell::Black;
    let mut game = OthelloGame {
        board: BoardState { cells },
        current_player: Player::White,
        ai_difficulty: AiDifficulty::Hard,
    };
    assert!(!game.make_ai_move());
    assert_eq!(game.current_player(), Player::White);
}

#[test]
fn a_full_game_between_two_tiers_terminates() {
    let mut game = OthelloGame::new();
    let mut passes = 0;
    let mut plies = 0;
    while !game.is_game_over() && plies < 200 {
        let tier = if game.current_player() == Player::Black {
            AiDifficulty::Easy
        } else {
            AiDifficulty::Medium
        };
        game.set_ai_difficulty(tier);
        if game.make_ai_move() {
            passes = 0;
        } else {
            game.switch_player();
            passes += 1;
            if passes >= 2 {
                break;
            }
        }
        plies += 1;
    }
    assert!(game.is_game_over());
    let score = game.get_score();
    assert!(score[0] + score[1] <= 64);
    assert!(score[0] >= 0 && score[1] >= 0);
}
