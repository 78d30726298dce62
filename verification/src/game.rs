//! The game facade: one live board, the current player, the selected
//! difficulty tier, and the engine entry points a presentation layer
//! drives.

use vstd::prelude::*;
use crate::board::{BoardState, Cell, Player, count_cells, in_range, initial_board};
use crate::laws::{lemma_has_any_move_iff, lemma_legal_moves_sound};
use crate::rules::{apply_move_spec, is_legal, is_terminal_spec, legal_moves_seq};
use crate::search::{
    get_alpha_beta_move, get_greedy_move, get_minimax_move, is_greedy_choice, is_minimax_choice,
};

verus! {

/// The four strength tiers of the artificial opponent, each bound to a
/// fixed strategy and search depth.
#[derive(Clone, Copy, PartialEq, Eq, Structural, Debug)]
pub enum AiDifficulty {
    /// Greedy one-ply heuristic.
    Easy,
    /// Plain minimax, three plies.
    Medium,
    /// Alpha-beta, five plies.
    Hard,
    /// Alpha-beta, seven plies.
    Expert,
}

/// The move the configured tier proposes for `player`, when one exists.
pub open spec fn is_ai_choice(
    s: Seq<Cell>,
    difficulty: AiDifficulty,
    player: Player,
    m: (usize, usize),
) -> bool {
    match difficulty {
        AiDifficulty::Easy => is_greedy_choice(s, player, m),
        AiDifficulty::Medium => is_minimax_choice(s, 3, player, m),
        AiDifficulty::Hard => is_minimax_choice(s, 5, player, m),
        AiDifficulty::Expert => is_minimax_choice(s, 7, player, m),
    }
}

/// One Othello game: a live board, whose turn it is, and the strength
/// tier of the artificial opponent.
pub struct OthelloGame {
    pub board: BoardState,
    pub current_player: Player,
    pub ai_difficulty: AiDifficulty,
}

impl OthelloGame {
    /// Structural invariant: the board holds its 64 cells.
    pub open spec fn wf(self) -> bool {
        self.board.wf()
    }

    /// A fresh game: the four centre discs, Black to move, medium tier.
    pub fn new() -> (g: OthelloGame)
        ensures
            g.wf(),
            g.board@ == initial_board(),
            g.current_player == Player::Black,
            g.ai_difficulty == AiDifficulty::Medium,
    {
        OthelloGame {
            board: BoardState::starting_position(),
            current_player: Player::Black,
            ai_difficulty: AiDifficulty::Medium,
        }
    }

    /// Whose turn it is.
    pub fn current_player(&self) -> (p: Player)
        ensures
            p == self.current_player,
    {
        self.current_player
    }

    /// Selects the strength tier of the artificial opponent.
    pub fn set_ai_difficulty(&mut self, difficulty: AiDifficulty)
        ensures
            final(self).board == old(self).board,
            final(self).current_player == old(self).current_player,
            final(self).ai_difficulty == difficulty,
    {
        self.ai_difficulty = difficulty;
    }

    /// The selected strength tier.
    pub fn ai_difficulty(&self) -> (d: AiDifficulty)
        ensures
            d == self.ai_difficulty,
    {
        self.ai_difficulty
    }

    /// A fixed human-readable description of the selected tier.
    pub fn get_ai_difficulty_description(&self) -> (r: String)
        ensures
            self.ai_difficulty == AiDifficulty::Easy ==> r@ == "初級 (貪欲法)"@,
            self.ai_difficulty == AiDifficulty::Medium ==> r@ == "中級 (ミニマックス 3手先読み)"@,
            self.ai_difficulty == AiDifficulty::Hard ==> r@ == "上級 (アルファベータ 5手先読み)"@,
            self.ai_difficulty == AiDifficulty::Expert ==> r@ == "エキスパート (アルファベータ 7手先読み + 高度評価)"@,
    {
        match self.ai_difficulty {
            AiDifficulty::Easy => "初級 (貪欲法)".to_owned(),
            AiDifficulty::Medium => "中級 (ミニマックス 3手先読み)".to_owned(),
            AiDifficulty::Hard => "上級 (アルファベータ 5手先読み)".to_owned(),
            AiDifficulty::Expert => "エキスパート (アルファベータ 7手先読み + 高度評価)".to_owned(),
        }
    }

    /// The score as a two-entry list: Black's disc count, then White's.
    pub fn get_score(&self) -> (score: Vec<i32>)
        requires
            self.wf(),
        ensures
            score@.len() == 2,
            score@[0] == count_cells(self.board@, Cell::Black),
            score@[1] == count_cells(self.board@, Cell::White),
    {
        let black_count = self.board.count(Cell::Black);
        let white_count = self.board.count(Cell::White);
        let mut score: Vec<i32> = Vec::new();
        score.push(black_count as i32);
        score.push(white_count as i32);
        score
    }

    /// Whether the current player may move at (row, col).
    pub fn is_valid_move(&self, row: usize, col: usize) -> (b: bool)
        requires
            self.wf(),
            in_range(row as int, col as int),
        ensures
            b == is_legal(self.board@, row as int, col as int, self.current_player),
    {
        self.board.is_valid_move_for_player(row, col, self.current_player)
    }

    /// Applies a move of the current player. Legality is this method's
    /// precondition: callers validate with `is_valid_move` first.
    pub fn make_move(&mut self, row: usize, col: usize)
        requires
            old(self).wf(),
            is_legal(old(self).board@, row as int, col as int, old(self).current_player),
        ensures
            final(self).wf(),
            final(self).board@ == apply_move_spec(
                old(self).board@,
                row as int,
                col as int,
                old(self).current_player,
            ),
            final(self).current_player == old(self).current_player,
            final(self).ai_difficulty == old(self).ai_difficulty,
    {
        self.board.make_move_on_board(row, col, self.current_player);
    }

    /// Hands the turn to the other player (after a move or a pass).
    pub fn switch_player(&mut self)
        ensures
            final(self).board == old(self).board,
            final(self).current_player == old(self).current_player.opponent_spec(),
            final(self).ai_difficulty == old(self).ai_difficulty,
    {
        self.current_player = self.current_player.opponent();
    }

    /// A value copy of the live board, for hypothetical search futures.
    pub fn clone_board(&self) -> (b: BoardState)
        ensures
            b@ == self.board@,
    {
        self.board.duplicate()
    }

    /// All moves open to the current player, in row-major order.
    pub fn get_valid_moves(&self) -> (mv: Vec<(usize, usize)>)
        requires
            self.wf(),
        ensures
            mv@ == legal_moves_seq(self.board@, self.current_player),
    {
        self.board.get_valid_moves_for_board(self.current_player)
    }

    /// How many moves are open to the current player.
    pub fn get_valid_moves_count(&self) -> (n: usize)
        requires
            self.wf(),
        ensures
            n == legal_moves_seq(self.board@, self.current_player).len(),
    {
        let moves = self.get_valid_moves();
        moves.len()
    }

    /// The artificial opponent's proposal for the current player under
    /// the selected tier; `None` exactly when the player must pass, and
    /// never an illegal move.
    pub fn get_ai_move(&self) -> (r: Option<(usize, usize)>)
        requires
            self.wf(),
        ensures
            match r {
                None => legal_moves_seq(self.board@, self.current_player).len() == 0,
                Some(m) => {
                    &&& legal_moves_seq(self.board@, self.current_player).len() > 0
                    &&& is_ai_choice(self.board@, self.ai_difficulty, self.current_player, m)
                    &&& in_range(m.0 as int, m.1 as int)
                    &&& is_legal(self.board@, m.0 as int, m.1 as int, self.current_player)
                },
            },
    {
        let r = match self.ai_difficulty {
            AiDifficulty::Easy => get_greedy_move(&self.board, self.current_player),
            AiDifficulty::Medium => get_minimax_move(&self.board, 3, self.current_player),
            AiDifficulty::Hard => get_alpha_beta_move(&self.board, 5, self.current_player),
            AiDifficulty::Expert => get_alpha_beta_move(&self.board, 7, self.current_player),
        };
        proof {
            if let Some(m) = r {
                lemma_legal_moves_sound(self.board@, self.current_player);
            }
        }
        r
    }

    /// Plays the artificial opponent's move and hands over the turn;
    /// false (with nothing changed) when it has to pass.
    pub fn make_ai_move(&mut self) -> (moved: bool)
        requires
            old(self).wf(),
        ensures
            final(self).wf(),
            moved == (legal_moves_seq(old(self).board@, old(self).current_player).len() > 0),
            final(self).ai_difficulty == old(self).ai_difficulty,
            moved ==> exists|m: (usize, usize)|
                {
                    &&& #[trigger] is_ai_choice(
                        old(self).board@,
                        old(self).ai_difficulty,
                        old(self).current_player,
                        m,
                    )
                    &&& is_legal(old(self).board@, m.0 as int, m.1 as int, old(self).current_player)
                    &&& final(self).board@ == apply_move_spec(
                        old(self).board@,
                        m.0 as int,
                        m.1 as int,
                        old(self).current_player,
                    )
                    &&& final(self).current_player == old(self).current_player.opponent_spec()
                },
            !moved ==> final(self).board == old(self).board && final(self).current_player == old(
                self,
            ).current_player,
    {
        let ai_move = self.get_ai_move();
        match ai_move {
            Some((row, col)) => {
                self.make_move(row, col);
                self.switch_player();
                true
            },
            None => false,
        }
    }

    /// Whether the game is over: the board is full, or neither player
    /// has a legal move. One stuck side alone does not end the game.
    pub fn is_game_over(&self) -> (b: bool)
        requires
            self.wf(),
        ensures
            b == is_terminal_spec(self.board@),
            b == (count_cells(self.board@, Cell::Empty) == 0 || (legal_moves_seq(
                self.board@,
                Player::Black,
            ).len() == 0 && legal_moves_seq(self.board@, Player::White).len() == 0)),
    {
        proof {
            lemma_has_any_move_iff(self.board@, Player::Black);
            lemma_has_any_move_iff(self.board@, Player::White);
        }
        self.board.is_terminal_state()
    }
}

} // verus!
