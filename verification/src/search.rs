//! Adversarial search: plain minimax, alpha-beta pruning that returns the
//! same root values, and the greedy one-ply strategy, all breaking ties
//! in favour of the row-major-first move.

use vstd::prelude::*;
use crate::board::{BoardState, Cell, Player, in_range};
use crate::eval::{
    basic_score_spec, calculate_basic_move_score, eval_spec, evaluate_board, lemma_eval_bounds,
    score_bound,
};
use crate::laws::{lemma_apply_move_counts, lemma_legal_moves_sound};
use crate::rules::{apply_move_spec, is_legal, is_terminal_spec, legal_moves_seq};

verus! {

/// Game value by plain minimax: at depth zero or a terminal position the
/// static evaluation from the fixed perspective `persp`; with no legal
/// move a pass that costs one depth unit and flips the role; otherwise
/// the max or min over all children, one ply deeper each.
pub open spec fn mm(s: Seq<Cell>, depth: nat, maximizing: bool, turn: Player, persp: Player) -> int
    decreases depth, 1int, 0int,
{
    if depth == 0 || is_terminal_spec(s) {
        eval_spec(s, persp)
    } else if legal_moves_seq(s, turn).len() == 0 {
        mm(s, (depth - 1) as nat, !maximizing, turn.opponent_spec(), persp)
    } else {
        mm_fold(
            s,
            legal_moves_seq(s, turn),
            0,
            depth,
            maximizing,
            turn,
            persp,
            if maximizing {
                i32::MIN as int
            } else {
                i32::MAX as int
            },
        )
    }
}

/// The children's minimax values from move index `i` on, folded into
/// `acc` by max (maximizing) or min (minimizing).
pub open spec fn mm_fold(
    s: Seq<Cell>,
    mv: Seq<(usize, usize)>,
    i: int,
    depth: nat,
    maximizing: bool,
    turn: Player,
    persp: Player,
    acc: int,
) -> int
    decreases depth, 0int, mv.len() - i,
{
    if depth == 0 || i < 0 || i >= mv.len() {
        acc
    } else {
        let child = mm(
            apply_move_spec(s, mv[i].0 as int, mv[i].1 as int, turn),
            (depth - 1) as nat,
            !maximizing,
            turn.opponent_spec(),
            persp,
        );
        let acc2 = if maximizing {
            if child > acc {
                child
            } else {
                acc
            }
        } else {
            if child < acc {
                child
            } else {
                acc
            }
        };
        mm_fold(s, mv, i + 1, depth, maximizing, turn, persp, acc2)
    }
}

/// LAW: every minimax value lies strictly inside the score bound.
pub proof fn lemma_mm_bounds(s: Seq<Cell>, depth: nat, maximizing: bool, turn: Player, persp: Player)
    requires
        s.len() == 64,
    ensures
        -score_bound() < mm(s, depth, maximizing, turn, persp) < score_bound(),
    decreases depth, 1int, 0int,
{
    if depth == 0 || is_terminal_spec(s) {
        lemma_eval_bounds(s, persp);
    } else if legal_moves_seq(s, turn).len() == 0 {
        lemma_mm_bounds(s, (depth - 1) as nat, !maximizing, turn.opponent_spec(), persp);
    } else {
        lemma_legal_moves_sound(s, turn);
        let acc0: int = if maximizing {
            i32::MIN as int
        } else {
            i32::MAX as int
        };
        let mv = legal_moves_seq(s, turn);
        lemma_apply_move_counts(s, mv[0].0 as int, mv[0].1 as int, turn);
        lemma_mm_bounds(
            apply_move_spec(s, mv[0].0 as int, mv[0].1 as int, turn),
            (depth - 1) as nat,
            !maximizing,
            turn.opponent_spec(),
            persp,
        );
        lemma_mm_fold_bounds(s, mv, 0, depth, maximizing, turn, persp, acc0);
    }
}

/// The fold betters its accumulator, never leaves the score bound except
/// through the accumulator, and is bettered by each remaining child.
proof fn lemma_mm_fold_bounds(
    s: Seq<Cell>,
    mv: Seq<(usize, usize)>,
    i: int,
    depth: nat,
    maximizing: bool,
    turn: Player,
    persp: Player,
    acc: int,
)
    requires
        s.len() == 64,
        depth >= 1,
        0 <= i <= mv.len(),
        forall|j: int|
            0 <= j < mv.len() ==> {
                let m = #[trigger] mv[j];
                in_range(m.0 as int, m.1 as int) && is_legal(s, m.0 as int, m.1 as int, turn)
            },
    ensures
        maximizing ==> mm_fold(s, mv, i, depth, maximizing, turn, persp, acc) >= acc,
        !maximizing ==> mm_fold(s, mv, i, depth, maximizing, turn, persp, acc) <= acc,
        mm_fold(s, mv, i, depth, maximizing, turn, persp, acc) == acc || (-score_bound() < mm_fold(
            s,
            mv,
            i,
            depth,
            maximizing,
            turn,
            persp,
            acc,
        ) < score_bound()),
        i < mv.len() && maximizing ==> mm_fold(s, mv, i, depth, maximizing, turn, persp, acc) >= mm(
            apply_move_spec(s, mv[i].0 as int, mv[i].1 as int, turn),
            (depth - 1) as nat,
            !maximizing,
            turn.opponent_spec(),
            persp,
        ),
        i < mv.len() && !maximizing ==> mm_fold(s, mv, i, depth, maximizing, turn, persp, acc)
            <= mm(
            apply_move_spec(s, mv[i].0 as int, mv[i].1 as int, turn),
            (depth - 1) as nat,
            !maximizing,
            turn.opponent_spec(),
            persp,
        ),
    decreases depth, 0int, mv.len() - i,
{
    if i < mv.len() {
        let child_board = apply_move_spec(s, mv[i].0 as int, mv[i].1 as int, turn);
        lemma_apply_move_counts(s, mv[i].0 as int, mv[i].1 as int, turn);
        lemma_mm_bounds(child_board, (depth - 1) as nat, !maximizing, turn.opponent_spec(), persp);
        let child = mm(child_board, (depth - 1) as nat, !maximizing, turn.opponent_spec(), persp);
        let acc2: int = if maximizing {
            if child > acc {
                child
            } else {
                acc
            }
        } else {
            if child < acc {
                child
            } else {
                acc
            }
        };
        lemma_mm_fold_bounds(s, mv, i + 1, depth, maximizing, turn, persp, acc2);
    }
}

/// Plain minimax search. The evaluation perspective `persp` stays fixed
/// for the whole tree while the turn and the max/min role alternate each
/// ply; a forced pass consumes one depth unit.
pub fn minimax(board: &BoardState, depth: u8, maximizing: bool, turn: Player, persp: Player) -> (v:
    i32)
    requires
        board.wf(),
    ensures
        v as int == mm(board@, depth as nat, maximizing, turn, persp),
    decreases depth,
{
    if depth == 0 || board.is_terminal_state() {
        return evaluate_board(board, persp);
    }

    let valid_moves = board.get_valid_moves_for_board(turn);

    if valid_moves.len() == 0 {
        return minimax(board, depth - 1, !maximizing, turn.opponent(), persp);
    }

    proof {
        lemma_legal_moves_sound(board@, turn);
    }

    if maximizing {
        let mut max_eval = i32::MIN;
        let mut i: usize = 0;
        while i < valid_moves.len()
            invariant
                board.wf(),
                valid_moves@ == legal_moves_seq(board@, turn),
                forall|j: int|
                    0 <= j < valid_moves@.len() ==> {
                        let m = #[trigger] valid_moves@[j];
                        in_range(m.0 as int, m.1 as int) && is_legal(
                            board@,
                            m.0 as int,
                            m.1 as int,
                            turn,
                        )
                    },
                depth >= 1,
                !is_terminal_spec(board@),
                valid_moves@.len() > 0,
                i <= valid_moves@.len(),
                mm(board@, depth as nat, true, turn, persp) == mm_fold(
                    board@,
                    valid_moves@,
                    i as int,
                    depth as nat,
                    true,
                    turn,
                    persp,
                    max_eval as int,
                ),
            decreases valid_moves@.len() - i,
        {
            let (row, col) = valid_moves[i];
            let mut new_board = board.duplicate();
            new_board.make_move_on_board(row, col, turn);
            let eval = minimax(&new_board, depth - 1, false, turn.opponent(), persp);
            if eval > max_eval {
                max_eval = eval;
            }
            i += 1;
        }
        max_eval
    } else {
        let mut min_eval = i32::MAX;
        let mut i: usize = 0;
        while i < valid_moves.len()
            invariant
                board.wf(),
                valid_moves@ == legal_moves_seq(board@, turn),
                forall|j: int|
                    0 <= j < valid_moves@.len() ==> {
                        let m = #[trigger] valid_moves@[j];
                        in_range(m.0 as int, m.1 as int) && is_legal(
                            board@,
                            m.0 as int,
                            m.1 as int,
                            turn,
                        )
                    },
                depth >= 1,
                !is_terminal_spec(board@),
                valid_moves@.len() > 0,
                i <= valid_moves@.len(),
                mm(board@, depth as nat, false, turn, persp) == mm_fold(
                    board@,
                    valid_moves@,
                    i as int,
                    depth as nat,
                    false,
                    turn,
                    persp,
                    min_eval as int,
                ),
            decreases valid_moves@.len() - i,
        {
            let (row, col) = valid_moves[i];
            let mut new_board = board.duplicate();
            new_board.make_move_on_board(row, col, turn);
            let eval = minimax(&new_board, depth - 1, true, turn.opponent(), persp);
            if eval < min_eval {
                min_eval = eval;
            }
            i += 1;
        }
        min_eval
    }
}

/// Alpha-beta pruned minimax. Inside the (alpha, beta) window the result
/// is exactly the plain minimax value; outside, it is a faithful bound on
/// it: pruning changes speed, never the value a root caller reads.
pub fn alpha_beta(
    board: &BoardState,
    depth: u8,
    alpha: i32,
    beta: i32,
    maximizing: bool,
    turn: Player,
    persp: Player,
) -> (v: i32)
    requires
        board.wf(),
        alpha < beta,
    ensures
        ({
            let m = mm(board@, depth as nat, maximizing, turn, persp);
            &&& (v <= alpha ==> m <= alpha)
            &&& (v >= beta ==> m >= beta)
            &&& (alpha < v < beta ==> v as int == m)
            &&& (alpha < -score_bound() && beta > score_bound() ==> v as int == m)
        }),
    decreases depth,
{
    if depth == 0 || board.is_terminal_state() {
        return evaluate_board(board, persp);
    }

    let valid_moves = board.get_valid_moves_for_board(turn);

    if valid_moves.len() == 0 {
        return alpha_beta(board, depth - 1, alpha, beta, !maximizing, turn.opponent(), persp);
    }

    proof {
        lemma_legal_moves_sound(board@, turn);
    }
    let ghost target = mm(board@, depth as nat, maximizing, turn, persp);

    if maximizing {
        let mut max_eval = i32::MIN;
        let mut a = alpha;
        let ghost mut g: int = i32::MIN as int;
        let mut i: usize = 0;
        while i < valid_moves.len()
            invariant_except_break
                a < beta,
                max_eval < beta,
                g <= a as int,
                max_eval <= alpha || g == max_eval as int,
            invariant
                board.wf(),
                valid_moves@ == legal_moves_seq(board@, turn),
                forall|j: int|
                    0 <= j < valid_moves@.len() ==> {
                        let m = #[trigger] valid_moves@[j];
                        in_range(m.0 as int, m.1 as int) && is_legal(
                            board@,
                            m.0 as int,
                            m.1 as int,
                            turn,
                        )
                    },
                depth >= 1,
                !is_terminal_spec(board@),
                valid_moves@.len() > 0,
                i <= valid_moves@.len(),
                alpha < beta,
                target == mm(board@, depth as nat, true, turn, persp),
                target == mm_fold(
                    board@,
                    valid_moves@,
                    i as int,
                    depth as nat,
                    true,
                    turn,
                    persp,
                    g,
                ),
                a as int == if max_eval > alpha {
                    max_eval as int
                } else {
                    alpha as int
                },
            ensures
                (max_eval <= alpha ==> target <= alpha),
                (alpha < max_eval < beta ==> max_eval as int == target),
                (max_eval >= beta ==> target >= beta),
            decreases valid_moves@.len() - i,
        {
            let (row, col) = valid_moves[i];
            let mut new_board = board.duplicate();
            new_board.make_move_on_board(row, col, turn);
            let eval = alpha_beta(&new_board, depth - 1, a, beta, false, turn.opponent(), persp);
            let ghost m_child = mm(
                new_board@,
                (depth - 1) as nat,
                false,
                turn.opponent_spec(),
                persp,
            );
            proof {
                lemma_apply_move_counts(board@, row as int, col as int, turn);
                lemma_mm_bounds(new_board@, (depth - 1) as nat, false, turn.opponent_spec(), persp);
                assert(mm_fold(board@, valid_moves@, i as int, depth as nat, true, turn, persp, g)
                    == mm_fold(
                    board@,
                    valid_moves@,
                    i as int + 1,
                    depth as nat,
                    true,
                    turn,
                    persp,
                    if m_child > g {
                        m_child
                    } else {
                        g
                    },
                ));
            }
            if eval > max_eval {
                max_eval = eval;
            }
            if eval > a {
                a = eval;
            }
            proof {
                g = if m_child > g {
                    m_child
                } else {
                    g
                };
            }
            i += 1;
            if beta <= a {
                proof {
                    assert(eval >= beta);
                    assert(m_child >= beta);
                    assert(g >= beta);
                    lemma_mm_fold_bounds(
                        board@,
                        valid_moves@,
                        i as int,
                        depth as nat,
                        true,
                        turn,
                        persp,
                        g,
                    );
                    assert(target >= beta);
                    assert(max_eval >= beta);
                }
                break;
            }
        }
        proof {
            lemma_mm_bounds(board@, depth as nat, true, turn, persp);
        }
        max_eval
    } else {
        let mut min_eval = i32::MAX;
        let mut b = beta;
        let ghost mut g: int = i32::MAX as int;
        let mut i: usize = 0;
        while i < valid_moves.len()
            invariant_except_break
                b > alpha,
                min_eval > alpha,
                g >= b as int,
                min_eval >= beta || g == min_eval as int,
            invariant
                board.wf(),
                valid_moves@ == legal_moves_seq(board@, turn),
                forall|j: int|
                    0 <= j < valid_moves@.len() ==> {
                        let m = #[trigger] valid_moves@[j];
                        in_range(m.0 as int, m.1 as int) && is_legal(
                            board@,
                            m.0 as int,
                            m.1 as int,
                            turn,
                        )
                    },
                depth >= 1,
                !is_terminal_spec(board@),
                valid_moves@.len() > 0,
                i <= valid_moves@.len(),
                alpha < beta,
                target == mm(board@, depth as nat, false, turn, persp),
                target == mm_fold(
                    board@,
                    valid_moves@,
                    i as int,
                    depth as nat,
                    false,
                    turn,
                    persp,
                    g,
                ),
                b as int == if min_eval < beta {
                    min_eval as int
                } else {
                    beta as int
                },
            ensures
                (min_eval >= beta ==> target >= beta),
                (alpha < min_eval < beta ==> min_eval as int == target),
                (min_eval <= alpha ==> target <= alpha),
            decreases valid_moves@.len() - i,
        {
            let (row, col) = valid_moves[i];
            let mut new_board = board.duplicate();
            new_board.make_move_on_board(row, col, turn);
            let eval = alpha_beta(&new_board, depth - 1, alpha, b, true, turn.opponent(), persp);
            let ghost m_child = mm(
                new_board@,
                (depth - 1) as nat,
                true,
                turn.opponent_spec(),
                persp,
            );
            proof {
                lemma_apply_move_counts(board@, row as int, col as int, turn);
                lemma_mm_bounds(new_board@, (depth - 1) as nat, true, turn.opponent_spec(), persp);
                assert(mm_fold(board@, valid_moves@, i as int, depth as nat, false, turn, persp, g)
                    == mm_fold(
                    board@,
                    valid_moves@,
                    i as int + 1,
                    depth as nat,
                    false,
                    turn,
                    persp,
                    if m_child < g {
                        m_child
                    } else {
                        g
                    },
                ));
            }
            if eval < min_eval {
                min_eval = eval;
            }
            if eval < b {
                b = eval;
            }
            proof {
                g = if m_child < g {
                    m_child
                } else {
                    g
                };
            }
            i += 1;
            if b <= alpha {
                proof {
                    assert(eval <= alpha);
                    assert(m_child <= alpha);
                    assert(g <= alpha);
                    lemma_mm_fold_bounds(
                        board@,
                        valid_moves@,
                        i as int,
                        depth as nat,
                        false,
                        turn,
                        persp,
                        g,
                    );
                    assert(target <= alpha);
                    assert(min_eval <= alpha);
                }
                break;
            }
        }
        proof {
            lemma_mm_bounds(board@, depth as nat, false, turn, persp);
        }
        min_eval
    }
}

/// The index-`i` entry is a best-first choice among `vals`: no entry
/// beats it and every earlier entry lies strictly below it.
pub open spec fn is_best_first(vals: Seq<int>, i: int) -> bool {
    &&& 0 <= i < vals.len()
    &&& forall|j: int| 0 <= j < vals.len() ==> vals[j] <= vals[i]
    &&& forall|j: int| 0 <= j < i ==> vals[j] < vals[i]
}

/// The minimax value each root move hands the mover at the remaining
/// look-ahead `depth`.
pub open spec fn root_values(
    s: Seq<Cell>,
    mv: Seq<(usize, usize)>,
    depth: nat,
    player: Player,
) -> Seq<int> {
    Seq::new(
        mv.len(),
        |j: int|
            mm(
                apply_move_spec(s, mv[j].0 as int, mv[j].1 as int, player),
                depth,
                false,
                player.opponent_spec(),
                player,
            ),
    )
}

/// The root choice of a depth-`depth` search for `player`: the
/// row-major-first legal move whose minimax value no other move beats.
pub open spec fn is_minimax_choice(
    s: Seq<Cell>,
    depth: nat,
    player: Player,
    m: (usize, usize),
) -> bool {
    let mv = legal_moves_seq(s, player);
    let vals = root_values(s, mv, (depth - 1) as nat, player);
    exists|i: int| 0 <= i < mv.len() && m == mv[i] && #[trigger] is_best_first(vals, i)
}

/// The greedy heuristic score of each legal move.
pub open spec fn basic_scores(s: Seq<Cell>, mv: Seq<(usize, usize)>, p: Player) -> Seq<int> {
    Seq::new(mv.len(), |j: int| basic_score_spec(s, mv[j].0 as int, mv[j].1 as int, p))
}

/// The greedy choice for `p`: the row-major-first legal move whose
/// one-ply heuristic score no other move beats.
pub open spec fn is_greedy_choice(s: Seq<Cell>, p: Player, m: (usize, usize)) -> bool {
    let mv = legal_moves_seq(s, p);
    exists|i: int| 0 <= i < mv.len() && m == mv[i] && #[trigger] is_best_first(
        basic_scores(s, mv, p),
        i,
    )
}

/// Greedy strategy: evaluates every legal move with the one-ply
/// heuristic and picks the best, row-major-first on ties; `None` exactly
/// when the player must pass.
pub fn get_greedy_move(board: &BoardState, player: Player) -> (r: Option<(usize, usize)>)
    requires
        board.wf(),
    ensures
        match r {
            None => legal_moves_seq(board@, player).len() == 0,
            Some(m) => legal_moves_seq(board@, player).len() > 0 && is_greedy_choice(
                board@,
                player,
                m,
            ),
        },
{
    let valid_moves = board.get_valid_moves_for_board(player);
    if valid_moves.len() == 0 {
        return None;
    }
    proof {
        lemma_legal_moves_sound(board@, player);
    }
    let ghost vals = basic_scores(board@, valid_moves@, player);

    let first = valid_moves[0];
    let mut best_move = first;
    let mut best_score = calculate_basic_move_score(board, first.0, first.1, player);
    let ghost mut bi: int = 0;

    let mut i: usize = 0;
    while i < valid_moves.len()
        invariant
            board.wf(),
            valid_moves@ == legal_moves_seq(board@, player),
            forall|j: int|
                0 <= j < valid_moves@.len() ==> {
                    let m = #[trigger] valid_moves@[j];
                    in_range(m.0 as int, m.1 as int) && is_legal(
                        board@,
                        m.0 as int,
                        m.1 as int,
                        player,
                    )
                },
            valid_moves@.len() > 0,
            vals == basic_scores(board@, valid_moves@, player),
            i <= valid_moves@.len(),
            0 <= bi < valid_moves@.len(),
            bi <= i as int,
            best_move == valid_moves@[bi],
            best_score as int == vals[bi],
            forall|j: int| 0 <= j < i ==> vals[j] <= vals[bi],
            forall|j: int| 0 <= j < bi ==> vals[j] < vals[bi],
        decreases valid_moves@.len() - i,
    {
        let (row, col) = valid_moves[i];
        let score = calculate_basic_move_score(board, row, col, player);
        if score > best_score {
            best_score = score;
            best_move = (row, col);
            proof {
                bi = i as int;
            }
        }
        i += 1;
    }

    proof {
        assert(is_best_first(vals, bi));
    }
    Some(best_move)
}

/// Minimax strategy at the root: applies each legal move on a value copy
/// of the board, searches the child one ply shallower, and picks the
/// move of greatest value, row-major-first on ties.
pub fn get_minimax_move(board: &BoardState, depth: u8, player: Player) -> (r: Option<
    (usize, usize),
>)
    requires
        board.wf(),
        depth >= 1,
    ensures
        match r {
            None => legal_moves_seq(board@, player).len() == 0,
            Some(m) => legal_moves_seq(board@, player).len() > 0 && is_minimax_choice(
                board@,
                depth as nat,
                player,
                m,
            ),
        },
{
    let valid_moves = board.get_valid_moves_for_board(player);
    if valid_moves.len() == 0 {
        return None;
    }
    proof {
        lemma_legal_moves_sound(board@, player);
    }
    let ghost vals = root_values(board@, valid_moves@, (depth - 1) as nat, player);

    let mut best_move = valid_moves[0];
    let mut best_score = i32::MIN;
    let ghost mut bi: int = -1;

    let mut i: usize = 0;
    while i < valid_moves.len()
        invariant
            board.wf(),
            valid_moves@ == legal_moves_seq(board@, player),
            forall|j: int|
                0 <= j < valid_moves@.len() ==> {
                    let m = #[trigger] valid_moves@[j];
                    in_range(m.0 as int, m.1 as int) && is_legal(
                        board@,
                        m.0 as int,
                        m.1 as int,
                        player,
                    )
                },
            valid_moves@.len() > 0,
            depth >= 1,
            vals == root_values(board@, valid_moves@, (depth - 1) as nat, player),
            i <= valid_moves@.len(),
            bi == -1 ==> i == 0 && best_score == i32::MIN,
            bi != -1 ==> {
                &&& 0 <= bi < valid_moves@.len()
                &&& bi < i as int
                &&& best_move == valid_moves@[bi]
                &&& best_score as int == vals[bi]
                &&& forall|j: int| 0 <= j < i ==> vals[j] <= vals[bi]
                &&& forall|j: int| 0 <= j < bi ==> vals[j] < vals[bi]
            },
        decreases valid_moves@.len() - i,
    {
        let (row, col) = valid_moves[i];
        let mut game_copy = board.duplicate();
        game_copy.make_move_on_board(row, col, player);
        let score = minimax(&game_copy, depth - 1, false, player.opponent(), player);
        proof {
            lemma_apply_move_counts(board@, row as int, col as int, player);
            lemma_mm_bounds(game_copy@, (depth - 1) as nat, false, player.opponent_spec(), player);
            assert(score as int == vals[i as int]);
        }
        if score > best_score {
            best_score = score;
            best_move = (row, col);
            proof {
                bi = i as int;
            }
        }
        i += 1;
    }

    proof {
        assert(is_best_first(vals, bi));
    }
    Some(best_move)
}

/// Alpha-beta strategy at the root: the same selection as
/// `get_minimax_move` at the same depth, pruning only inside.
pub fn get_alpha_beta_move(board: &BoardState, depth: u8, player: Player) -> (r: Option<
    (usize, usize),
>)
    requires
        board.wf(),
        depth >= 1,
    ensures
        match r {
            None => legal_moves_seq(board@, player).len() == 0,
            Some(m) => legal_moves_seq(board@, player).len() > 0 && is_minimax_choice(
                board@,
                depth as nat,
                player,
                m,
            ),
        },
{
    let valid_moves = board.get_valid_moves_for_board(player);
    if valid_moves.len() == 0 {
        return None;
    }
    proof {
        lemma_legal_moves_sound(board@, player);
    }
    let ghost vals = root_values(board@, valid_moves@, (depth - 1) as nat, player);

    let mut best_move = valid_moves[0];
    let mut best_score = i32::MIN;
    let ghost mut bi: int = -1;

    let mut i: usize = 0;
    while i < valid_moves.len()
        invariant
            board.wf(),
            valid_moves@ == legal_moves_seq(board@, player),
            forall|j: int|
                0 <= j < valid_moves@.len() ==> {
                    let m = #[trigger] valid_moves@[j];
                    in_range(m.0 as int, m.1 as int) && is_legal(
                        board@,
                        m.0 as int,
                        m.1 as int,
                        player,
                    )
                },
            valid_moves@.len() > 0,
            depth >= 1,
            vals == root_values(board@, valid_moves@, (depth - 1) as nat, player),
            i <= valid_moves@.len(),
            bi == -1 ==> i == 0 && best_score == i32::MIN,
            bi != -1 ==> {
                &&& 0 <= bi < valid_moves@.len()
                &&& bi < i as int
                &&& best_move == valid_moves@[bi]
                &&& best_score as int == vals[bi]
                &&& forall|j: int| 0 <= j < i ==> vals[j] <= vals[bi]
                &&& forall|j: int| 0 <= j < bi ==> vals[j] < vals[bi]
            },
        decreases valid_moves@.len() - i,
    {
        let (row, col) = valid_moves[i];
        let mut game_copy = board.duplicate();
        game_copy.make_move_on_board(row, col, player);
        let score = alpha_beta(
            &game_copy,
            depth - 1,
            i32::MIN,
            i32::MAX,
            false,
            player.opponent(),
            player,
        );
        proof {
            lemma_apply_move_counts(board@, row as int, col as int, player);
            lemma_mm_bounds(game_copy@, (depth - 1) as nat, false, player.opponent_spec(), player);
            assert(score as int == vals[i as int]);
        }
        if score > best_score {
            best_score = score;
            best_move = (row, col);
            proof {
                bi = i as int;
            }
        }
        i += 1;
    }

    proof {
        assert(is_best_first(vals, bi));
    }
    Some(best_move)
}

} // verus!
