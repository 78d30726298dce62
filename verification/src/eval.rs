//! Positional, phase-aware board evaluation, plus the leaner one-ply
//! heuristic used by the greedy strategy.

use vstd::prelude::*;
use crate::board::{BoardState, Cell, Player, count_cells, count_upto, idx, in_range};
use crate::laws::lemma_moves_upto_len;
use crate::rules::{
    can_flip, dir_at, flips_in_dir, is_direction, legal_moves_seq, ray_measure, run_len, scan,
};

verus! {

/// Positional weight of a cell for the full-search evaluation. The table
/// is symmetric under horizontal and vertical reflection, so only the
/// upper-left quadrant is spelled out: corners high, corner-adjacent
/// cells strongly negative, edges and centre moderate.
pub open spec fn position_weight(r: int, c: int) -> int {
    let a = if r < 4 { r } else { 7 - r };
    let b = if c < 4 { c } else { 7 - c };
    if a == 0 {
        if b == 0 { 120 } else if b == 1 { -20 } else if b == 2 { 20 } else { 5 }
    } else if a == 1 {
        if b == 0 { -20 } else if b == 1 { -40 } else { -5 }
    } else if a == 2 {
        if b == 0 { 20 } else if b == 1 { -5 } else if b == 2 { 15 } else { 3 }
    } else {
        if b == 0 { 5 } else if b == 1 { -5 } else { 3 }
    }
}

/// Positional weight of a destination cell for the greedy one-ply
/// heuristic; tuned independently of `position_weight` and kept distinct.
pub open spec fn greedy_weight(r: int, c: int) -> int {
    let a = if r < 4 { r } else { 7 - r };
    let b = if c < 4 { c } else { 7 - c };
    if a == 0 {
        if b == 0 { 100 } else if b == 1 { -20 } else if b == 2 { 10 } else { 5 }
    } else if a == 1 {
        if b == 0 { -20 } else if b == 1 { -50 } else { -2 }
    } else if a == 2 {
        if b == 0 { 10 } else if b == 1 { -2 } else { -1 }
    } else {
        if b == 0 { 5 } else if b == 1 { -2 } else { -1 }
    }
}

/// Signed positional contribution of cell `i`: its weight for the
/// perspective player's discs, the negated weight for the opponent's.
pub open spec fn cell_weight_term(s: Seq<Cell>, p: Player, i: int) -> int {
    if s[i] == p.disc() {
        position_weight(i / 8, i % 8)
    } else if s[i] == Cell::Empty {
        0
    } else {
        -position_weight(i / 8, i % 8)
    }
}

/// Signed positional sum over the first `k` cells.
pub open spec fn pos_sum(s: Seq<Cell>, p: Player, k: int) -> int
    decreases k,
{
    if k <= 0 {
        0
    } else {
        pos_sum(s, p, k - 1) + cell_weight_term(s, p, k - 1)
    }
}

/// Signed stability bonus of one cell: +bonus if the perspective player
/// holds it, -bonus if the opponent does.
pub open spec fn cell_stab(s: Seq<Cell>, p: Player, r: int, c: int, bonus: int) -> int {
    if s[idx(r, c)] == p.disc() {
        bonus
    } else if s[idx(r, c)] == Cell::Empty {
        0
    } else {
        -bonus
    }
}

/// Stability sum over the first `k` border columns/rows: each pass adds
/// the four cells (0, k-1), (7, k-1), (k-1, 0) and (k-1, 7) at 5 points,
/// so corner cells are deliberately counted by two edges each.
pub open spec fn edge_sum(s: Seq<Cell>, p: Player, k: int) -> int
    decreases k,
{
    if k <= 0 {
        0
    } else {
        edge_sum(s, p, k - 1) + cell_stab(s, p, 0, k - 1, 5) + cell_stab(s, p, 7, k - 1, 5)
            + cell_stab(s, p, k - 1, 0, 5) + cell_stab(s, p, k - 1, 7, 5)
    }
}

/// Stability term: 25 points per corner on top of the edge points.
pub open spec fn stability_spec(s: Seq<Cell>, p: Player) -> int {
    cell_stab(s, p, 0, 0, 25) + cell_stab(s, p, 0, 7, 25) + cell_stab(s, p, 7, 0, 25) + cell_stab(
        s,
        p,
        7,
        7,
        25,
    ) + edge_sum(s, p, 8)
}

/// Full evaluation from `p`'s perspective: the signed positional sum,
/// doubled in the opening (< 20 discs), with a 10-a-move mobility
/// differential in the midgame (< 50 discs) or a 10-a-disc material
/// differential in the endgame, plus the stability term.
pub open spec fn eval_spec(s: Seq<Cell>, p: Player) -> int {
    let pos = pos_sum(s, p, 64);
    let mine = count_cells(s, p.disc());
    let theirs = count_cells(s, p.opponent_spec().disc());
    let phase = if mine + theirs < 20 {
        pos * 2
    } else if mine + theirs < 50 {
        pos + 10 * (legal_moves_seq(s, p).len() - legal_moves_seq(s, p.opponent_spec()).len())
    } else {
        pos + 10 * (mine - theirs)
    };
    phase + stability_spec(s, p)
}

/// Flip counts summed over the first `k` directions for a move at (r, c),
/// each direction contributing only where its capture rule holds.
pub open spec fn dir_flip_sum(s: Seq<Cell>, r: int, c: int, p: Player, k: int) -> int
    decreases k,
{
    if k <= 0 {
        0
    } else {
        dir_flip_sum(s, r, c, p, k - 1) + flips_in_dir(s, r, c, dir_at(k - 1).0, dir_at(k - 1).1, p)
    }
}

/// Greedy one-ply heuristic of a move: the destination's greedy weight
/// plus twice the number of discs the move would flip.
pub open spec fn basic_score_spec(s: Seq<Cell>, r: int, c: int, p: Player) -> int {
    greedy_weight(r, c) + 2 * dir_flip_sum(s, r, c, p, 8)
}

/// A ceiling that every static evaluation stays strictly inside; search
/// can therefore use it as an infinite bound.
pub open spec fn score_bound() -> int {
    20000
}

/// The signed positional sum grows by at most one weight per cell.
proof fn lemma_pos_sum_bounds(s: Seq<Cell>, p: Player, k: int)
    requires
        0 <= k,
    ensures
        -120 * k <= pos_sum(s, p, k) <= 120 * k,
    decreases k,
{
    if k > 0 {
        lemma_pos_sum_bounds(s, p, k - 1);
        assert(-120 <= cell_weight_term(s, p, k - 1) <= 120);
    }
}

/// The edge stability sum grows by at most 20 points per border column.
proof fn lemma_edge_sum_bounds(s: Seq<Cell>, p: Player, k: int)
    requires
        0 <= k,
    ensures
        -20 * k <= edge_sum(s, p, k) <= 20 * k,
    decreases k,
{
    if k > 0 {
        lemma_edge_sum_bounds(s, p, k - 1);
    }
}

/// LAW: every static evaluation lies strictly inside the score bound.
pub proof fn lemma_eval_bounds(s: Seq<Cell>, p: Player)
    ensures
        -score_bound() < eval_spec(s, p) < score_bound(),
{
    lemma_pos_sum_bounds(s, p, 64);
    lemma_edge_sum_bounds(s, p, 8);
    crate::laws::lemma_count_bounds(s, p.disc(), 64);
    crate::laws::lemma_count_bounds(s, p.opponent_spec().disc(), 64);
    lemma_moves_upto_len(s, p, 64);
    lemma_moves_upto_len(s, p.opponent_spec(), 64);
}

/// An opposing run never outruns the board edge.
pub proof fn lemma_run_len_bound(s: Seq<Cell>, r: int, c: int, dr: int, dc: int, p: Player)
    ensures
        run_len(s, r, c, dr, dc, p) <= 8,
        !in_range(r, c) ==> run_len(s, r, c, dr, dc, p) == 0,
    decreases ray_measure(r, c, dr, dc),
{
    lemma_run_len_measure(s, r, c, dr, dc, p);
}

/// The run is bounded by the remaining ray length.
proof fn lemma_run_len_measure(s: Seq<Cell>, r: int, c: int, dr: int, dc: int, p: Player)
    ensures
        in_range(r, c) && is_direction(dr, dc) ==> run_len(s, r, c, dr, dc, p) <= ray_measure(
            r,
            c,
            dr,
            dc,
        ),
        run_len(s, r, c, dr, dc, p) <= 8,
    decreases ray_measure(r, c, dr, dc),
{
    if is_direction(dr, dc) && in_range(r, c) && s[idx(r, c)] == p.opponent_spec().disc() {
        lemma_run_len_measure(s, r + dr, c + dc, dr, dc, p);
    }
}

/// The exec positional weight table (see `position_weight`).
pub fn position_weight_at(r: usize, c: usize) -> (w: i32)
    requires
        r < 8,
        c < 8,
    ensures
        w as int == position_weight(r as int, c as int),
        -40 <= w <= 120,
{
    let a = if r < 4 { r } else { 7 - r };
    let b = if c < 4 { c } else { 7 - c };
    if a == 0 {
        if b == 0 { 120 } else if b == 1 { -20 } else if b == 2 { 20 } else { 5 }
    } else if a == 1 {
        if b == 0 { -20 } else if b == 1 { -40 } else { -5 }
    } else if a == 2 {
        if b == 0 { 20 } else if b == 1 { -5 } else if b == 2 { 15 } else { 3 }
    } else {
        if b == 0 { 5 } else if b == 1 { -5 } else { 3 }
    }
}

/// The exec greedy weight table (see `greedy_weight`).
pub fn greedy_weight_at(r: usize, c: usize) -> (w: i32)
    requires
        r < 8,
        c < 8,
    ensures
        w as int == greedy_weight(r as int, c as int),
        -50 <= w <= 100,
{
    let a = if r < 4 { r } else { 7 - r };
    let b = if c < 4 { c } else { 7 - c };
    if a == 0 {
        if b == 0 { 100 } else if b == 1 { -20 } else if b == 2 { 10 } else { 5 }
    } else if a == 1 {
        if b == 0 { -20 } else if b == 1 { -50 } else { -2 }
    } else if a == 2 {
        if b == 0 { 10 } else if b == 1 { -2 } else { -1 }
    } else {
        if b == 0 { 5 } else if b == 1 { -2 } else { -1 }
    }
}

/// Counts the discs a move at (row, col) would flip in one direction;
/// zero when the capture rule fails there.
pub fn count_flips_in_direction(
    board: &BoardState,
    row: usize,
    col: usize,
    dr: i32,
    dc: i32,
    player: Player,
) -> (n: i32)
    requires
        board.wf(),
        in_range(row as int, col as int),
        is_direction(dr as int, dc as int),
    ensures
        n as int == flips_in_dir(board@, row as int, col as int, dr as int, dc as int, player),
        0 <= n <= 8,
{
    let ghost r0 = row as int + dr as int;
    let ghost c0 = col as int + dc as int;
    proof {
        lemma_run_len_bound(board@, r0, c0, dr as int, dc as int, player);
    }
    let mut r: i32 = row as i32 + dr;
    let mut c: i32 = col as i32 + dc;
    let mut count: i32 = 0;

    while r >= 0 && r < 8 && c >= 0 && c < 8
        invariant
            board.wf(),
            is_direction(dr as int, dc as int),
            in_range(row as int, col as int),
            r0 == row as int + dr as int,
            c0 == col as int + dc as int,
            -1 <= r as int <= 8,
            -1 <= c as int <= 8,
            0 <= count <= 8,
            run_len(board@, r0, c0, dr as int, dc as int, player) == count + run_len(
                board@,
                r as int,
                c as int,
                dr as int,
                dc as int,
                player,
            ),
            run_len(board@, r0, c0, dr as int, dc as int, player) <= 8,
            scan(board@, r as int, c as int, dr as int, dc as int, player, count > 0) == can_flip(
                board@,
                row as int,
                col as int,
                dr as int,
                dc as int,
                player,
            ),
        decreases ray_measure(r as int, c as int, dr as int, dc as int),
    {
        let current_piece = board.get(r as usize, c as usize);

        if current_piece == Cell::Empty {
            return 0;
        } else if current_piece == player.disc_cell() {
            proof {
                assert(run_len(board@, r as int, c as int, dr as int, dc as int, player) == 0);
                assert(scan(
                    board@,
                    r as int,
                    c as int,
                    dr as int,
                    dc as int,
                    player,
                    count > 0,
                ) == (count > 0));
                assert(can_flip(board@, row as int, col as int, dr as int, dc as int, player) == (
                count > 0));
                assert(run_len(board@, r0, c0, dr as int, dc as int, player) == count as int);
            }
            return count;
        } else {
            count = count + 1;
        }

        r = r + dr;
        c = c + dc;
    }

    0
}

/// Greedy one-ply heuristic of a move for `player` (see
/// `basic_score_spec`): destination weight plus twice the flip count over
/// all eight directions.
pub fn calculate_basic_move_score(board: &BoardState, row: usize, col: usize, player: Player) -> (v:
    i32)
    requires
        board.wf(),
        in_range(row as int, col as int),
    ensures
        v as int == basic_score_spec(board@, row as int, col as int, player),
{
    let mut score: i32 = greedy_weight_at(row, col);

    let mut i: usize = 0;
    while i < 8
        invariant
            board.wf(),
            in_range(row as int, col as int),
            i <= 8,
            score as int == greedy_weight(row as int, col as int) + 2 * dir_flip_sum(
                board@,
                row as int,
                col as int,
                player,
                i as int,
            ),
            -50 <= score as int <= 100 + 16 * i,
        decreases 8 - i,
    {
        let (dr, dc) = crate::rules::dir_components(i);
        let flips = count_flips_in_direction(board, row, col, dr, dc, player);
        score = score + flips * 2;
        i += 1;
    }

    score
}

/// Full positional evaluation of a board from `perspective`'s point of
/// view (see `eval_spec`).
pub fn evaluate_board(board: &BoardState, perspective: Player) -> (v: i32)
    requires
        board.wf(),
    ensures
        v as int == eval_spec(board@, perspective),
{
    let mut score: i32 = 0;
    let mut my_count: i32 = 0;
    let mut opponent_count: i32 = 0;

    let mut i: usize = 0;
    while i < 64
        invariant
            board.wf(),
            i <= 64,
            score as int == pos_sum(board@, perspective, i as int),
            my_count as int == count_upto(board@, perspective.disc(), i as int),
            opponent_count as int == count_upto(board@, perspective.opponent_spec().disc(), i as int),
            0 <= my_count <= i,
            0 <= opponent_count <= i,
            -120 * (i as int) <= score as int <= 120 * (i as int),
        decreases 64 - i,
    {
        let cell = board.get(i / 8, i % 8);
        proof {
            assert(idx(i as int / 8, i as int % 8) == i as int);
        }
        let w = position_weight_at(i / 8, i % 8);
        if cell == perspective.disc_cell() {
            my_count = my_count + 1;
            score = score + w;
        } else if cell != Cell::Empty {
            opponent_count = opponent_count + 1;
            score = score - w;
        }
        i += 1;
    }

    let total = my_count + opponent_count;
    let phased: i32;
    if total < 20 {
        phased = score * 2;
    } else if total < 50 {
        let my_moves = board.get_valid_moves_for_board(perspective);
        let opponent_moves = board.get_valid_moves_for_board(perspective.opponent());
        proof {
            lemma_moves_upto_len(board@, perspective, 64);
            lemma_moves_upto_len(board@, perspective.opponent_spec(), 64);
        }
        phased = score + 10 * (my_moves.len() as i32 - opponent_moves.len() as i32);
    } else {
        phased = score + 10 * (my_count - opponent_count);
    }

    let stability = evaluate_stability(board, perspective);
    phased + stability
}

/// Stability term of the evaluation: corner and edge control (see
/// `stability_spec`).
pub fn evaluate_stability(board: &BoardState, perspective: Player) -> (v: i32)
    requires
        board.wf(),
    ensures
        v as int == stability_spec(board@, perspective),
        -260 <= v <= 260,
{
    let mut stability_score: i32 = 0;

    stability_score = stability_score + corner_term(board, 0, 0, perspective);
    stability_score = stability_score + corner_term(board, 0, 7, perspective);
    stability_score = stability_score + corner_term(board, 7, 0, perspective);
    stability_score = stability_score + corner_term(board, 7, 7, perspective);

    let mut i: usize = 0;
    while i < 8
        invariant
            board.wf(),
            i <= 8,
            stability_score as int == cell_stab(board@, perspective, 0, 0, 25) + cell_stab(
                board@,
                perspective,
                0,
                7,
                25,
            ) + cell_stab(board@, perspective, 7, 0, 25) + cell_stab(board@, perspective, 7, 7, 25)
                + edge_sum(board@, perspective, i as int),
            -100 - 20 * (i as int) <= stability_score as int <= 100 + 20 * (i as int),
        decreases 8 - i,
    {
        stability_score = stability_score + edge_cell_term(board, 0, i, perspective);
        stability_score = stability_score + edge_cell_term(board, 7, i, perspective);
        stability_score = stability_score + edge_cell_term(board, i, 0, perspective);
        stability_score = stability_score + edge_cell_term(board, i, 7, perspective);
        i += 1;
    }

    stability_score
}

/// Signed 25-point corner contribution.
fn corner_term(board: &BoardState, r: usize, c: usize, perspective: Player) -> (v: i32)
    requires
        board.wf(),
        in_range(r as int, c as int),
    ensures
        v as int == cell_stab(board@, perspective, r as int, c as int, 25),
        -25 <= v <= 25,
{
    let cell = board.get(r, c);
    if cell == perspective.disc_cell() {
        25
    } else if cell != Cell::Empty {
        -25
    } else {
        0
    }
}

/// Signed 5-point edge contribution.
fn edge_cell_term(board: &BoardState, r: usize, c: usize, perspective: Player) -> (v: i32)
    requires
        board.wf(),
        in_range(r as int, c as int),
    ensures
        v as int == cell_stab(board@, perspective, r as int, c as int, 5),
        -5 <= v <= 5,
{
    let cell = board.get(r, c);
    if cell == perspective.disc_cell() {
        5
    } else if cell != Cell::Empty {
        -5
    } else {
        0
    }
}

} // verus!
