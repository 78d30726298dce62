//! Rules of the game: directional capture scanning, move legality and
//! application (disc flipping), legal-move enumeration, and terminal
//! detection.

use vstd::prelude::*;
use crate::board::{BoardState, Cell, Player, count_cells, count_upto, idx, in_range};

verus! {

/// The eight compass directions in the order the engine scans them.
pub open spec fn dir_at(i: int) -> (int, int) {
    if i == 0 {
        (-1, -1)
    } else if i == 1 {
        (-1, 0)
    } else if i == 2 {
        (-1, 1)
    } else if i == 3 {
        (0, -1)
    } else if i == 4 {
        (0, 1)
    } else if i == 5 {
        (1, -1)
    } else if i == 6 {
        (1, 0)
    } else {
        (1, 1)
    }
}

/// A compass direction: a unit step along at least one axis.
pub open spec fn is_direction(dr: int, dc: int) -> bool {
    -1 <= dr <= 1 && -1 <= dc <= 1 && !(dr == 0 && dc == 0)
}

/// Steps a scan at (r, c) can still take before leaving the board;
/// strictly decreases along a ray, which grounds the ray recursions.
pub open spec fn ray_measure(r: int, c: int, dr: int, dc: int) -> int {
    if dr == 1 {
        8 - r
    } else if dr == -1 {
        r + 1
    } else if dc == 1 {
        8 - c
    } else {
        c + 1
    }
}

/// The capture scan, standing on (r, c) and looking along (dr, dc): true
/// iff the contiguous run of opposing discs from here on closes with one
/// of `p`'s discs before any empty cell or the edge, where `found` records
/// whether an opposing disc has been passed already.
pub open spec fn scan(s: Seq<Cell>, r: int, c: int, dr: int, dc: int, p: Player, found: bool) -> bool
    decreases ray_measure(r, c, dr, dc),
{
    if !is_direction(dr, dc) || !in_range(r, c) {
        false
    } else if s[idx(r, c)] == Cell::Empty {
        false
    } else if s[idx(r, c)] == p.disc() {
        found
    } else {
        scan(s, r + dr, c + dc, dr, dc, p, true)
    }
}

/// Single-direction capture test for a move at (r, c): at least one
/// contiguous opposing disc immediately followed by one of `p`'s discs,
/// with no empty cell or edge interrupting the run.
pub open spec fn can_flip(s: Seq<Cell>, r: int, c: int, dr: int, dc: int, p: Player) -> bool {
    scan(s, r + dr, c + dc, dr, dc, p, false)
}

/// Length of the contiguous run of opposing discs along the ray from (r, c).
pub open spec fn run_len(s: Seq<Cell>, r: int, c: int, dr: int, dc: int, p: Player) -> nat
    decreases ray_measure(r, c, dr, dc),
{
    if !is_direction(dr, dc) || !in_range(r, c) {
        0
    } else if s[idx(r, c)] == p.opponent_spec().disc() {
        1 + run_len(s, r + dr, c + dc, dr, dc, p)
    } else {
        0
    }
}

/// Discs a move at (r, c) flips in one direction: the opposing run,
/// provided the capture rule holds there.
pub open spec fn flips_in_dir(s: Seq<Cell>, r: int, c: int, dr: int, dc: int, p: Player) -> int {
    if can_flip(s, r, c, dr, dc, p) {
        run_len(s, r + dr, c + dc, dr, dc, p) as int
    } else {
        0
    }
}

/// The board after flipping every disc along the ray from (r, c), up to
/// but excluding the first of `p`'s discs; one directional flipping pass.
pub open spec fn flip_ray(s: Seq<Cell>, r: int, c: int, dr: int, dc: int, p: Player) -> Seq<Cell>
    decreases ray_measure(r, c, dr, dc),
{
    if !is_direction(dr, dc) || !in_range(r, c) {
        s
    } else if s[idx(r, c)] == p.disc() {
        s
    } else {
        flip_ray(s.update(idx(r, c), p.disc()), r + dr, c + dc, dr, dc, p)
    }
}

/// Whether direction `i` captures for a move of `p` at (r, c).
pub open spec fn dir_flips(s: Seq<Cell>, r: int, c: int, p: Player, i: int) -> bool {
    can_flip(s, r, c, dir_at(i).0, dir_at(i).1, p)
}

/// A legal move: an empty on-board cell from which some direction captures.
pub open spec fn is_legal(s: Seq<Cell>, r: int, c: int, p: Player) -> bool {
    &&& in_range(r, c)
    &&& s[idx(r, c)] == Cell::Empty
    &&& exists|i: int| 0 <= i < 8 && #[trigger] dir_flips(s, r, c, p, i)
}

/// The board after the first `k` directional passes of a move already
/// placed at (r, c), each pass flipping only if its capture rule holds on
/// the board as flipped so far.
pub open spec fn apply_dirs(s: Seq<Cell>, r: int, c: int, p: Player, k: int) -> Seq<Cell>
    decreases k,
{
    if k <= 0 {
        s
    } else {
        let prev = apply_dirs(s, r, c, p, k - 1);
        let dr = dir_at(k - 1).0;
        let dc = dir_at(k - 1).1;
        if can_flip(prev, r, c, dr, dc, p) {
            flip_ray(prev, r + dr, c + dc, dr, dc, p)
        } else {
            prev
        }
    }
}

/// The board after `p` moves at (r, c): the disc is placed, then each of
/// the eight directions flips independently where the capture rule holds.
pub open spec fn apply_move_spec(s: Seq<Cell>, r: int, c: int, p: Player) -> Seq<Cell> {
    apply_dirs(s.update(idx(r, c), p.disc()), r, c, p, 8)
}

/// Discs flipped by directional pass `k` of a move at (r, c).
pub open spec fn flips_of_pass(s: Seq<Cell>, r: int, c: int, p: Player, k: int) -> int {
    flips_in_dir(apply_dirs(s, r, c, p, k), r, c, dir_at(k).0, dir_at(k).1, p)
}

/// Total discs flipped by the first `k` directional passes.
pub open spec fn flips_upto(s: Seq<Cell>, r: int, c: int, p: Player, k: int) -> int
    decreases k,
{
    if k <= 0 {
        0
    } else {
        flips_upto(s, r, c, p, k - 1) + flips_of_pass(s, r, c, p, k - 1)
    }
}

/// Total discs a move of `p` at (r, c) flips.
pub open spec fn total_flips(s: Seq<Cell>, r: int, c: int, p: Player) -> int {
    flips_upto(s.update(idx(r, c), p.disc()), r, c, p, 8)
}

/// All legal moves of `p` with row-major index below `k`, in row-major order.
pub open spec fn moves_upto(s: Seq<Cell>, p: Player, k: int) -> Seq<(usize, usize)>
    decreases k,
{
    if k <= 0 {
        Seq::empty()
    } else {
        moves_upto(s, p, k - 1) + (if is_legal(s, (k - 1) / 8, (k - 1) % 8, p) {
            seq![(((k - 1) / 8) as usize, ((k - 1) % 8) as usize)]
        } else {
            Seq::empty()
        })
    }
}

/// All legal moves of `p`, in row-major order.
pub open spec fn legal_moves_seq(s: Seq<Cell>, p: Player) -> Seq<(usize, usize)> {
    moves_upto(s, p, 64)
}

/// Whether `p` has any legal move (otherwise `p` must pass).
pub open spec fn has_any_move(s: Seq<Cell>, p: Player) -> bool {
    exists|r: int, c: int| in_range(r, c) && #[trigger] is_legal(s, r, c, p)
}

/// A full board: no empty cell left.
pub open spec fn is_full(s: Seq<Cell>) -> bool {
    count_cells(s, Cell::Empty) == 0
}

/// Terminal position: the board is full, or neither player can move.
/// A board where only one side is stuck is not terminal: that side passes.
pub open spec fn is_terminal_spec(s: Seq<Cell>) -> bool {
    is_full(s) || (!has_any_move(s, Player::Black) && !has_any_move(s, Player::White))
}

/// The components of compass direction `i`, as machine integers.
pub fn dir_components(i: usize) -> (d: (i32, i32))
    requires
        i < 8,
    ensures
        d.0 as int == dir_at(i as int).0,
        d.1 as int == dir_at(i as int).1,
        is_direction(d.0 as int, d.1 as int),
{
    if i == 0 {
        (-1, -1)
    } else if i == 1 {
        (-1, 0)
    } else if i == 2 {
        (-1, 1)
    } else if i == 3 {
        (0, -1)
    } else if i == 4 {
        (0, 1)
    } else if i == 5 {
        (1, -1)
    } else if i == 6 {
        (1, 0)
    } else {
        (1, 1)
    }
}

impl BoardState {
    /// Walks outward from (row, col) along one direction and decides the
    /// capture rule there (see `can_flip`).
    pub fn can_flip_in_direction_board(&self, row: usize, col: usize, dr: i32, dc: i32, player: Player) -> (b: bool)
        requires
            self.wf(),
            in_range(row as int, col as int),
            is_direction(dr as int, dc as int),
        ensures
            b == can_flip(self@, row as int, col as int, dr as int, dc as int, player),
    {
        let mut r: i32 = row as i32 + dr;
        let mut c: i32 = col as i32 + dc;
        let mut found_opponent = false;

        while r >= 0 && r < 8 && c >= 0 && c < 8
            invariant
                self.wf(),
                is_direction(dr as int, dc as int),
                -1 <= r as int <= 8,
                -1 <= c as int <= 8,
                scan(self@, r as int, c as int, dr as int, dc as int, player, found_opponent)
                    == can_flip(self@, row as int, col as int, dr as int, dc as int, player),
            decreases ray_measure(r as int, c as int, dr as int, dc as int),
        {
            let current_piece = self.get(r as usize, c as usize);

            if current_piece == Cell::Empty {
                return false;
            } else if current_piece == player.disc_cell() {
                return found_opponent;
            } else {
                found_opponent = true;
            }

            r = r + dr;
            c = c + dc;
        }

        false
    }

    /// Flips every disc along one direction up to the first of `player`'s
    /// own discs; callers establish the capture rule there first.
    pub fn flip_in_direction_board(&mut self, row: usize, col: usize, dr: i32, dc: i32, player: Player)
        requires
            old(self).wf(),
            in_range(row as int, col as int),
            is_direction(dr as int, dc as int),
        ensures
            final(self).wf(),
            final(self)@ == flip_ray(
                old(self)@,
                row as int + dr as int,
                col as int + dc as int,
                dr as int,
                dc as int,
                player,
            ),
    {
        let mut r: i32 = row as i32 + dr;
        let mut c: i32 = col as i32 + dc;

        while r >= 0 && r < 8 && c >= 0 && c < 8
            invariant
                self.wf(),
                is_direction(dr as int, dc as int),
                -1 <= r as int <= 8,
                -1 <= c as int <= 8,
                flip_ray(self@, r as int, c as int, dr as int, dc as int, player)
                    == flip_ray(
                        old(self)@,
                        row as int + dr as int,
                        col as int + dc as int,
                        dr as int,
                        dc as int,
                        player,
                    ),
            ensures
                self.wf(),
                self@ == flip_ray(
                    old(self)@,
                    row as int + dr as int,
                    col as int + dc as int,
                    dr as int,
                    dc as int,
                    player,
                ),
            decreases ray_measure(r as int, c as int, dr as int, dc as int),
        {
            let current_piece = self.get(r as usize, c as usize);

            if current_piece == player.disc_cell() {
                proof {
                    assert(flip_ray(self@, r as int, c as int, dr as int, dc as int, player) == self@);
                }
                break;
            } else {
                self.set(r as usize, c as usize, player.disc_cell());
            }

            r = r + dr;
            c = c + dc;
        }
    }

    /// Applies a move: writes `player`'s disc at (row, col), then flips
    /// each of the eight directions whose capture rule holds.
    pub fn make_move_on_board(&mut self, row: usize, col: usize, player: Player)
        requires
            old(self).wf(),
            in_range(row as int, col as int),
        ensures
            final(self).wf(),
            final(self)@ == apply_move_spec(old(self)@, row as int, col as int, player),
    {
        self.set(row, col, player.disc_cell());
        let ghost placed = self@;

        let mut i: usize = 0;
        while i < 8
            invariant
                self.wf(),
                in_range(row as int, col as int),
                i <= 8,
                self@ == apply_dirs(placed, row as int, col as int, player, i as int),
            decreases 8 - i,
        {
            let (dr, dc) = dir_components(i);
            if self.can_flip_in_direction_board(row, col, dr, dc, player) {
                self.flip_in_direction_board(row, col, dr, dc, player);
            }
            i += 1;
        }
    }

    /// Move legality for `player`: the cell is empty and some direction
    /// satisfies the capture rule.
    pub fn is_valid_move_for_player(&self, row: usize, col: usize, player: Player) -> (b: bool)
        requires
            self.wf(),
            in_range(row as int, col as int),
        ensures
            b == is_legal(self@, row as int, col as int, player),
    {
        if self.get(row, col) != Cell::Empty {
            return false;
        }

        let mut i: usize = 0;
        while i < 8
            invariant
                self.wf(),
                in_range(row as int, col as int),
                self@[idx(row as int, col as int)] == Cell::Empty,
                i <= 8,
                forall|j: int| 0 <= j < i ==> !dir_flips(self@, row as int, col as int, player, j),
            decreases 8 - i,
        {
            let (dr, dc) = dir_components(i);
            if self.can_flip_in_direction_board(row, col, dr, dc, player) {
                proof {
                    assert(dir_flips(self@, row as int, col as int, player, i as int));
                }
                return true;
            }
            i += 1;
        }

        false
    }

    /// All legal moves of `player`, in row-major order.
    pub fn get_valid_moves_for_board(&self, player: Player) -> (mv: Vec<(usize, usize)>)
        requires
            self.wf(),
        ensures
            mv@ == legal_moves_seq(self@, player),
    {
        let mut moves: Vec<(usize, usize)> = Vec::new();
        let mut row: usize = 0;
        while row < 8
            invariant
                self.wf(),
                row <= 8,
                moves@ == moves_upto(self@, player, 8 * row as int),
            decreases 8 - row,
        {
            let mut col: usize = 0;
            while col < 8
                invariant
                    self.wf(),
                    row < 8,
                    col <= 8,
                    moves@ == moves_upto(self@, player, 8 * row as int + col as int),
                decreases 8 - col,
            {
                let ghost k = 8 * row as int + col as int;
                if self.is_valid_move_for_player(row, col, player) {
                    moves.push((row, col));
                }
                proof {
                    assert((k + 1 - 1) / 8 == row as int && (k + 1 - 1) % 8 == col as int);
                    assert(moves@ =~= moves_upto(self@, player, k + 1));
                }
                col += 1;
            }
            row += 1;
        }
        moves
    }

    /// Whether `player` has any legal move on this board.
    pub fn has_valid_moves_for_player(&self, player: Player) -> (b: bool)
        requires
            self.wf(),
        ensures
            b == has_any_move(self@, player),
    {
        let mut row: usize = 0;
        while row < 8
            invariant
                self.wf(),
                row <= 8,
                forall|a: int, b: int| in_range(a, b) && a < row ==> !is_legal(self@, a, b, player),
            decreases 8 - row,
        {
            let mut col: usize = 0;
            while col < 8
                invariant
                    self.wf(),
                    row < 8,
                    col <= 8,
                    forall|a: int, b: int| in_range(a, b) && a < row ==> !is_legal(self@, a, b, player),
                    forall|b: int| 0 <= b < col ==> !is_legal(self@, row as int, b, player),
                decreases 8 - col,
            {
                if self.is_valid_move_for_player(row, col, player) {
                    return true;
                }
                col += 1;
            }
            row += 1;
        }
        false
    }

    /// Terminal test: the board is full, or neither player has a move.
    pub fn is_terminal_state(&self) -> (b: bool)
        requires
            self.wf(),
        ensures
            b == is_terminal_spec(self@),
    {
        let empties = self.count(Cell::Empty);
        if empties == 0 {
            return true;
        }
        let black_can = self.has_valid_moves_for_player(Player::Black);
        let white_can = self.has_valid_moves_for_player(Player::White);
        !black_can && !white_can
    }
}

} // verus!
