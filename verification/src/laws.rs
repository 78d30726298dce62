//! Proved laws of the rules engine: soundness of the legal-move
//! enumeration and the exact disc-count effect of applying a move.

use vstd::prelude::*;
use crate::board::{Cell, Player, count_cells, count_upto, idx, in_range};
use crate::rules::{
    apply_dirs, apply_move_spec, can_flip, dir_at, dir_flips, flips_in_dir, flips_of_pass,
    flips_upto, flip_ray, has_any_move, is_direction, is_legal, legal_moves_seq, moves_upto,
    ray_measure, run_len, scan, total_flips,
};

verus! {

/// The board indices a scan starting at (r, c) can visit.
pub open spec fn on_ray(r: int, c: int, dr: int, dc: int, i: int) -> bool
    decreases ray_measure(r, c, dr, dc),
{
    is_direction(dr, dc) && in_range(r, c) && (idx(r, c) == i || on_ray(
        r + dr,
        c + dc,
        dr,
        dc,
        i,
    ))
}

/// Every cell a ray visits lies on the board, beyond the ray's start
/// along each moving axis and level with it along each fixed axis.
proof fn lemma_on_ray_bounds(r: int, c: int, dr: int, dc: int, i: int)
    requires
        on_ray(r, c, dr, dc, i),
    ensures
        in_range(i / 8, i % 8),
        dr == 1 ==> i / 8 >= r,
        dr == -1 ==> i / 8 <= r,
        dr == 0 ==> i / 8 == r,
        dc == 1 ==> i % 8 >= c,
        dc == -1 ==> i % 8 <= c,
        dc == 0 ==> i % 8 == c,
    decreases ray_measure(r, c, dr, dc),
{
    if idx(r, c) == i {
        assert(i / 8 == r && i % 8 == c);
    } else {
        lemma_on_ray_bounds(r + dr, c + dc, dr, dc, i);
    }
}

/// A ray never revisits the cell the move was placed on.
proof fn lemma_ray_no_revisit(r: int, c: int, dr: int, dc: int)
    requires
        is_direction(dr, dc),
        in_range(r, c),
    ensures
        !on_ray(r + dr, c + dc, dr, dc, idx(r, c)),
{
    if on_ray(r + dr, c + dc, dr, dc, idx(r, c)) {
        lemma_on_ray_bounds(r + dr, c + dc, dr, dc, idx(r, c));
        assert(idx(r, c) / 8 == r && idx(r, c) % 8 == c);
        assert(false);
    }
}

/// Updating a cell off a ray changes neither what the ray's scan decides
/// nor the opposing run it measures.
proof fn lemma_ray_frame(
    s: Seq<Cell>,
    r: int,
    c: int,
    dr: int,
    dc: int,
    p: Player,
    found: bool,
    i: int,
    v: Cell,
)
    requires
        s.len() == 64,
        0 <= i < 64,
        !on_ray(r, c, dr, dc, i),
    ensures
        scan(s.update(i, v), r, c, dr, dc, p, found) == scan(s, r, c, dr, dc, p, found),
        run_len(s.update(i, v), r, c, dr, dc, p) == run_len(s, r, c, dr, dc, p),
    decreases ray_measure(r, c, dr, dc),
{
    if is_direction(dr, dc) && in_range(r, c) {
        assert(idx(r, c) != i);
        lemma_ray_frame(s, r + dr, c + dc, dr, dc, p, true, i, v);
    }
}

/// Updating one cell changes a prefix count by the obvious amount.
proof fn lemma_count_update(s: Seq<Cell>, x: Cell, i: int, v: Cell, k: int)
    requires
        0 <= i < s.len(),
        0 <= k <= s.len(),
    ensures
        count_upto(s.update(i, v), x, k) == if i < k {
            count_upto(s, x, k) - (if s[i] == x {
                1int
            } else {
                0int
            }) + (if v == x {
                1int
            } else {
                0int
            })
        } else {
            count_upto(s, x, k)
        },
    decreases k,
{
    if k > 0 {
        lemma_count_update(s, x, i, v, k - 1);
    }
}

/// A scan that closes having seen no opposing disc yet in fact passes
/// one first, so it closes for any `found` flag and its run is non-empty.
proof fn lemma_scan_weaken(s: Seq<Cell>, r: int, c: int, dr: int, dc: int, p: Player)
    requires
        scan(s, r, c, dr, dc, p, false),
    ensures
        scan(s, r, c, dr, dc, p, true),
        run_len(s, r, c, dr, dc, p) >= 1,
{
    assert(s[idx(r, c)] == p.opponent_spec().disc());
}

/// One directional flipping pass turns exactly the opposing run into the
/// mover's colour, leaving the empty-cell count untouched.
proof fn lemma_flip_ray_effect(s: Seq<Cell>, r: int, c: int, dr: int, dc: int, p: Player)
    requires
        s.len() == 64,
        scan(s, r, c, dr, dc, p, true),
    ensures
        flip_ray(s, r, c, dr, dc, p).len() == 64,
        count_cells(flip_ray(s, r, c, dr, dc, p), p.disc()) == count_cells(s, p.disc())
            + run_len(s, r, c, dr, dc, p),
        count_cells(flip_ray(s, r, c, dr, dc, p), p.opponent_spec().disc()) == count_cells(
            s,
            p.opponent_spec().disc(),
        ) - run_len(s, r, c, dr, dc, p),
        count_cells(flip_ray(s, r, c, dr, dc, p), Cell::Empty) == count_cells(s, Cell::Empty),
    decreases ray_measure(r, c, dr, dc),
{
    if s[idx(r, c)] == p.disc() {
        assert(run_len(s, r, c, dr, dc, p) == 0);
    } else {
        let j = idx(r, c);
        assert(0 <= j < 64);
        let s2 = s.update(j, p.disc());
        lemma_ray_no_revisit(r, c, dr, dc);
        lemma_ray_frame(s, r + dr, c + dc, dr, dc, p, true, j, p.disc());
        lemma_count_update(s, p.disc(), j, p.disc(), 64);
        lemma_count_update(s, p.opponent_spec().disc(), j, p.disc(), 64);
        lemma_count_update(s, Cell::Empty, j, p.disc(), 64);
        lemma_flip_ray_effect(s2, r + dr, c + dc, dr, dc, p);
    }
}

/// Each entry of the direction table is a compass direction.
proof fn lemma_dir_at_valid(i: int)
    requires
        0 <= i < 8,
    ensures
        is_direction(dir_at(i).0, dir_at(i).1),
{
}

/// The first `k` directional passes keep the 64-cell shape and move
/// exactly their flip total from the opponent to the mover.
proof fn lemma_apply_dirs_counts(s: Seq<Cell>, r: int, c: int, p: Player, k: int)
    requires
        s.len() == 64,
        in_range(r, c),
        0 <= k <= 8,
    ensures
        apply_dirs(s, r, c, p, k).len() == 64,
        flips_upto(s, r, c, p, k) >= 0,
        count_cells(apply_dirs(s, r, c, p, k), p.disc()) == count_cells(s, p.disc()) + flips_upto(
            s,
            r,
            c,
            p,
            k,
        ),
        count_cells(apply_dirs(s, r, c, p, k), p.opponent_spec().disc()) == count_cells(
            s,
            p.opponent_spec().disc(),
        ) - flips_upto(s, r, c, p, k),
        count_cells(apply_dirs(s, r, c, p, k), Cell::Empty) == count_cells(s, Cell::Empty),
    decreases k,
{
    if k > 0 {
        lemma_apply_dirs_counts(s, r, c, p, k - 1);
        let prev = apply_dirs(s, r, c, p, k - 1);
        let dr = dir_at(k - 1).0;
        let dc = dir_at(k - 1).1;
        lemma_dir_at_valid(k - 1);
        if can_flip(prev, r, c, dr, dc, p) {
            lemma_scan_weaken(prev, r + dr, c + dc, dr, dc, p);
            lemma_flip_ray_effect(prev, r + dr, c + dc, dr, dc, p);
        }
    }
}

/// The direction of least index that captures for `p` at (r, c), scanning
/// from `i` on; 8 when none does.
spec fn first_flip_dir(s: Seq<Cell>, r: int, c: int, p: Player, i: int) -> int
    decreases 8 - i,
{
    if i < 0 || i >= 8 {
        8
    } else if dir_flips(s, r, c, p, i) {
        i
    } else {
        first_flip_dir(s, r, c, p, i + 1)
    }
}

proof fn lemma_first_flip_dir(s: Seq<Cell>, r: int, c: int, p: Player, i: int)
    requires
        0 <= i <= 8,
        exists|j: int| i <= j < 8 && #[trigger] dir_flips(s, r, c, p, j),
    ensures
        ({
            let f = first_flip_dir(s, r, c, p, i);
            &&& i <= f < 8
            &&& dir_flips(s, r, c, p, f)
            &&& forall|j: int| i <= j < f ==> !#[trigger] dir_flips(s, r, c, p, j)
        }),
    decreases 8 - i,
{
    if !dir_flips(s, r, c, p, i) {
        lemma_first_flip_dir(s, r, c, p, i + 1);
    }
}

/// While no direction up to `k` captures, the passes change nothing and
/// flip nothing.
proof fn lemma_apply_dirs_stable(s: Seq<Cell>, r: int, c: int, p: Player, k: int)
    requires
        0 <= k <= 8,
        forall|j: int| 0 <= j < k ==> !#[trigger] dir_flips(s, r, c, p, j),
    ensures
        apply_dirs(s, r, c, p, k) == s,
        flips_upto(s, r, c, p, k) == 0,
    decreases k,
{
    if k > 0 {
        lemma_apply_dirs_stable(s, r, c, p, k - 1);
        assert(!dir_flips(s, r, c, p, k - 1));
        assert(!can_flip(s, r, c, dir_at(k - 1).0, dir_at(k - 1).1, p));
        assert(flips_of_pass(s, r, c, p, k - 1) == 0);
    }
}

/// Later passes only add flips.
proof fn lemma_flips_upto_mono(s: Seq<Cell>, r: int, c: int, p: Player, a: int, b: int)
    requires
        0 <= a <= b,
    ensures
        flips_upto(s, r, c, p, b) >= flips_upto(s, r, c, p, a),
    decreases b - a,
{
    if a < b {
        lemma_flips_upto_mono(s, r, c, p, a, b - 1);
    }
}

/// LAW: a legal move targets an empty cell, and applying it flips at
/// least one opposing disc.
pub proof fn lemma_legal_move_flips(s: Seq<Cell>, r: int, c: int, p: Player)
    requires
        s.len() == 64,
        is_legal(s, r, c, p),
    ensures
        s[idx(r, c)] == Cell::Empty,
        total_flips(s, r, c, p) >= 1,
{
    let s1 = s.update(idx(r, c), p.disc());
    let i0 = choose|i: int| 0 <= i < 8 && #[trigger] dir_flips(s, r, c, p, i);
    lemma_dir_at_valid(i0);
    lemma_ray_no_revisit(r, c, dir_at(i0).0, dir_at(i0).1);
    lemma_ray_frame(
        s,
        r + dir_at(i0).0,
        c + dir_at(i0).1,
        dir_at(i0).0,
        dir_at(i0).1,
        p,
        false,
        idx(r, c),
        p.disc(),
    );
    assert(dir_flips(s1, r, c, p, i0));
    lemma_first_flip_dir(s1, r, c, p, 0);
    let f = first_flip_dir(s1, r, c, p, 0);
    lemma_apply_dirs_stable(s1, r, c, p, f);
    lemma_dir_at_valid(f);
    lemma_scan_weaken(s1, r + dir_at(f).0, c + dir_at(f).1, dir_at(f).0, dir_at(f).1, p);
    assert(flips_of_pass(s1, r, c, p, f) >= 1);
    assert(flips_upto(s1, r, c, p, f + 1) >= 1);
    lemma_flips_upto_mono(s1, r, c, p, f + 1, 8);
}

/// LAW: applying a legal move is flip-monotonic: the mover gains
/// 1 + total_flips discs, the opponent loses exactly total_flips, one
/// empty cell is filled, and the disc total rises by exactly one.
pub proof fn lemma_apply_move_counts(s: Seq<Cell>, r: int, c: int, p: Player)
    requires
        s.len() == 64,
        is_legal(s, r, c, p),
    ensures
        ({
            let after = apply_move_spec(s, r, c, p);
            let f = total_flips(s, r, c, p);
            &&& after.len() == 64
            &&& f >= 1
            &&& count_cells(after, p.disc()) == count_cells(s, p.disc()) + 1 + f
            &&& count_cells(after, p.opponent_spec().disc()) == count_cells(
                s,
                p.opponent_spec().disc(),
            ) - f
            &&& count_cells(after, Cell::Empty) == count_cells(s, Cell::Empty) - 1
            &&& count_cells(after, Cell::Black) + count_cells(after, Cell::White) == count_cells(
                s,
                Cell::Black,
            ) + count_cells(s, Cell::White) + 1
        }),
{
    let s1 = s.update(idx(r, c), p.disc());
    lemma_count_update(s, p.disc(), idx(r, c), p.disc(), 64);
    lemma_count_update(s, p.opponent_spec().disc(), idx(r, c), p.disc(), 64);
    lemma_count_update(s, Cell::Empty, idx(r, c), p.disc(), 64);
    lemma_apply_dirs_counts(s1, r, c, p, 8);
    lemma_legal_move_flips(s, r, c, p);
}

/// A flipping pass only ever writes the mover's colour.
proof fn lemma_flip_ray_pointwise(s: Seq<Cell>, r: int, c: int, dr: int, dc: int, p: Player)
    requires
        s.len() == 64,
    ensures
        flip_ray(s, r, c, dr, dc, p).len() == 64,
        forall|i: int|
            0 <= i < 64 ==> #[trigger] flip_ray(s, r, c, dr, dc, p)[i] == s[i] || flip_ray(
                s,
                r,
                c,
                dr,
                dc,
                p,
            )[i] == p.disc(),
    decreases ray_measure(r, c, dr, dc),
{
    if is_direction(dr, dc) && in_range(r, c) && s[idx(r, c)] != p.disc() {
        lemma_flip_ray_pointwise(s.update(idx(r, c), p.disc()), r + dr, c + dc, dr, dc, p);
    }
}

/// The directional passes only ever write the mover's colour.
proof fn lemma_apply_dirs_pointwise(s: Seq<Cell>, r: int, c: int, p: Player, k: int)
    requires
        s.len() == 64,
        in_range(r, c),
        0 <= k <= 8,
    ensures
        apply_dirs(s, r, c, p, k).len() == 64,
        forall|i: int|
            0 <= i < 64 ==> #[trigger] apply_dirs(s, r, c, p, k)[i] == s[i] || apply_dirs(
                s,
                r,
                c,
                p,
                k,
            )[i] == p.disc(),
    decreases k,
{
    if k > 0 {
        lemma_apply_dirs_pointwise(s, r, c, p, k - 1);
        let prev = apply_dirs(s, r, c, p, k - 1);
        let dr = dir_at(k - 1).0;
        let dc = dir_at(k - 1).1;
        if can_flip(prev, r, c, dr, dc, p) {
            lemma_flip_ray_pointwise(prev, r + dr, c + dc, dr, dc, p);
        }
    }
}

/// LAW: a move writes the mover's disc at its own cell and otherwise
/// only turns discs into the mover's colour: every untouched cell keeps
/// its content, and no captured cell ends in any other state.
pub proof fn lemma_apply_move_frame(s: Seq<Cell>, r: int, c: int, p: Player)
    requires
        s.len() == 64,
        in_range(r, c),
    ensures
        apply_move_spec(s, r, c, p).len() == 64,
        apply_move_spec(s, r, c, p)[idx(r, c)] == p.disc(),
        forall|i: int|
            0 <= i < 64 && i != idx(r, c) ==> #[trigger] apply_move_spec(s, r, c, p)[i] == s[i]
                || apply_move_spec(s, r, c, p)[i] == p.disc(),
{
    let s1 = s.update(idx(r, c), p.disc());
    lemma_apply_dirs_pointwise(s1, r, c, p, 8);
}

/// A prefix count lies between zero and the prefix length.
pub proof fn lemma_count_bounds(s: Seq<Cell>, x: Cell, k: int)
    requires
        0 <= k,
    ensures
        0 <= count_upto(s, x, k) <= k,
    decreases k,
{
    if k > 0 {
        lemma_count_bounds(s, x, k - 1);
    }
}

/// A prefix enumeration holds at most one move per cell scanned.
pub proof fn lemma_moves_upto_len(s: Seq<Cell>, p: Player, k: int)
    requires
        0 <= k,
    ensures
        moves_upto(s, p, k).len() <= k,
    decreases k,
{
    if k > 0 {
        lemma_moves_upto_len(s, p, k - 1);
    }
}

/// Every enumerated move is an in-range legal move.
pub proof fn lemma_moves_upto_elements(s: Seq<Cell>, p: Player, k: int)
    requires
        0 <= k <= 64,
    ensures
        forall|j: int|
            0 <= j < moves_upto(s, p, k).len() ==> {
                let m = #[trigger] moves_upto(s, p, k)[j];
                &&& in_range(m.0 as int, m.1 as int)
                &&& is_legal(s, m.0 as int, m.1 as int, p)
            },
    decreases k,
{
    if k > 0 {
        lemma_moves_upto_elements(s, p, k - 1);
        let pre = moves_upto(s, p, k - 1);
        let whole = moves_upto(s, p, k);
        assert forall|j: int| 0 <= j < whole.len() implies {
            let m = #[trigger] whole[j];
            &&& in_range(m.0 as int, m.1 as int)
            &&& is_legal(s, m.0 as int, m.1 as int, p)
        } by {
            if j < pre.len() {
                assert(whole[j] == pre[j]);
            } else {
                assert(is_legal(s, (k - 1) / 8, (k - 1) % 8, p));
                assert(whole[j] == ((((k - 1) / 8) as usize), (((k - 1) % 8) as usize)));
                assert(0 <= (k - 1) / 8 < 8 && 0 <= (k - 1) % 8 < 8);
            }
        }
    }
}

/// A coordinate pair is enumerated iff it is legal and its row-major
/// index lies below the prefix bound.
pub proof fn lemma_moves_upto_contains(s: Seq<Cell>, p: Player, k: int, r: int, c: int)
    requires
        0 <= k <= 64,
        in_range(r, c),
    ensures
        moves_upto(s, p, k).contains((r as usize, c as usize)) <==> (idx(r, c) < k && is_legal(
            s,
            r,
            c,
            p,
        )),
    decreases k,
{
    if k > 0 {
        lemma_moves_upto_contains(s, p, k - 1, r, c);
        let pre = moves_upto(s, p, k - 1);
        let whole = moves_upto(s, p, k);
        let m = (r as usize, c as usize);
        if idx(r, c) < k && is_legal(s, r, c, p) {
            if idx(r, c) < k - 1 {
                let j = choose|j: int| 0 <= j < pre.len() && pre[j] == m;
                assert(whole[j] == m);
            } else {
                assert(r == (k - 1) / 8 && c == (k - 1) % 8);
                assert(whole[pre.len() as int] == m);
            }
            assert(whole.contains(m));
        }
        if whole.contains(m) {
            let j = choose|j: int| 0 <= j < whole.len() && whole[j] == m;
            if j < pre.len() {
                assert(pre[j] == m);
                assert(pre.contains(m));
            } else {
                assert(is_legal(s, (k - 1) / 8, (k - 1) % 8, p));
                assert(m.0 as int == (k - 1) / 8 && m.1 as int == (k - 1) % 8);
                assert(idx(r, c) == k - 1);
            }
        }
    }
}

/// LAW: a player has a legal move exactly when the enumeration is
/// non-empty.
pub proof fn lemma_has_any_move_iff(s: Seq<Cell>, p: Player)
    ensures
        has_any_move(s, p) <==> legal_moves_seq(s, p).len() > 0,
{
    if has_any_move(s, p) {
        let (r, c) = choose|r: int, c: int| in_range(r, c) && #[trigger] is_legal(s, r, c, p);
        lemma_moves_upto_contains(s, p, 64, r, c);
        assert(legal_moves_seq(s, p).contains((r as usize, c as usize)));
    }
    if legal_moves_seq(s, p).len() > 0 {
        lemma_moves_upto_elements(s, p, 64);
        let m = legal_moves_seq(s, p)[0];
        assert(is_legal(s, m.0 as int, m.1 as int, p));
    }
}

/// LAW: the legal-move enumeration is sound: every returned move names an
/// empty on-board cell and, applied, flips at least one opposing disc.
pub proof fn lemma_legal_moves_sound(s: Seq<Cell>, p: Player)
    requires
        s.len() == 64,
    ensures
        forall|j: int|
            0 <= j < legal_moves_seq(s, p).len() ==> {
                let m = #[trigger] legal_moves_seq(s, p)[j];
                &&& in_range(m.0 as int, m.1 as int)
                &&& s[idx(m.0 as int, m.1 as int)] == Cell::Empty
                &&& is_legal(s, m.0 as int, m.1 as int, p)
                &&& total_flips(s, m.0 as int, m.1 as int, p) >= 1
            },
{
    lemma_moves_upto_elements(s, p, 64);
    assert forall|j: int| 0 <= j < legal_moves_seq(s, p).len() implies {
        let m = #[trigger] legal_moves_seq(s, p)[j];
        &&& in_range(m.0 as int, m.1 as int)
        &&& s[idx(m.0 as int, m.1 as int)] == Cell::Empty
        &&& is_legal(s, m.0 as int, m.1 as int, p)
        &&& total_flips(s, m.0 as int, m.1 as int, p) >= 1
    } by {
        let m = legal_moves_seq(s, p)[j];
        lemma_legal_move_flips(s, m.0 as int, m.1 as int, p);
    }
}

} // verus!
