//! The global properties the engine guarantees, stated and proved over
//! the spec-level models that the contracts of [`crate::block`] and
//! [`crate::board`] speak of.

use vstd::prelude::*;
use crate::block::{Pos, cleared, rotate_about, seq_has_at, spec_rotated, shifted};
use crate::board::{
    Tetris, all_in_bounds, attempt_move, pos_in_bounds, rows_collide, rows_occupied_at,
};
use vstd::set_lib::{lemma_int_range, lemma_len_subset, lemma_subset_equality, set_int_range};

verus! {

/// While the game is not lost, the falling block lies inside the grid
/// and overlaps no fixed block. Well-formedness is established by the
/// constructors and preserved by every operation (each requires and
/// ensures it), so this holds of every reachable board.
pub proof fn lemma_active_block_valid(t: Tetris)
    requires
        t.wf(),
        !t.lost(),
    ensures
        all_in_bounds(t.curr()@, t.grid_width(), t.grid_height()),
        !rows_collide(t.fixed_rows(), t.curr()@),
{
}

/// The distinct x-values covered by the cells of `rows` at row `y`.
pub open spec fn row_xs(rows: Seq<Seq<Pos>>, y: int) -> Set<int> {
    Set::new(|x: int| rows_occupied_at(rows, x, y))
}

/// A row of a well-formed board is full exactly when the full grid
/// width of distinct x-values appears among the fixed cells of that
/// row.
pub proof fn lemma_line_full_iff_distinct_columns(t: Tetris, y: int)
    requires
        t.wf(),
    ensures
        t.line_full(y) <==> (row_xs(t.fixed_rows(), y).finite() && row_xs(t.fixed_rows(), y).len()
            == t.grid_width()),
{
    let w = t.grid_width();
    let h = t.grid_height();
    let s = row_xs(t.fixed_rows(), y);
    let range = set_int_range(0, w);
    lemma_int_range(0, w);
    assert forall|x: int| s.contains(x) implies range.contains(x) by {
        let k = choose|k: int|
            0 <= k < t.fixed_rows().len() && seq_has_at(t.fixed_rows()[k], x, y);
        let rowk = t.fixed_rows()[k];
        let i = choose|i: int| 0 <= i < rowk.len() && rowk[i].0 == x && rowk[i].1 == y;
        assert(t.fixed_rows()[k] == t.fixed()[k]@);
        assert(all_in_bounds(t.fixed()[k]@, w, h));
        assert(pos_in_bounds(rowk[i], w, h));
    }
    assert(s.subset_of(range));
    lemma_len_subset(s, range);
    if t.line_full(y) {
        assert forall|x: int| range.contains(x) implies s.contains(x) by {
            assert(rows_occupied_at(t.fixed_rows(), x, y));
        }
        assert(s =~= range);
    }
    if s.finite() && s.len() == w {
        lemma_subset_equality(s, range);
        assert forall|x: int| 0 <= x < w implies rows_occupied_at(t.fixed_rows(), x, y) by {
            assert(range.contains(x));
            assert(s.contains(x));
        }
    }
}

/// How many cells of `s` lie at row `r`.
pub open spec fn count_at_row(s: Seq<Pos>, r: int) -> nat
    decreases s.len(),
{
    if s.len() == 0 {
        0
    } else {
        count_at_row(s.drop_last(), r) + (if s.last().1 == r {
            1nat
        } else {
            0nat
        })
    }
}

/// Collapsing row `y` in a block: the cells at row `y` vanish (the cell
/// count drops by exactly their number), each row `r` above it (`r < y`)
/// keeps its cell count but moves to row `r + 1`, and every row below
/// `y` is untouched.
pub proof fn lemma_remove_line_counts(s: Seq<Pos>, y: i32, r: int)
    ensures
        r <= y ==> count_at_row(cleared(s, y), r) == count_at_row(s, r - 1),
        r > y ==> count_at_row(cleared(s, y), r) == count_at_row(s, r),
        cleared(s, y).len() == s.len() - count_at_row(s, y as int),
    decreases s.len(),
{
    if s.len() > 0 {
        let t = s.drop_last();
        let p = s.last();
        lemma_remove_line_counts(t, y, r);
        if p.1 != y {
            let q = if p.1 < y {
                Pos(p.0, (p.1 + 1) as i32)
            } else {
                p
            };
            assert(cleared(s, y) == cleared(t, y).push(q));
            assert(cleared(t, y).push(q).drop_last() =~= cleared(t, y));
            assert(cleared(t, y).push(q).last() == q);
        }
    }
}

/// Membership in a pushed cell sequence: the old cells, plus the new one.
pub proof fn lemma_seq_has_at_push(u: Seq<Pos>, q: Pos, x: int, r: int)
    ensures
        seq_has_at(u.push(q), x, r) <==> (seq_has_at(u, x, r) || (q.0 == x && q.1 == r)),
{
    if seq_has_at(u.push(q), x, r) {
        let i = choose|i: int|
            0 <= i < u.push(q).len() && u.push(q)[i].0 == x && u.push(q)[i].1 == r;
        if i < u.len() {
            assert(u[i] == u.push(q)[i]);
            assert(seq_has_at(u, x, r));
        } else {
            assert(u.push(q)[i] == q);
        }
    }
    if seq_has_at(u, x, r) {
        let i = choose|i: int| 0 <= i < u.len() && u[i].0 == x && u[i].1 == r;
        assert(u.push(q)[i] == u[i]);
        assert(seq_has_at(u.push(q), x, r));
    }
    if q.0 == x && q.1 == r {
        assert(u.push(q)[u.len() as int] == q);
        assert(seq_has_at(u.push(q), x, r));
    }
}

/// Where each cell of a collapsed block comes from: a cell at `(x, r)`
/// after row `y` collapses was at `(x, r)` if `r` lies below the
/// cleared row, and at `(x, r - 1)` — one row higher — if `r` lies at
/// or above it. In particular the cleared row's own cells are gone, and
/// row `y` afterwards holds exactly what row `y - 1` held.
pub proof fn lemma_remove_line_cells(s: Seq<Pos>, y: i32, x: int, r: int)
    ensures
        seq_has_at(cleared(s, y), x, r) <==> ((r > y && seq_has_at(s, x, r)) || (r <= y
            && seq_has_at(s, x, r - 1))),
    decreases s.len(),
{
    if s.len() == 0 {
        assert(!seq_has_at(cleared(s, y), x, r));
        assert(!seq_has_at(s, x, r));
        assert(!seq_has_at(s, x, r - 1));
    } else {
        let t = s.drop_last();
        let p = s.last();
        lemma_remove_line_cells(t, y, x, r);
        assert(t.push(p) =~= s);
        lemma_seq_has_at_push(t, p, x, r);
        lemma_seq_has_at_push(t, p, x, r - 1);
        if p.1 != y {
            let q = if p.1 < y {
                Pos(p.0, (p.1 + 1) as i32)
            } else {
                p
            };
            assert(cleared(s, y) == cleared(t, y).push(q));
            lemma_seq_has_at_push(cleared(t, y), q, x, r);
        }
    }
}

/// Four quarter turns about the block's own first cell return every
/// cell to its original place — for every shape, so no shape kind is an
/// exception. The bound keeps the intermediate coordinates within the
/// machine integers; every block on a well-formed board satisfies it.
pub proof fn lemma_rotate_cycle4(s: Seq<Pos>)
    requires
        forall|i: int|
            0 <= i < s.len() ==> (-0x2000_0000 <= (#[trigger] s[i]).0 <= 0x2000_0000 && -0x2000_0000
                <= s[i].1 <= 0x2000_0000),
    ensures
        spec_rotated(spec_rotated(spec_rotated(spec_rotated(s)))) == s,
{
    if s.len() > 0 {
        let pv = s[0];
        let r1 = spec_rotated(s);
        assert forall|i: int| 0 <= i < s.len() implies #[trigger] r1[i] == Pos(
            (pv.0 + pv.1 - s[i].1) as i32,
            (pv.1 + s[i].0 - pv.0) as i32,
        ) by {
            assert(r1[i] == rotate_about(pv, s[i]));
        }
        assert(r1[0] == pv);
        let r2 = spec_rotated(r1);
        assert forall|i: int| 0 <= i < s.len() implies #[trigger] r2[i] == Pos(
            (2 * pv.0 - s[i].0) as i32,
            (2 * pv.1 - s[i].1) as i32,
        ) by {
            assert(r2[i] == rotate_about(pv, r1[i]));
        }
        assert(r2[0] == pv);
        let r3 = spec_rotated(r2);
        assert forall|i: int| 0 <= i < s.len() implies #[trigger] r3[i] == Pos(
            (pv.0 - pv.1 + s[i].1) as i32,
            (pv.1 - s[i].0 + pv.0) as i32,
        ) by {
            assert(r3[i] == rotate_about(pv, r2[i]));
        }
        assert(r3[0] == pv);
        let r4 = spec_rotated(r3);
        assert forall|i: int| 0 <= i < s.len() implies #[trigger] r4[i] == s[i] by {
            assert(r4[i] == rotate_about(pv, r3[i]));
        }
        assert(r4 =~= s);
    }
}

/// A shift left followed at once by a shift right, from a falling
/// position with clearance on both sides, restores the original cells.
pub proof fn lemma_shift_left_right_roundtrip(rows: Seq<Seq<Pos>>, w: int, h: int, s: Seq<Pos>)
    requires
        1 <= w <= i32::MAX as int,
        1 <= h <= i32::MAX as int,
        all_in_bounds(s, w, h),
        !rows_collide(rows, s),
        all_in_bounds(shifted(s, -1, 0), w, h),
        !rows_collide(rows, shifted(s, -1, 0)),
        all_in_bounds(shifted(s, 1, 0), w, h),
        !rows_collide(rows, shifted(s, 1, 0)),
    ensures
        attempt_move(
            rows,
            w,
            h,
            attempt_move(rows, w, h, s, shifted(s, -1, 0)),
            shifted(attempt_move(rows, w, h, s, shifted(s, -1, 0)), 1, 0),
        ) == s,
{
    let m = shifted(s, -1, 0);
    assert(attempt_move(rows, w, h, s, m) == m);
    assert forall|i: int| 0 <= i < s.len() implies #[trigger] shifted(m, 1, 0)[i] == s[i] by {
        assert(pos_in_bounds(s[i], w, h));
        assert(m[i] == Pos((s[i].0 - 1) as i32, (s[i].1 + 0) as i32));
    }
    assert(shifted(m, 1, 0) =~= s);
    assert(attempt_move(rows, w, h, m, shifted(m, 1, 0)) == s);
}

} // verus!
