//! The board: grid dimensions, the falling block, the fixed terrain,
//! line clearing, and the tick / shift / rotate state machine.

use vstd::prelude::*;
use crate::block::{
    Block, Kind, Pos, canonical_cells, cleared, kind_label, kind_of_index, next_state, seq_has_at,
    shifted, spec_rotated,
};

verus! {

/// A horizontal move of the falling block.
#[derive(Clone, Copy, PartialEq, Eq, Structural, Debug)]
pub enum Direction {
    Left,
    Right,
}

/// Largest accepted grid dimension. Keeping every coordinate below it
/// lets translation and rotation arithmetic stay within `i32`.
pub const MAX_DIM: i32 = 0x2000_0000;

/// Selector state of a freshly constructed board.
pub const SELECTOR_SEED: u64 = 0x8cb9_10d1_6ae4_25bb;

/// True iff `p` lies inside the grid `[0, w) x [0, h)`.
pub open spec fn pos_in_bounds(p: Pos, w: int, h: int) -> bool {
    0 <= p.0 < w && 0 <= p.1 < h
}

/// True iff every cell of `s` lies inside the grid.
pub open spec fn all_in_bounds(s: Seq<Pos>, w: int, h: int) -> bool {
    forall|i: int| 0 <= i < s.len() ==> pos_in_bounds(#[trigger] s[i], w, h)
}

/// True iff `a` holds a cell that `b` also holds.
pub open spec fn seq_intersects(a: Seq<Pos>, b: Seq<Pos>) -> bool {
    exists|i: int| 0 <= i < b.len() && seq_has_at(a, (#[trigger] b[i]).0 as int, b[i].1 as int)
}

/// True iff some cell sequence of `rows` holds the cell `(x, y)`.
pub open spec fn rows_occupied_at(rows: Seq<Seq<Pos>>, x: int, y: int) -> bool {
    exists|k: int| 0 <= k < rows.len() && seq_has_at(#[trigger] rows[k], x, y)
}

/// True iff some cell sequence of `rows` shares a cell with `s`.
pub open spec fn rows_collide(rows: Seq<Seq<Pos>>, s: Seq<Pos>) -> bool {
    exists|k: int| 0 <= k < rows.len() && seq_intersects(#[trigger] rows[k], s)
}

/// True iff every column of row `y` is covered by some cell of `rows`.
pub open spec fn rows_line_full(rows: Seq<Seq<Pos>>, w: int, y: int) -> bool {
    forall|x: int| 0 <= x < w ==> rows_occupied_at(rows, x, y)
}

/// Every cell sequence of `rows` after row `y` collapses.
pub open spec fn clear_row(rows: Seq<Seq<Pos>>, y: i32) -> Seq<Seq<Pos>> {
    rows.map_values(|s: Seq<Pos>| cleared(s, y))
}

/// The fixed terrain after one ascending pass over the rows `0 .. n`:
/// each row found full — on the terrain as already collapsed by the
/// rows below it in index — is cleared in turn.
pub open spec fn clear_full_upto(rows: Seq<Seq<Pos>>, w: int, n: int) -> Seq<Seq<Pos>>
    decreases n,
{
    if n <= 0 {
        rows
    } else {
        let prev = clear_full_upto(rows, w, n - 1);
        if rows_line_full(prev, w, n - 1) {
            clear_row(prev, (n - 1) as i32)
        } else {
            prev
        }
    }
}

/// True iff every cell of `s`, once shifted right by `dx`, lies inside
/// the grid (the shape fits at the spawn column).
pub open spec fn fits_at_spawn(s: Seq<Pos>, dx: int, w: int, h: int) -> bool {
    forall|i: int| 0 <= i < s.len() ==> (0 <= (#[trigger] s[i]).0 + dx < w && 0 <= s[i].1 < h)
}

/// The outcome of attempting to replace the falling cells `s` by the
/// candidate cells `cand`: the candidate if it lies inside the grid and
/// clear of the fixed terrain, else `s` unchanged (rejected moves are
/// silently ignored).
pub open spec fn attempt_move(
    rows: Seq<Seq<Pos>>,
    w: int,
    h: int,
    s: Seq<Pos>,
    cand: Seq<Pos>,
) -> Seq<Pos> {
    if all_in_bounds(cand, w, h) && !rows_collide(rows, cand) {
        cand
    } else {
        s
    }
}

/// The horizontal displacement of a shift.
pub open spec fn dir_dx(d: Direction) -> int {
    match d {
        Direction::Left => -1,
        Direction::Right => 1,
    }
}

/// How a landing tick of the board `pre` determines the board `post`:
/// the falling block joins the fixed blocks, full rows are cleared in
/// one ascending pass, the next block is spawned at the spawn column —
/// the front of the scripted queue if one is queued, else a shape drawn
/// by the uniform selector — and the game is lost exactly if the new
/// block leaves the grid or overlaps the cleared terrain.
pub open spec fn landing(pre: Tetris, post: Tetris) -> bool {
    let rows1 = clear_full_upto(
        pre.fixed_rows().push(pre.curr()@),
        pre.grid_width(),
        pre.grid_height(),
    );
    &&& post.fixed_rows() == rows1
    &&& post.fixed().len() == pre.fixed().len() + 1
    &&& forall|k: int|
        0 <= k < pre.fixed().len() ==> (#[trigger] post.fixed()[k]).kind() == pre.fixed()[k].kind()
    &&& post.fixed()[pre.fixed().len() as int].kind() == pre.curr().kind()
    &&& (pre.queued().len() > 0 ==> {
        &&& post.curr().kind() == pre.queued()[0].kind()
        &&& post.curr()@ == shifted(pre.queued()[0]@, pre.spawn_dx(), 0)
        &&& post.queued() == pre.queued().drop_first()
        &&& post.selector_state() == pre.selector_state()
    })
    &&& (pre.queued().len() == 0 ==> {
        &&& post.selector_state() == next_state(pre.selector_state())
        &&& post.curr().kind() == kind_of_index((next_state(pre.selector_state()) % 7) as int)
        &&& post.curr()@ == shifted(canonical_cells(post.curr().kind()), pre.spawn_dx(), 0)
        &&& post.queued() == pre.queued()
    })
    &&& post.lost() == (!all_in_bounds(post.curr()@, pre.grid_width(), pre.grid_height())
        || rows_collide(rows1, post.curr()@))
}

/// The terrain clauses of well-formedness carry over between two
/// boards with the same dimensions, fixed blocks and queue.
pub proof fn lemma_same_terrain_wf(pre: Tetris, post: Tetris)
    requires
        pre.wf(),
        post.grid_width() == pre.grid_width(),
        post.grid_height() == pre.grid_height(),
        post.fixed() == pre.fixed(),
        post.queued() == pre.queued(),
    ensures
        forall|k: int|
            0 <= k < post.fixed().len() ==> all_in_bounds(
                (#[trigger] post.fixed()[k])@,
                post.grid_width(),
                post.grid_height(),
            ),
        forall|k: int|
            0 <= k < post.queued().len() ==> fits_at_spawn(
                (#[trigger] post.queued()[k])@,
                post.spawn_dx(),
                post.grid_width(),
                post.grid_height(),
            ),
{
    assert forall|k: int| 0 <= k < post.fixed().len() implies all_in_bounds(
        (#[trigger] post.fixed()[k])@,
        post.grid_width(),
        post.grid_height(),
    ) by {
        assert(all_in_bounds((pre.fixed()[k])@, pre.grid_width(), pre.grid_height()));
    }
    assert forall|k: int| 0 <= k < post.queued().len() implies fits_at_spawn(
        (#[trigger] post.queued()[k])@,
        post.spawn_dx(),
        post.grid_width(),
        post.grid_height(),
    ) by {
        assert(fits_at_spawn(
            (pre.queued()[k])@,
            pre.spawn_dx(),
            pre.grid_width(),
            pre.grid_height(),
        ));
    }
}

/// Collapsing a row keeps every cell inside the grid.
pub proof fn lemma_cleared_in_bounds(s: Seq<Pos>, y: i32, w: int, h: int)
    requires
        all_in_bounds(s, w, h),
        0 <= y < h,
    ensures
        all_in_bounds(cleared(s, y), w, h),
    decreases s.len(),
{
    if s.len() > 0 {
        assert(all_in_bounds(s.drop_last(), w, h)) by {
            assert forall|i: int| 0 <= i < s.drop_last().len() implies pos_in_bounds(
                #[trigger] s.drop_last()[i],
                w,
                h,
            ) by {
                assert(s.drop_last()[i] == s[i]);
                assert(pos_in_bounds(s[i], w, h));
            }
        }
        lemma_cleared_in_bounds(s.drop_last(), y, w, h);
        let p = s.last();
        assert(pos_in_bounds(p, w, h));
        assert forall|i: int| 0 <= i < cleared(s, y).len() implies pos_in_bounds(
            #[trigger] cleared(s, y)[i],
            w,
            h,
        ) by {
            if i < cleared(s.drop_last(), y).len() {
                assert(pos_in_bounds(cleared(s.drop_last(), y)[i], w, h));
            }
        }
    }
}

/// One ascending clearing pass keeps every fixed cell inside the grid.
pub proof fn lemma_rows_in_bounds_clear_upto(rows: Seq<Seq<Pos>>, w: int, h: int, n: int)
    requires
        forall|k: int| 0 <= k < rows.len() ==> all_in_bounds(#[trigger] rows[k], w, h),
        n <= h,
        h <= i32::MAX as int,
    ensures
        clear_full_upto(rows, w, n).len() == rows.len(),
        forall|k: int|
            0 <= k < rows.len() ==> all_in_bounds(#[trigger] clear_full_upto(rows, w, n)[k], w, h),
    decreases n,
{
    if n > 0 {
        lemma_rows_in_bounds_clear_upto(rows, w, h, n - 1);
        let prev = clear_full_upto(rows, w, n - 1);
        if rows_line_full(prev, w, n - 1) {
            assert forall|k: int| 0 <= k < rows.len() implies all_in_bounds(
                #[trigger] clear_full_upto(rows, w, n)[k],
                w,
                h,
            ) by {
                assert(all_in_bounds(prev[k], w, h));
                lemma_cleared_in_bounds(prev[k], (n - 1) as i32, w, h);
                assert(clear_full_upto(rows, w, n)[k] == cleared(prev[k], (n - 1) as i32));
            }
        }
    }
}

/// The game board. It owns the grid dimensions, the single falling
/// block, the fixed blocks (in insertion order), a scripted queue of
/// upcoming shapes (used before the uniform selector, so a driver or a
/// test can supply a deterministic sequence), and the loss flag.
pub struct Tetris {
    width: i32,
    height: i32,
    curr_block: Block,
    fixed: Vec<Block>,
    queue: Vec<Block>,
    selector: u64,
    lost: bool,
}

impl Tetris {
    /// The grid width.
    pub closed spec fn grid_width(self) -> int {
        self.width as int
    }

    /// The grid height.
    pub closed spec fn grid_height(self) -> int {
        self.height as int
    }

    /// The falling block.
    pub closed spec fn curr(self) -> Block {
        self.curr_block
    }

    /// The fixed blocks, in insertion order.
    pub closed spec fn fixed(self) -> Seq<Block> {
        self.fixed@
    }

    /// The scripted queue of upcoming shapes.
    pub closed spec fn queued(self) -> Seq<Block> {
        self.queue@
    }

    /// The state of the uniform shape selector.
    pub closed spec fn selector_state(self) -> u64 {
        self.selector
    }

    /// The loss flag.
    pub closed spec fn lost(self) -> bool {
        self.lost
    }

    /// The cell sequences of the fixed blocks.
    pub open spec fn fixed_rows(self) -> Seq<Seq<Pos>> {
        self.fixed().map_values(|b: Block| b@)
    }

    /// True iff some fixed block holds the cell `(x, y)`.
    pub open spec fn occupied_at(self, x: int, y: int) -> bool {
        rows_occupied_at(self.fixed_rows(), x, y)
    }

    /// True iff every column of row `y` is covered by a fixed block.
    pub open spec fn line_full(self, y: int) -> bool {
        rows_line_full(self.fixed_rows(), self.grid_width(), y)
    }

    /// The centered spawn column, `width / 2`: every spawned block's
    /// canonical layout is shifted right by this much.
    pub open spec fn spawn_dx(self) -> int {
        self.grid_width() / 2
    }

    /// True iff the falling block can no longer move down one row.
    pub open spec fn fall_blocked(self) -> bool {
        !all_in_bounds(shifted(self.curr()@, 0, 1), self.grid_width(), self.grid_height())
            || rows_collide(self.fixed_rows(), shifted(self.curr()@, 0, 1))
    }

    /// Well-formedness, established by the constructors and preserved
    /// by every operation: the dimensions are positive and bounded, the
    /// fixed blocks lie inside the grid, every queued shape fits at the
    /// spawn column, and — while the game is not lost — the falling
    /// block lies inside the grid and clear of the fixed blocks.
    pub open spec fn wf(self) -> bool {
        &&& 1 <= self.grid_width() <= MAX_DIM as int
        &&& 1 <= self.grid_height() <= MAX_DIM as int
        &&& forall|k: int|
            0 <= k < self.fixed().len() ==> all_in_bounds(
                (#[trigger] self.fixed()[k])@,
                self.grid_width(),
                self.grid_height(),
            )
        &&& forall|k: int|
            0 <= k < self.queued().len() ==> fits_at_spawn(
                (#[trigger] self.queued()[k])@,
                self.spawn_dx(),
                self.grid_width(),
                self.grid_height(),
            )
        &&& !self.lost() ==> {
            &&& all_in_bounds(self.curr()@, self.grid_width(), self.grid_height())
            &&& !rows_collide(self.fixed_rows(), self.curr()@)
        }
    }

    /// A board with no fixed blocks, not lost, whose falling block is
    /// drawn by the uniform selector and placed at the centered spawn
    /// position `(width / 2, 0)`. The dimensions must be large enough
    /// to host every canonical shape at that position.
    pub fn new(width: u32, height: u32) -> (t: Tetris)
        requires
            7 <= width <= MAX_DIM as u32,
            2 <= height <= MAX_DIM as u32,
        ensures
            t.wf(),
            t.grid_width() == width as int,
            t.grid_height() == height as int,
            t.fixed().len() == 0,
            t.queued().len() == 0,
            !t.lost(),
            t.selector_state() == next_state(SELECTOR_SEED),
            t.curr().kind() == kind_of_index((next_state(SELECTOR_SEED) % 7) as int),
            t.curr()@ == shifted(canonical_cells(t.curr().kind()), width as int / 2, 0),
    {
        let mut sel: u64 = SELECTOR_SEED;
        let b = crate::block::Block::new_random(&mut sel);
        let dx = (width / 2) as i32;
        proof {
            crate::block::lemma_canonical_bounds(b.kind());
        }
        let curr = b.translated(dx, 0);
        let t = Tetris {
            width: width as i32,
            height: height as i32,
            curr_block: curr,
            fixed: Vec::new(),
            queue: Vec::new(),
            selector: sel,
            lost: false,
        };
        proof {
            assert forall|i: int| 0 <= i < t.curr()@.len() implies pos_in_bounds(
                #[trigger] t.curr()@[i],
                t.grid_width(),
                t.grid_height(),
            ) by {
                assert(t.curr()@[i] == Pos(
                    (canonical_cells(b.kind())[i].0 + dx as int) as i32,
                    (canonical_cells(b.kind())[i].1 + 0) as i32,
                ));
            }
        }
        t
    }

    /// A board with no fixed blocks, not lost, whose falling block is
    /// the given one, as given. A test driver uses it to start from a
    /// chosen shape at a chosen place.
    pub fn new_with_block(width: i32, height: i32, block: Block) -> (t: Tetris)
        requires
            1 <= width <= MAX_DIM,
            1 <= height <= MAX_DIM,
            all_in_bounds(block@, width as int, height as int),
        ensures
            t.wf(),
            t.grid_width() == width as int,
            t.grid_height() == height as int,
            t.curr() == block,
            t.fixed().len() == 0,
            t.queued().len() == 0,
            !t.lost(),
            t.selector_state() == SELECTOR_SEED,
    {
        Tetris {
            width,
            height,
            curr_block: block,
            fixed: Vec::new(),
            queue: Vec::new(),
            selector: SELECTOR_SEED,
            lost: false,
        }
    }

    /// The centered spawn column, `width / 2`.
    fn spawn_offset(&self) -> (r: i32)
        requires
            1 <= self.grid_width() <= MAX_DIM as int,
        ensures
            r as int == self.spawn_dx(),
            0 <= r < MAX_DIM,
    {
        ((self.width as u32) / 2) as i32
    }

    /// Appends a shape to the scripted queue of upcoming spawns; the
    /// queue is consumed before the uniform selector. A shape that
    /// would not fit at the spawn column is rejected and ignored.
    pub fn push_next(&mut self, block: Block) -> (accepted: bool)
        requires
            old(self).wf(),
        ensures
            final(self).wf(),
            accepted == fits_at_spawn(
                block@,
                old(self).spawn_dx(),
                old(self).grid_width(),
                old(self).grid_height(),
            ),
            accepted ==> {
                &&& final(self).queued() == old(self).queued().push(block)
                &&& final(self).grid_width() == old(self).grid_width()
                &&& final(self).grid_height() == old(self).grid_height()
                &&& final(self).curr() == old(self).curr()
                &&& final(self).fixed() == old(self).fixed()
                &&& final(self).selector_state() == old(self).selector_state()
                &&& final(self).lost() == old(self).lost()
            },
            !accepted ==> *final(self) == *old(self),
    {
        let dx = self.spawn_offset();
        let ps = block.positions();
        let mut i: usize = 0;
        while i < ps.len()
            invariant
                i <= ps.len(),
                ps@ == block@,
                *self == *old(self),
                old(self).wf(),
                dx as int == self.spawn_dx(),
                forall|j: int|
                    0 <= j < i ==> (0 <= (#[trigger] block@[j]).0 + dx < self.grid_width() && 0
                        <= block@[j].1 < self.grid_height()),
            decreases ps.len() - i,
        {
            let p = ps[i];
            let cx: i64 = p.0 as i64 + dx as i64;
            if !(0 <= cx && cx < self.width as i64 && 0 <= p.1 && (p.1 as i64) < self.height
                as i64) {
                return false;
            }
            i = i + 1;
        }
        self.queue.push(block);
        proof {
            assert(fits_at_spawn(
                block@,
                old(self).spawn_dx(),
                old(self).grid_width(),
                old(self).grid_height(),
            ));
            assert forall|k: int| 0 <= k < self.queued().len() implies fits_at_spawn(
                (#[trigger] self.queued()[k])@,
                self.spawn_dx(),
                self.grid_width(),
                self.grid_height(),
            ) by {
                if k < old(self).queued().len() {
                    assert(fits_at_spawn(
                        (old(self).queued()[k])@,
                        old(self).spawn_dx(),
                        old(self).grid_width(),
                        old(self).grid_height(),
                    ));
                }
            }
        }
        true
    }

    /// Appends `block` to the fixed blocks, as given — test scaffolding
    /// for building a terrain by hand. The block is rejected and
    /// ignored if the game is lost, if it lies outside the grid, or if
    /// it overlaps a fixed block or the falling block.
    pub fn place_fixed(&mut self, block: Block) -> (accepted: bool)
        requires
            old(self).wf(),
        ensures
            final(self).wf(),
            accepted == (!old(self).lost() && all_in_bounds(
                block@,
                old(self).grid_width(),
                old(self).grid_height(),
            ) && !rows_collide(old(self).fixed_rows(), block@) && !seq_intersects(
                block@,
                old(self).curr()@,
            )),
            accepted ==> {
                &&& final(self).fixed() == old(self).fixed().push(block)
                &&& final(self).grid_width() == old(self).grid_width()
                &&& final(self).grid_height() == old(self).grid_height()
                &&& final(self).curr() == old(self).curr()
                &&& final(self).queued() == old(self).queued()
                &&& final(self).selector_state() == old(self).selector_state()
                &&& final(self).lost() == old(self).lost()
            },
            !accepted ==> *final(self) == *old(self),
    {
        if self.lost {
            return false;
        }
        if self.is_out_of_bounds(&block) {
            return false;
        }
        if self.is_colliding(&block) {
            return false;
        }
        if block.collides_with(&self.curr_block) {
            return false;
        }
        self.fixed.push(block);
        proof {
            assert(self.fixed_rows() =~= old(self).fixed_rows().push(block@));
            assert forall|k: int| 0 <= k < self.fixed_rows().len() implies !seq_intersects(
                #[trigger] self.fixed_rows()[k],
                self.curr()@,
            ) by {
                if k < old(self).fixed_rows().len() {
                    assert(!seq_intersects(old(self).fixed_rows()[k], old(self).curr()@));
                }
            }
            assert forall|k: int| 0 <= k < self.fixed().len() implies all_in_bounds(
                (#[trigger] self.fixed()[k])@,
                self.grid_width(),
                self.grid_height(),
            ) by {
                if k < old(self).fixed().len() {
                    assert(all_in_bounds(
                        (old(self).fixed()[k])@,
                        old(self).grid_width(),
                        old(self).grid_height(),
                    ));
                }
            }
            assert forall|k: int| 0 <= k < self.queued().len() implies fits_at_spawn(
                (#[trigger] self.queued()[k])@,
                self.spawn_dx(),
                self.grid_width(),
                self.grid_height(),
            ) by {
                assert(self.queued()[k] == old(self).queued()[k]);
                assert(fits_at_spawn(
                    (old(self).queued()[k])@,
                    old(self).spawn_dx(),
                    old(self).grid_width(),
                    old(self).grid_height(),
                ));
            }
        }
        true
    }

    /// Collapses row `y` in every fixed block.
    fn remove_line(&mut self, y: i32)
        ensures
            final(self).fixed_rows() == clear_row(old(self).fixed_rows(), y),
            final(self).fixed().len() == old(self).fixed().len(),
            forall|k: int|
                0 <= k < old(self).fixed().len() ==> (#[trigger] final(self).fixed()[k]).kind()
                    == old(self).fixed()[k].kind(),
            final(self).grid_width() == old(self).grid_width(),
            final(self).grid_height() == old(self).grid_height(),
            final(self).curr() == old(self).curr(),
            final(self).queued() == old(self).queued(),
            final(self).selector_state() == old(self).selector_state(),
            final(self).lost() == old(self).lost(),
    {
        let mut k: usize = 0;
        while k < self.fixed.len()
            invariant
                k <= self.fixed.len(),
                self.fixed@.len() == old(self).fixed().len(),
                self.width == old(self).width,
                self.height == old(self).height,
                self.curr_block == old(self).curr_block,
                self.queue@ == old(self).queue@,
                self.selector == old(self).selector,
                self.lost == old(self).lost,
                forall|j: int|
                    0 <= j < k ==> ((#[trigger] self.fixed@[j])@ == cleared(
                        old(self).fixed()[j]@,
                        y,
                    ) && self.fixed@[j].kind() == old(self).fixed()[j].kind()),
                forall|j: int|
                    k <= j < self.fixed@.len() ==> #[trigger] self.fixed@[j] == old(
                        self,
                    ).fixed()[j],
            decreases self.fixed.len() - k,
        {
            self.fixed[k].remove_line(y);
            k = k + 1;
        }
        proof {
            assert(self.fixed_rows() =~= clear_row(old(self).fixed_rows(), y));
        }
    }

    /// One ascending pass over all rows: every row found full — on the
    /// terrain as already collapsed by the cleared rows below it in
    /// index — is cleared in turn.
    fn remove_full_lines(&mut self)
        ensures
            final(self).fixed_rows() == clear_full_upto(
                old(self).fixed_rows(),
                old(self).grid_width(),
                old(self).grid_height(),
            ),
            final(self).fixed().len() == old(self).fixed().len(),
            forall|k: int|
                0 <= k < old(self).fixed().len() ==> (#[trigger] final(self).fixed()[k]).kind()
                    == old(self).fixed()[k].kind(),
            final(self).grid_width() == old(self).grid_width(),
            final(self).grid_height() == old(self).grid_height(),
            final(self).curr() == old(self).curr(),
            final(self).queued() == old(self).queued(),
            final(self).selector_state() == old(self).selector_state(),
            final(self).lost() == old(self).lost(),
    {
        let mut y: i32 = 0;
        while y < self.height
            invariant
                0 <= y,
                old(self).grid_height() >= 0 ==> y <= old(self).grid_height(),
                old(self).grid_height() < 0 ==> y == 0,
                self.width == old(self).width,
                self.height == old(self).height,
                self.curr_block == old(self).curr_block,
                self.queue@ == old(self).queue@,
                self.selector == old(self).selector,
                self.lost == old(self).lost,
                self.fixed@.len() == old(self).fixed().len(),
                forall|k: int|
                    0 <= k < old(self).fixed().len() ==> (#[trigger] self.fixed@[k]).kind() == old(
                        self,
                    ).fixed()[k].kind(),
                self.fixed_rows() == clear_full_upto(
                    old(self).fixed_rows(),
                    old(self).grid_width(),
                    y as int,
                ),
            decreases self.height - y,
        {
            let ghost rows_before = self.fixed_rows();
            let full = self.is_line_full(y);
            if full {
                self.remove_line(y);
            }
            proof {
                assert(clear_full_upto(
                    old(self).fixed_rows(),
                    old(self).grid_width(),
                    y + 1,
                ) == if rows_line_full(rows_before, old(self).grid_width(), y as int) {
                    clear_row(rows_before, y)
                } else {
                    rows_before
                });
            }
            y = y + 1;
        }
    }

    /// The next falling block, translated to the spawn column: the
    /// front of the scripted queue if one is queued, else a shape drawn
    /// by the uniform selector.
    fn next_spawn(&mut self) -> (b: Block)
        requires
            old(self).wf(),
        ensures
            final(self).wf(),
            final(self).grid_width() == old(self).grid_width(),
            final(self).grid_height() == old(self).grid_height(),
            final(self).curr() == old(self).curr(),
            final(self).fixed() == old(self).fixed(),
            final(self).lost() == old(self).lost(),
            old(self).queued().len() > 0 ==> {
                &&& b.kind() == old(self).queued()[0].kind()
                &&& b@ == shifted(old(self).queued()[0]@, old(self).spawn_dx(), 0)
                &&& all_in_bounds(b@, old(self).grid_width(), old(self).grid_height())
                &&& final(self).queued() == old(self).queued().drop_first()
                &&& final(self).selector_state() == old(self).selector_state()
            },
            old(self).queued().len() == 0 ==> {
                &&& final(self).selector_state() == next_state(old(self).selector_state())
                &&& b.kind() == kind_of_index((next_state(old(self).selector_state()) % 7) as int)
                &&& b@ == shifted(canonical_cells(b.kind()), old(self).spawn_dx(), 0)
                &&& final(self).queued() == old(self).queued()
            },
    {
        let dx = self.spawn_offset();
        if self.queue.len() > 0 {
            let q = self.queue.remove(0);
            proof {
                assert(fits_at_spawn(
                    (old(self).queued()[0])@,
                    old(self).spawn_dx(),
                    old(self).grid_width(),
                    old(self).grid_height(),
                ));
                assert(self.queue@ =~= old(self).queued().drop_first());
                assert forall|k: int| 0 <= k < self.queued().len() implies fits_at_spawn(
                    (#[trigger] self.queued()[k])@,
                    self.spawn_dx(),
                    self.grid_width(),
                    self.grid_height(),
                ) by {
                    assert(self.queued()[k] == old(self).queued()[k + 1]);
                    assert(fits_at_spawn(
                        (old(self).queued()[k + 1])@,
                        old(self).spawn_dx(),
                        old(self).grid_width(),
                        old(self).grid_height(),
                    ));
                }
            }
            let b = q.translated(dx, 0);
            proof {
                assert forall|k: int| 0 <= k < self.fixed().len() implies all_in_bounds(
                    (#[trigger] self.fixed()[k])@,
                    self.grid_width(),
                    self.grid_height(),
                ) by {
                    assert(all_in_bounds(
                        (old(self).fixed()[k])@,
                        old(self).grid_width(),
                        old(self).grid_height(),
                    ));
                }
                assert forall|i: int| 0 <= i < b@.len() implies pos_in_bounds(
                    #[trigger] b@[i],
                    self.grid_width(),
                    self.grid_height(),
                ) by {
                    assert(b@[i] == Pos((q@[i].0 + dx as int) as i32, (q@[i].1 + 0) as i32));
                    assert(0 <= q@[i].0 + (dx as int) && q@[i].0 + (dx as int)
                        < self.grid_width());
                }
            }
            b
        } else {
            let rb = crate::block::Block::new_random(&mut self.selector);
            proof {
                crate::block::lemma_canonical_bounds(rb.kind());
                lemma_same_terrain_wf(*old(self), *self);
            }
            rb.translated(dx, 0)
        }
    }

    /// The gravity step. When the game is lost it does nothing. When
    /// the falling block can move down one row, it does. Otherwise the
    /// falling block is fixed in place, full rows are cleared in one
    /// ascending pass, a new block is spawned at the spawn column, and
    /// the game is lost exactly if that block does not fit there.
    pub fn tick(&mut self)
        requires
            old(self).wf(),
        ensures
            final(self).wf(),
            final(self).grid_width() == old(self).grid_width(),
            final(self).grid_height() == old(self).grid_height(),
            old(self).lost() ==> *final(self) == *old(self),
            !old(self).lost() && !old(self).fall_blocked() ==> {
                &&& final(self).curr().kind() == old(self).curr().kind()
                &&& final(self).curr()@ == shifted(old(self).curr()@, 0, 1)
                &&& final(self).fixed() == old(self).fixed()
                &&& final(self).queued() == old(self).queued()
                &&& final(self).selector_state() == old(self).selector_state()
                &&& !final(self).lost()
            },
            !old(self).lost() && old(self).fall_blocked() ==> landing(*old(self), *final(self)),
    {
        if self.lost {
            return ;
        }
        proof {
            assert forall|i: int| 0 <= i < self.curr()@.len() implies (i32::MIN
                <= (#[trigger] self.curr()@[i]).0 + 0 <= i32::MAX && i32::MIN <= self.curr()@[i].1
                + 1 <= i32::MAX) by {
                assert(pos_in_bounds(self.curr()@[i], self.grid_width(), self.grid_height()));
            }
        }
        let moved = self.curr_block.translated(0, 1);
        if self.is_out_of_bounds(&moved) || self.is_colliding(&moved) {
            let landed = self.curr_block.duplicate();
            let nb = self.next_spawn();
            let ghost mid = *self;
            self.curr_block = nb;
            self.fixed.push(landed);
            proof {
                assert(self.fixed_rows() =~= old(self).fixed_rows().push(old(self).curr()@));
            }
            let ghost rows0 = self.fixed_rows();
            self.remove_full_lines();
            let oob = self.is_out_of_bounds(&self.curr_block);
            let col = self.is_colliding(&self.curr_block);
            if oob || col {
                self.lost = true;
            }
            proof {
                let w = old(self).grid_width();
                let h = old(self).grid_height();
                lemma_rows_in_bounds_clear_upto(rows0, w, h, h);
                assert forall|k: int| 0 <= k < self.fixed().len() implies all_in_bounds(
                    (#[trigger] self.fixed()[k])@,
                    w,
                    h,
                ) by {
                    assert(self.fixed()[k]@ == self.fixed_rows()[k]);
                    assert(all_in_bounds(self.fixed_rows()[k], w, h));
                }
                assert forall|k: int| 0 <= k < self.queued().len() implies fits_at_spawn(
                    (#[trigger] self.queued()[k])@,
                    self.spawn_dx(),
                    self.grid_width(),
                    self.grid_height(),
                ) by {
                    assert(self.queued()[k] == mid.queued()[k]);
                    assert(fits_at_spawn(
                        (mid.queued()[k])@,
                        mid.spawn_dx(),
                        mid.grid_width(),
                        mid.grid_height(),
                    ));
                }
            }
        } else {
            self.curr_block = moved;
            proof {
                assert forall|k: int| 0 <= k < self.fixed().len() implies all_in_bounds(
                    (#[trigger] self.fixed()[k])@,
                    self.grid_width(),
                    self.grid_height(),
                ) by {
                    assert(all_in_bounds(
                        (old(self).fixed()[k])@,
                        old(self).grid_width(),
                        old(self).grid_height(),
                    ));
                }
                assert forall|k: int| 0 <= k < self.queued().len() implies fits_at_spawn(
                    (#[trigger] self.queued()[k])@,
                    self.spawn_dx(),
                    self.grid_width(),
                    self.grid_height(),
                ) by {
                    assert(fits_at_spawn(
                        (old(self).queued()[k])@,
                        old(self).spawn_dx(),
                        old(self).grid_width(),
                        old(self).grid_height(),
                    ));
                }
            }
        }
    }

    /// The horizontal move. When the game is lost it does nothing.
    /// Otherwise the falling block moves one column left or right,
    /// unless the moved block would leave the grid or overlap a fixed
    /// block, in which case the move is silently rejected.
    pub fn shift(&mut self, direction: Direction)
        requires
            old(self).wf(),
        ensures
            final(self).wf(),
            old(self).lost() ==> *final(self) == *old(self),
            final(self).grid_width() == old(self).grid_width(),
            final(self).grid_height() == old(self).grid_height(),
            final(self).fixed() == old(self).fixed(),
            final(self).queued() == old(self).queued(),
            final(self).selector_state() == old(self).selector_state(),
            final(self).lost() == old(self).lost(),
            !old(self).lost() ==> {
                &&& final(self).curr().kind() == old(self).curr().kind()
                &&& final(self).curr()@ == attempt_move(
                    old(self).fixed_rows(),
                    old(self).grid_width(),
                    old(self).grid_height(),
                    old(self).curr()@,
                    shifted(old(self).curr()@, dir_dx(direction), 0),
                )
            },
    {
        if self.lost {
            return ;
        }
        let dx: i32 = match direction {
            Direction::Left => -1,
            Direction::Right => 1,
        };
        proof {
            assert forall|i: int| 0 <= i < self.curr()@.len() implies (i32::MIN
                <= (#[trigger] self.curr()@[i]).0 + dx <= i32::MAX && i32::MIN
                <= self.curr()@[i].1 + 0 <= i32::MAX) by {
                assert(pos_in_bounds(self.curr()@[i], self.grid_width(), self.grid_height()));
            }
        }
        let moved = self.curr_block.translated(dx, 0);
        if !self.is_out_of_bounds(&moved) && !self.is_colliding(&moved) {
            self.curr_block = moved;
        }
        proof {
            lemma_same_terrain_wf(*old(self), *self);
        }
    }

    /// The rotation attempt. When the game is lost it does nothing.
    /// Otherwise the falling block is rotated a quarter turn about its
    /// first cell, unless the rotated block would leave the grid or
    /// overlap a fixed block, in which case it is silently rejected.
    pub fn rotate(&mut self)
        requires
            old(self).wf(),
        ensures
            final(self).wf(),
            old(self).lost() ==> *final(self) == *old(self),
            final(self).grid_width() == old(self).grid_width(),
            final(self).grid_height() == old(self).grid_height(),
            final(self).fixed() == old(self).fixed(),
            final(self).queued() == old(self).queued(),
            final(self).selector_state() == old(self).selector_state(),
            final(self).lost() == old(self).lost(),
            !old(self).lost() ==> {
                &&& final(self).curr().kind() == old(self).curr().kind()
                &&& final(self).curr()@ == attempt_move(
                    old(self).fixed_rows(),
                    old(self).grid_width(),
                    old(self).grid_height(),
                    old(self).curr()@,
                    spec_rotated(old(self).curr()@),
                )
            },
    {
        if self.lost {
            return ;
        }
        proof {
            assert forall|i: int| 0 <= i < self.curr()@.len() implies (i32::MIN
                <= self.curr()@[0].0 + self.curr()@[0].1 - (#[trigger] self.curr()@[i]).1
                <= i32::MAX && i32::MIN <= self.curr()@[0].1 + self.curr()@[i].0
                - self.curr()@[0].0 <= i32::MAX) by {
                assert(pos_in_bounds(self.curr()@[i], self.grid_width(), self.grid_height()));
                assert(pos_in_bounds(self.curr()@[0], self.grid_width(), self.grid_height()));
            }
        }
        let rotated = self.curr_block.rotated();
        if !self.is_out_of_bounds(&rotated) && !self.is_colliding(&rotated) {
            self.curr_block = rotated;
        }
        proof {
            lemma_same_terrain_wf(*old(self), *self);
        }
    }

    /// True iff the game has reached its terminal, lost state.
    pub fn is_lost(&self) -> (r: bool)
        ensures
            r == self.lost(),
    {
        self.lost
    }

    /// The grid width.
    pub fn width(&self) -> (r: i32)
        ensures
            r as int == self.grid_width(),
    {
        self.width
    }

    /// The grid height.
    pub fn height(&self) -> (r: i32)
        ensures
            r as int == self.grid_height(),
    {
        self.height
    }

    /// The falling block.
    pub fn current_block(&self) -> (r: &Block)
        ensures
            *r == self.curr(),
    {
        &self.curr_block
    }

    /// The fixed blocks, in insertion order.
    pub fn fixed_blocks(&self) -> (r: &Vec<Block>)
        ensures
            r@ == self.fixed(),
    {
        &self.fixed
    }

    /// True iff some cell of `block` lies outside the grid.
    pub fn is_out_of_bounds(&self, block: &Block) -> (r: bool)
        ensures
            r == !all_in_bounds(block@, self.grid_width(), self.grid_height()),
    {
        let ps = block.positions();
        let mut i: usize = 0;
        while i < ps.len()
            invariant
                i <= ps.len(),
                ps@ == block@,
                forall|j: int|
                    0 <= j < i ==> pos_in_bounds(
                        #[trigger] block@[j],
                        self.grid_width(),
                        self.grid_height(),
                    ),
            decreases ps.len() - i,
        {
            let p = ps[i];
            if p.0 < 0 || p.0 >= self.width || p.1 < 0 || p.1 >= self.height {
                proof {
                    assert(!pos_in_bounds(block@[i as int], self.grid_width(), self.grid_height()));
                }
                return true;
            }
            i = i + 1;
        }
        false
    }

    /// True iff `block` shares a cell with some fixed block. The
    /// falling block is never checked against itself.
    pub fn is_colliding(&self, block: &Block) -> (r: bool)
        ensures
            r == rows_collide(self.fixed_rows(), block@),
    {
        let mut k: usize = 0;
        while k < self.fixed.len()
            invariant
                k <= self.fixed.len(),
                forall|j: int| 0 <= j < k ==> !seq_intersects(#[trigger] self.fixed_rows()[j], block@),
            decreases self.fixed.len() - k,
        {
            if self.fixed[k].collides_with(block) {
                proof {
                    let wk = k as int;
                    assert(0 <= wk < self.fixed_rows().len() && seq_intersects(
                        self.fixed_rows()[wk],
                        block@,
                    ));
                }
                return true;
            }
            k = k + 1;
        }
        false
    }

    /// True iff some fixed block holds the cell `(x, y)`.
    fn occupied_cell(&self, x: i32, y: i32) -> (r: bool)
        ensures
            r == self.occupied_at(x as int, y as int),
    {
        let mut k: usize = 0;
        while k < self.fixed.len()
            invariant
                k <= self.fixed.len(),
                forall|j: int|
                    0 <= j < k ==> !seq_has_at(#[trigger] self.fixed_rows()[j], x as int, y as int),
            decreases self.fixed.len() - k,
        {
            if self.fixed[k].has_position(Pos(x, y)) {
                proof {
                    let wk = k as int;
                    assert(0 <= wk < self.fixed_rows().len() && seq_has_at(
                        self.fixed_rows()[wk],
                        x as int,
                        y as int,
                    ));
                }
                return true;
            }
            k = k + 1;
        }
        false
    }

    /// True iff every column of row `y` is covered by some fixed block,
    /// that is, iff the full grid width of distinct x-values appears
    /// among the fixed cells of row `y` (see [`crate::laws`]).
    pub fn is_line_full(&self, y: i32) -> (r: bool)
        ensures
            r == self.line_full(y as int),
    {
        let mut x: i32 = 0;
        while x < self.width
            invariant
                0 <= x,
                forall|x2: int| 0 <= x2 < x ==> self.occupied_at(x2, y as int),
            decreases self.width - x,
        {
            if !self.occupied_cell(x, y) {
                return false;
            }
            x = x + 1;
        }
        proof {
            assert forall|x2: int| 0 <= x2 < self.grid_width() implies rows_occupied_at(
                self.fixed_rows(),
                x2,
                y as int,
            ) by {
                assert(self.occupied_at(x2, y as int));
            }
        }
        true
    }

    /// The tag of the block covering `pos`: the falling block's if it
    /// covers `pos`, else the first fixed block's (in insertion order)
    /// covering `pos`, else nothing.
    pub fn get(&self, pos: Pos) -> (r: Option<&'static str>)
        ensures
            seq_has_at(self.curr()@, pos.0 as int, pos.1 as int) ==> (r matches Some(s) && s@
                == kind_label(self.curr().kind())),
            !seq_has_at(self.curr()@, pos.0 as int, pos.1 as int) && self.occupied_at(
                pos.0 as int,
                pos.1 as int,
            ) ==> (exists|k: int|
                {
                    &&& 0 <= k < self.fixed().len()
                    &&& seq_has_at((#[trigger] self.fixed()[k])@, pos.0 as int, pos.1 as int)
                    &&& forall|j: int|
                        0 <= j < k ==> !seq_has_at(
                            (#[trigger] self.fixed()[j])@,
                            pos.0 as int,
                            pos.1 as int,
                        )
                    &&& r matches Some(s) && s@ == kind_label(self.fixed()[k].kind())
                }),
            !seq_has_at(self.curr()@, pos.0 as int, pos.1 as int) && !self.occupied_at(
                pos.0 as int,
                pos.1 as int,
            ) ==> r is None,
    {
        if self.curr_block.has_position(pos) {
            return Some(self.curr_block.typ());
        }
        let mut k: usize = 0;
        while k < self.fixed.len()
            invariant
                k <= self.fixed.len(),
                !seq_has_at(self.curr()@, pos.0 as int, pos.1 as int),
                forall|j: int|
                    0 <= j < k ==> !seq_has_at(
                        (#[trigger] self.fixed()[j])@,
                        pos.0 as int,
                        pos.1 as int,
                    ),
            decreases self.fixed.len() - k,
        {
            if self.fixed[k].has_position(pos) {
                proof {
                    let wk = k as int;
                    assert(self.fixed_rows()[wk] == self.fixed()[wk]@);
                    assert(self.occupied_at(pos.0 as int, pos.1 as int));
                }
                return Some(self.fixed[k].typ());
            }
            k = k + 1;
        }
        proof {
            assert forall|k2: int| 0 <= k2 < self.fixed_rows().len() implies !seq_has_at(
                #[trigger] self.fixed_rows()[k2],
                pos.0 as int,
                pos.1 as int,
            ) by {
                assert(self.fixed_rows()[k2] == self.fixed()[k2]@);
            }
        }
        None
    }

    /// Every grid position, row-major: y from top to bottom, x from
    /// left to right within each row; the cell at index `i` is
    /// `(i % width, i / width)`.
    pub fn iter_positions(&self) -> (r: Vec<Pos>)
        requires
            self.wf(),
            self.grid_width() * self.grid_height() <= usize::MAX as int,
        ensures
            r@.len() == self.grid_width() * self.grid_height(),
            forall|i: int|
                0 <= i < r@.len() ==> #[trigger] r@[i] == Pos(
                    (i % self.grid_width()) as i32,
                    (i / self.grid_width()) as i32,
                ),
    {
        let ghost w = self.grid_width();
        let ghost h = self.grid_height();
        let mut out: Vec<Pos> = Vec::new();
        let mut y: i32 = 0;
        while y < self.height
            invariant
                0 <= y <= self.height,
                w == self.grid_width(),
                h == self.grid_height(),
                1 <= w,
                1 <= h,
                out@.len() == y * w,
                forall|i: int|
                    0 <= i < out@.len() ==> #[trigger] out@[i] == Pos(
                        (i % w) as i32,
                        (i / w) as i32,
                    ),
            decreases self.height - y,
        {
            let mut x: i32 = 0;
            proof {
                assert((y + 1) * w == y * w + w) by (nonlinear_arith);
            }
            while x < self.width
                invariant
                    0 <= x <= self.width,
                    0 <= y < self.height,
                    w == self.grid_width(),
                    h == self.grid_height(),
                    1 <= w,
                    1 <= h,
                    y * w >= 0,
                    (y + 1) * w == y * w + w,
                    out@.len() == y * w + x,
                    forall|i: int|
                        0 <= i < out@.len() ==> #[trigger] out@[i] == Pos(
                            (i % w) as i32,
                            (i / w) as i32,
                        ),
                decreases self.width - x,
            {
                proof {
                    vstd::arithmetic::div_mod::lemma_fundamental_div_mod_converse(
                        y * w + x,
                        w,
                        y as int,
                        x as int,
                    );
                }
                out.push(Pos(x, y));
                x = x + 1;
            }
            y = y + 1;
        }
        proof {
            assert(out@.len() == h * w);
            assert(h * w == w * h) by (nonlinear_arith);
        }
        out
    }
}

} // verus!
