//! Shapes: a grid position, the shape kinds, and the `Block` type with
//! its pure geometric transformations.

use vstd::prelude::*;

verus! {

/// A grid coordinate: `x` grows rightward, `y` grows downward.
#[derive(Clone, Copy, PartialEq, Eq, Structural, Debug, Hash)]
pub struct Pos(pub i32, pub i32);

/// The fixed enumeration of shape kinds.
#[derive(Clone, Copy, PartialEq, Eq, Structural, Debug, Hash)]
pub enum Kind {
    I,
    O,
    T,
    S,
    Z,
    J,
    L,
}

/// True iff the sequence holds a position with coordinates `(x, y)`.
pub open spec fn seq_has_at(s: Seq<Pos>, x: int, y: int) -> bool {
    exists|i: int| 0 <= i < s.len() && s[i].0 == x && s[i].1 == y
}

/// Every position of `s`, shifted by `(dx, dy)`.
pub open spec fn shifted(s: Seq<Pos>, dx: int, dy: int) -> Seq<Pos> {
    s.map_values(|p: Pos| Pos((p.0 + dx) as i32, (p.1 + dy) as i32))
}

/// A shape instance: a kind tag plus the grid cells it occupies, in
/// absolute coordinates. Transformations return a new `Block`; the one
/// in-place mutation is [`Block::remove_line`], confined to the fixed
/// blocks' collapse after a cleared row.
pub struct Block {
    kind: Kind,
    positions: Vec<Pos>,
}

impl View for Block {
    type V = Seq<Pos>;

    closed spec fn view(&self) -> Seq<Pos> {
        self.positions@
    }
}

impl Block {
    /// The shape kind tag of this block.
    pub closed spec fn kind(self) -> Kind {
        self.kind
    }

    /// A block with the given tag occupying exactly the given cells.
    pub fn new(kind: Kind, positions: Vec<Pos>) -> (b: Block)
        ensures
            b.kind() == kind,
            b@ == positions@,
    {
        Block { kind, positions }
    }

    /// The occupied cells, in the block's stable internal order.
    pub fn positions(&self) -> (r: &Vec<Pos>)
        ensures
            r@ == self@,
    {
        &self.positions
    }

    /// The shape kind tag of this block.
    pub fn shape(&self) -> (k: Kind)
        ensures
            k == self.kind(),
    {
        self.kind
    }

    /// True iff this block occupies the cell `pos`.
    pub fn has_position(&self, pos: Pos) -> (r: bool)
        ensures
            r == seq_has_at(self@, pos.0 as int, pos.1 as int),
    {
        let mut i: usize = 0;
        while i < self.positions.len()
            invariant
                i <= self.positions.len(),
                forall|j: int|
                    0 <= j < i ==> !(self.positions@[j].0 == pos.0 && self.positions@[j].1
                        == pos.1),
            decreases self.positions.len() - i,
        {
            let p = self.positions[i];
            if p.0 == pos.0 && p.1 == pos.1 {
                return true;
            }
            i = i + 1;
        }
        false
    }

    /// True iff this block and `other` occupy a common cell.
    pub fn collides_with(&self, other: &Block) -> (r: bool)
        ensures
            r == (exists|i: int|
                0 <= i < other@.len() && seq_has_at(self@, other@[i].0 as int, other@[i].1 as int)),
    {
        let mut i: usize = 0;
        while i < other.positions.len()
            invariant
                i <= other.positions.len(),
                forall|j: int|
                    0 <= j < i ==> !seq_has_at(self@, other@[j].0 as int, other@[j].1 as int),
            decreases other.positions.len() - i,
        {
            if self.has_position(other.positions[i]) {
                proof {
                    let wi = i as int;
                    assert(0 <= wi < other@.len() && seq_has_at(
                        self@,
                        other@[wi].0 as int,
                        other@[wi].1 as int,
                    ));
                }
                return true;
            }
            i = i + 1;
        }
        false
    }

    /// A new block, every cell shifted by `(dx, dy)`; the tag is kept.
    pub fn translated(&self, dx: i32, dy: i32) -> (b: Block)
        requires
            forall|i: int|
                0 <= i < self@.len() ==> i32::MIN <= #[trigger] self@[i].0 + dx <= i32::MAX
                    && i32::MIN <= self@[i].1 + dy <= i32::MAX,
        ensures
            b.kind() == self.kind(),
            b@ == shifted(self@, dx as int, dy as int),
    {
        let mut out: Vec<Pos> = Vec::new();
        let mut i: usize = 0;
        while i < self.positions.len()
            invariant
                i <= self.positions.len(),
                out@.len() == i,
                forall|i2: int|
                    0 <= i2 < self@.len() ==> i32::MIN <= #[trigger] self@[i2].0 + dx <= i32::MAX
                        && i32::MIN <= self@[i2].1 + dy <= i32::MAX,
                forall|j: int|
                    0 <= j < i ==> #[trigger] out@[j] == Pos(
                        (self.positions@[j].0 + dx) as i32,
                        (self.positions@[j].1 + dy) as i32,
                    ),
            decreases self.positions.len() - i,
        {
            let p = self.positions[i];
            proof {
                assert(i32::MIN <= self@[i as int].0 + dx <= i32::MAX && i32::MIN <= self@[i as int].1
                    + dy <= i32::MAX);
            }
            out.push(Pos(p.0 + dx, p.1 + dy));
            i = i + 1;
        }
        proof {
            assert(out@ =~= shifted(self@, dx as int, dy as int));
        }
        Block { kind: self.kind, positions: out }
    }

    /// A new block, every cell rotated a quarter turn clockwise about
    /// the block's first cell; the tag is kept. An empty block is
    /// returned unchanged. The pivot convention makes four rotations
    /// the identity for every shape (see [`crate::laws`]).
    pub fn rotated(&self) -> (b: Block)
        requires
            forall|i: int|
                0 <= i < self@.len() ==> (i32::MIN <= self@[0].0 + self@[0].1 - (#[trigger] self@[i]).1
                    <= i32::MAX && i32::MIN <= self@[0].1 + self@[i].0 - self@[0].0 <= i32::MAX),
        ensures
            b.kind() == self.kind(),
            b@ == spec_rotated(self@),
    {
        let mut out: Vec<Pos> = Vec::new();
        if self.positions.len() == 0 {
            proof {
                assert(out@ =~= spec_rotated(self@));
            }
            return Block { kind: self.kind, positions: out };
        }
        let pivot = self.positions[0];
        let mut i: usize = 0;
        while i < self.positions.len()
            invariant
                i <= self.positions.len(),
                self@.len() > 0,
                pivot == self@[0],
                out@.len() == i,
                forall|i2: int|
                    0 <= i2 < self@.len() ==> (i32::MIN <= self@[0].0 + self@[0].1 - (#[trigger] self@[i2]).1
                        <= i32::MAX && i32::MIN <= self@[0].1 + self@[i2].0 - self@[0].0 <= i32::MAX),
                forall|j: int| 0 <= j < i ==> #[trigger] out@[j] == rotate_about(self@[0], self@[j]),
            decreases self.positions.len() - i,
        {
            let p = self.positions[i];
            proof {
                assert(i32::MIN <= self@[0].0 + self@[0].1 - self@[i as int].1 <= i32::MAX
                    && i32::MIN <= self@[0].1 + self@[i as int].0 - self@[0].0 <= i32::MAX);
            }
            let nx: i64 = pivot.0 as i64 + pivot.1 as i64 - p.1 as i64;
            let ny: i64 = pivot.1 as i64 + p.0 as i64 - pivot.0 as i64;
            out.push(Pos(nx as i32, ny as i32));
            i = i + 1;
        }
        proof {
            assert(out@ =~= spec_rotated(self@));
        }
        Block { kind: self.kind, positions: out }
    }

    /// Deletes every cell at row `y`, then shifts every cell at a row
    /// above (`< y`) down by one row. This is the one in-place mutation
    /// of a block, used when a full row of the fixed terrain collapses.
    pub fn remove_line(&mut self, y: i32)
        ensures
            final(self).kind() == old(self).kind(),
            final(self)@ == cleared(old(self)@, y),
    {
        let mut out: Vec<Pos> = Vec::new();
        let mut i: usize = 0;
        while i < self.positions.len()
            invariant
                i <= self.positions.len(),
                *self == *old(self),
                out@ == cleared(self@.take(i as int), y),
            decreases self.positions.len() - i,
        {
            let p = self.positions[i];
            proof {
                assert(self@.take(i + 1).drop_last() =~= self@.take(i as int));
                assert(self@.take(i + 1).last() == self@[i as int]);
            }
            if p.1 < y {
                out.push(Pos(p.0, p.1 + 1));
            } else if p.1 > y {
                out.push(p);
            }
            i = i + 1;
        }
        proof {
            assert(self@.take(self@.len() as int) =~= self@);
        }
        self.positions = out;
    }

    /// A clone of this block: same tag, same cells.
    pub fn duplicate(&self) -> (b: Block)
        ensures
            b.kind() == self.kind(),
            b@ == self@,
    {
        let mut out: Vec<Pos> = Vec::new();
        let mut i: usize = 0;
        while i < self.positions.len()
            invariant
                i <= self.positions.len(),
                out@ =~= self@.take(i as int),
            decreases self.positions.len() - i,
        {
            out.push(self.positions[i]);
            proof {
                assert(out@ =~= self@.take(i + 1));
            }
            i = i + 1;
        }
        proof {
            assert(out@ =~= self@);
        }
        Block { kind: self.kind, positions: out }
    }

    /// The display / identity tag of the block's shape kind.
    pub fn typ(&self) -> (r: &'static str)
        ensures
            r@ == kind_label(self.kind()),
    {
        match self.kind {
            Kind::I => {
                proof {
                    reveal_strlit("I");
                    assert("I"@ =~= kind_label(Kind::I));
                }
                "I"
            },
            Kind::O => {
                proof {
                    reveal_strlit("O");
                    assert("O"@ =~= kind_label(Kind::O));
                }
                "O"
            },
            Kind::T => {
                proof {
                    reveal_strlit("T");
                    assert("T"@ =~= kind_label(Kind::T));
                }
                "T"
            },
            Kind::S => {
                proof {
                    reveal_strlit("S");
                    assert("S"@ =~= kind_label(Kind::S));
                }
                "S"
            },
            Kind::Z => {
                proof {
                    reveal_strlit("Z");
                    assert("Z"@ =~= kind_label(Kind::Z));
                }
                "Z"
            },
            Kind::J => {
                proof {
                    reveal_strlit("J");
                    assert("J"@ =~= kind_label(Kind::J));
                }
                "J"
            },
            Kind::L => {
                proof {
                    reveal_strlit("L");
                    assert("L"@ =~= kind_label(Kind::L));
                }
                "L"
            },
        }
    }

    /// The canonical layout of a shape kind, at the grid origin.
    pub fn canonical(kind: Kind) -> (b: Block)
        ensures
            b.kind() == kind,
            b@ == canonical_cells(kind),
    {
        let positions: Vec<Pos> = match kind {
            Kind::I => vec![Pos(0, 0), Pos(1, 0), Pos(2, 0), Pos(3, 0)],
            Kind::O => vec![Pos(0, 0), Pos(1, 0), Pos(0, 1), Pos(1, 1)],
            Kind::T => vec![Pos(0, 0), Pos(1, 0), Pos(2, 0), Pos(1, 1)],
            Kind::S => vec![Pos(1, 0), Pos(2, 0), Pos(0, 1), Pos(1, 1)],
            Kind::Z => vec![Pos(0, 0), Pos(1, 0), Pos(1, 1), Pos(2, 1)],
            Kind::J => vec![Pos(0, 0), Pos(0, 1), Pos(1, 1), Pos(2, 1)],
            Kind::L => vec![Pos(2, 0), Pos(0, 1), Pos(1, 1), Pos(2, 1)],
        };
        proof {
            assert(positions@ =~= canonical_cells(kind));
        }
        Block { kind, positions }
    }

    /// A block of a kind chosen uniformly by the xorshift selector,
    /// in its canonical layout; advances the selector state.
    pub fn new_random(state: &mut u64) -> (b: Block)
        ensures
            *final(state) == next_state(*old(state)),
            b.kind() == kind_of_index((next_state(*old(state)) % 7) as int),
            b@ == canonical_cells(b.kind()),
    {
        let mut s: u64 = *state;
        s = s ^ (s << 13);
        s = s ^ (s >> 7);
        s = s ^ (s << 17);
        *state = s;
        let idx = s % 7;
        let kind = if idx == 0 {
            Kind::I
        } else if idx == 1 {
            Kind::O
        } else if idx == 2 {
            Kind::T
        } else if idx == 3 {
            Kind::S
        } else if idx == 4 {
            Kind::Z
        } else if idx == 5 {
            Kind::J
        } else {
            Kind::L
        };
        Self::canonical(kind)
    }
}

/// A quarter turn clockwise of `p` about `pivot`.
pub open spec fn rotate_about(pivot: Pos, p: Pos) -> Pos {
    Pos((pivot.0 + pivot.1 - p.1) as i32, (pivot.1 + p.0 - pivot.0) as i32)
}

/// Every cell of `s` rotated a quarter turn about the first cell of `s`.
pub open spec fn spec_rotated(s: Seq<Pos>) -> Seq<Pos> {
    if s.len() == 0 {
        s
    } else {
        s.map_values(|p: Pos| rotate_about(s[0], p))
    }
}

/// The cells of `s` after row `y` collapses: cells at row `y` are
/// dropped, cells at rows `< y` move down one row, the rest stay.
pub open spec fn cleared(s: Seq<Pos>, y: i32) -> Seq<Pos>
    decreases s.len(),
{
    if s.len() == 0 {
        Seq::empty()
    } else {
        let init = cleared(s.drop_last(), y);
        let p = s.last();
        if p.1 == y {
            init
        } else if p.1 < y {
            init.push(Pos(p.0, (p.1 + 1) as i32))
        } else {
            init.push(p)
        }
    }
}

/// The display / identity tag of each shape kind.
pub open spec fn kind_label(k: Kind) -> Seq<char> {
    match k {
        Kind::I => seq!['I'],
        Kind::O => seq!['O'],
        Kind::T => seq!['T'],
        Kind::S => seq!['S'],
        Kind::Z => seq!['Z'],
        Kind::J => seq!['J'],
        Kind::L => seq!['L'],
    }
}

/// The canonical layout of each shape kind: four cells inside the
/// box [0, 3] x [0, 1], at the grid origin.
pub open spec fn canonical_cells(k: Kind) -> Seq<Pos> {
    match k {
        Kind::I => seq![Pos(0, 0), Pos(1, 0), Pos(2, 0), Pos(3, 0)],
        Kind::O => seq![Pos(0, 0), Pos(1, 0), Pos(0, 1), Pos(1, 1)],
        Kind::T => seq![Pos(0, 0), Pos(1, 0), Pos(2, 0), Pos(1, 1)],
        Kind::S => seq![Pos(1, 0), Pos(2, 0), Pos(0, 1), Pos(1, 1)],
        Kind::Z => seq![Pos(0, 0), Pos(1, 0), Pos(1, 1), Pos(2, 1)],
        Kind::J => seq![Pos(0, 0), Pos(0, 1), Pos(1, 1), Pos(2, 1)],
        Kind::L => seq![Pos(2, 0), Pos(0, 1), Pos(1, 1), Pos(2, 1)],
    }
}

/// Every canonical layout has four cells inside the box [0, 3] x [0, 1].
pub proof fn lemma_canonical_bounds(k: Kind)
    ensures
        canonical_cells(k).len() == 4,
        forall|i: int|
            0 <= i < canonical_cells(k).len() ==> (0 <= (#[trigger] canonical_cells(k)[i]).0 <= 3
                && 0 <= canonical_cells(k)[i].1 <= 1),
{
    let s = canonical_cells(k);
    assert forall|i: int| 0 <= i < s.len() implies (0 <= (#[trigger] s[i]).0 <= 3 && 0 <= s[i].1
        <= 1) by {
        match k {
            Kind::I => {
                assert(s[0] == Pos(0, 0) && s[1] == Pos(1, 0) && s[2] == Pos(2, 0) && s[3] == Pos(
                    3,
                    0,
                ));
            },
            Kind::O => {
                assert(s[0] == Pos(0, 0) && s[1] == Pos(1, 0) && s[2] == Pos(0, 1) && s[3] == Pos(
                    1,
                    1,
                ));
            },
            Kind::T => {
                assert(s[0] == Pos(0, 0) && s[1] == Pos(1, 0) && s[2] == Pos(2, 0) && s[3] == Pos(
                    1,
                    1,
                ));
            },
            Kind::S => {
                assert(s[0] == Pos(1, 0) && s[1] == Pos(2, 0) && s[2] == Pos(0, 1) && s[3] == Pos(
                    1,
                    1,
                ));
            },
            Kind::Z => {
                assert(s[0] == Pos(0, 0) && s[1] == Pos(1, 0) && s[2] == Pos(1, 1) && s[3] == Pos(
                    2,
                    1,
                ));
            },
            Kind::J => {
                assert(s[0] == Pos(0, 0) && s[1] == Pos(0, 1) && s[2] == Pos(1, 1) && s[3] == Pos(
                    2,
                    1,
                ));
            },
            Kind::L => {
                assert(s[0] == Pos(2, 0) && s[1] == Pos(0, 1) && s[2] == Pos(1, 1) && s[3] == Pos(
                    2,
                    1,
                ));
            },
        }
    }
}

/// One step of the xorshift selector that picks spawned shape kinds.
pub open spec fn next_state(s: u64) -> u64 {
    let a = s ^ (s << 13);
    let b = a ^ (a >> 7);
    b ^ (b << 17)
}

/// The shape kind drawn for a selector value, uniform over the kinds.
pub open spec fn kind_of_index(i: int) -> Kind {
    if i == 0 {
        Kind::I
    } else if i == 1 {
        Kind::O
    } else if i == 2 {
        Kind::T
    } else if i == 3 {
        Kind::S
    } else if i == 4 {
        Kind::Z
    } else if i == 5 {
        Kind::J
    } else {
        Kind::L
    }
}

} // verus!
