//! The memory of the machine: a row of cells, unbounded to the right, and a
//! cursor that marks one of them.

use vstd::prelude::*;

verus! {

/// The tape as a mathematical object: a cell value for every index, and the
/// index under the cursor.  Nothing in it tells how much memory is allocated.
#[verifier::ext_equal]
pub struct TapeView {
    pub pos: nat,
    pub cells: Map<nat, i32>,
}

/// A cell value plus one, wrapping from the largest `i32` to the smallest.
pub open spec fn wrap_inc(v: i32) -> i32 {
    if v == i32::MAX {
        i32::MIN
    } else {
        (v + 1) as i32
    }
}

/// A cell value minus one, wrapping from the smallest `i32` to the largest.
pub open spec fn wrap_dec(v: i32) -> i32 {
    if v == i32::MIN {
        i32::MAX
    } else {
        (v - 1) as i32
    }
}

impl TapeView {
    /// The tape every run starts from: all cells zero, cursor on cell 0.
    pub open spec fn blank() -> TapeView {
        TapeView { pos: 0, cells: Map::total(|i: nat| 0i32) }
    }

    /// The value under the cursor.
    pub open spec fn read(self) -> i32 {
        self.cells[self.pos]
    }

    /// The tape with `v` under the cursor and every other cell as before.
    pub open spec fn write(self, v: i32) -> TapeView {
        TapeView { pos: self.pos, cells: self.cells.insert(self.pos, v) }
    }

    pub open spec fn inc(self) -> TapeView {
        self.write(wrap_inc(self.read()))
    }

    pub open spec fn dec(self) -> TapeView {
        self.write(wrap_dec(self.read()))
    }

    /// The cursor one cell to the left.  Meaningful only where `pos > 0`.
    pub open spec fn left(self) -> TapeView {
        TapeView { pos: (self.pos - 1) as nat, cells: self.cells }
    }

    /// The cursor one cell to the right; no cell changes.
    pub open spec fn right(self) -> TapeView {
        TapeView { pos: self.pos + 1, cells: self.cells }
    }

    /// Whether this machine can still address the storage that a move to the
    /// right may ask for, which is twice the new cursor index.
    pub open spec fn can_advance(self) -> bool {
        2 * (self.pos + 1) <= usize::MAX
    }
}

/// Growth cannot be seen: a blank tape reads zero everywhere, a move changes
/// no cell, and a write changes only the cell under the cursor.  So a cell
/// reads zero until it is written, however far to the right it lies.
pub proof fn lemma_cells_keep_their_values(t: TapeView, v: i32, i: nat)
    ensures
        TapeView::blank().cells[i] == 0,
        t.right().cells[i] == t.cells[i],
        t.left().cells[i] == t.cells[i],
        i != t.pos ==> t.write(v).cells[i] == t.cells[i],
        i != t.pos ==> t.inc().cells[i] == t.cells[i] && t.dec().cells[i] == t.cells[i],
        t.write(v).read() == v,
{
}

/// Cells stored so far, and the cursor.  Cells past the end of `tape` have
/// never been visited and count as zero.
pub struct Tape {
    pos: usize,
    tape: Vec<i32>,
}

impl View for Tape {
    type V = TapeView;

    closed spec fn view(&self) -> TapeView {
        TapeView {
            pos: self.pos as nat,
            cells: Map::total(
                |i: nat|
                    if i < self.tape@.len() {
                        self.tape@[i as int]
                    } else {
                        0i32
                    },
            ),
        }
    }
}

impl Tape {
    #[verifier::type_invariant]
    spec fn cursor_in_bounds(self) -> bool {
        self.pos < self.tape@.len()
    }

    /// How many cells are stored.  The tape stands for infinitely many; the
    /// ones that are not stored hold zero.
    pub closed spec fn stored(&self) -> nat {
        self.tape@.len()
    }

    /// A tape with exactly one cell, holding 0, and the cursor on it.
    pub fn new() -> (t: Tape)
        ensures
            t@ == TapeView::blank(),
            t.stored() == 1,
    {
        let mut cells: Vec<i32> = Vec::new();
        cells.push(0);
        let t = Tape { pos: 0, tape: cells };
        assert(t@ =~= TapeView::blank());
        t
    }

    /// The index of the cell under the cursor.
    pub fn cursor(&self) -> (i: usize)
        ensures
            i == self@.pos,
    {
        self.pos
    }

    /// The number of stored cells.  The cell under the cursor is always one
    /// of them.
    pub fn len(&self) -> (n: usize)
        ensures
            n == self.stored(),
            self@.pos < n,
    {
        proof {
            use_type_invariant(self);
        }
        self.tape.len()
    }

    /// Whether [`Tape::next`] may be called.
    pub fn can_advance(&self) -> (b: bool)
        ensures
            b == self@.can_advance(),
    {
        self.pos < usize::MAX / 2
    }

    /// The value under the cursor.
    pub fn get(&self) -> (v: i32)
        ensures
            v == self@.read(),
    {
        proof {
            use_type_invariant(self);
        }
        self.tape[self.pos]
    }

    /// Subtracts one from the cell under the cursor, wrapping around.
    pub fn dec(&mut self)
        ensures
            final(self)@ == old(self)@.dec(),
            final(self).stored() == old(self).stored(),
    {
        proof {
            use_type_invariant(&*self);
        }
        let v = self.tape[self.pos].wrapping_sub(1);
        self.tape[self.pos] = v;
        assert(self@ =~= old(self)@.dec());
    }

    /// Adds one to the cell under the cursor, wrapping around.
    pub fn inc(&mut self)
        ensures
            final(self)@ == old(self)@.inc(),
            final(self).stored() == old(self).stored(),
    {
        proof {
            use_type_invariant(&*self);
        }
        let v = self.tape[self.pos].wrapping_add(1);
        self.tape[self.pos] = v;
        assert(self@ =~= old(self)@.inc());
    }

    /// Moves the cursor one cell to the left.  There is no cell left of
    /// cell 0: callers test [`Tape::cursor`] first.
    pub fn prev(&mut self)
        requires
            old(self)@.pos > 0,
        ensures
            final(self)@ == old(self)@.left(),
            final(self).stored() == old(self).stored(),
    {
        proof {
            use_type_invariant(&*self);
        }
        self.pos = self.pos - 1;
        assert(self@ =~= old(self)@.left());
    }

    /// Moves the cursor one cell to the right.  When the cursor leaves the
    /// stored cells, storage grows to twice the new cursor index and the new
    /// cells hold zero, so no cell of the tape changes its value.  Storage
    /// never shrinks.
    pub fn next(&mut self)
        requires
            old(self)@.can_advance(),
        ensures
            final(self)@ == old(self)@.right(),
            final(self)@.cells == old(self)@.cells,
            final(self).stored() == if old(self)@.pos + 1 >= old(self).stored() {
                2 * (old(self)@.pos + 1)
            } else {
                old(self).stored()
            },
    {
        proof {
            use_type_invariant(&*self);
        }
        let target: usize = self.pos + 1;
        if target >= self.tape.len() {
            // Grow a copy and put it in place whole: the cursor then names a
            // stored cell at every moment, also between two statements.
            let mut grown = self.tape.clone();
            grown.resize(target * 2, 0);
            self.tape = grown;
        }
        self.pos = target;
        assert(self@ =~= old(self)@.right());
    }
}

impl Default for Tape {
    fn default() -> (t: Tape)
        ensures
            t@ == TapeView::blank(),
            t.stored() == 1,
    {
        Tape::new()
    }
}

} // verus!
