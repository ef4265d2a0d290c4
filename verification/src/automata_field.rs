//! The double-buffered grid: bounded lookups, the synchronous whole-field
//! tick, seeding, and the row-by-row observation of the settled buffer.

use vstd::prelude::*;

verus! {

use crate::automata::{Automata, Surroundings, next_middle};
use crate::automata::{spec_next_middle, cell_bounded, lemma_next_middle_bounded};
use crate::automata::Automata::{Redstone, Water, RedstoneBlock, GameOfLife, Air, Slug};
use crate::automata::Direction::Right;
use vstd::arithmetic::div_mod::{lemma_fundamental_div_mod, lemma_mod_division_less_than_divisor};
use vstd::arithmetic::div_mod::lemma_div_pos_is_pos;

/// Relies on rand::random: a pseudo-random value drawn from the thread-local
/// generator. Nothing can be promised of the result, so nothing is.
pub assume_specification<T>[ rand::random::<T> ]() -> (r: T)
    where
        rand::distributions::Standard: rand::distributions::Distribution<T>,
;

/// A fixed-size field of cells with two equally sized buffers: `field` is
/// the settled generation that lookups and iteration observe, and
/// `field_alternate` is the scratch space the next generation is computed
/// into before the two swap roles. Cells are stored row-major.
pub struct AutomataField {
    pub width: usize,
    pub height: usize,
    pub field: Vec<Automata>,
    pub field_alternate: Vec<Automata>,
}

/// One synchronous generation: the dimensions are kept, every in-bounds
/// cell of the new settled buffer is the rule's next state for its
/// pre-tick surroundings, and the old settled buffer has become the
/// scratch buffer. The new settled buffer is a pure function of the old
/// one, which is what makes the update synchronous.
pub open spec fn tick_rel(pre: AutomataField, post: AutomataField) -> bool {
    &&& post.width == pre.width
    &&& post.height == pre.height
    &&& post.field@.len() == pre.width * pre.height
    &&& post.field_alternate@ == pre.field@
    &&& forall|x: int, y: int|
        0 <= x < pre.width && 0 <= y < pre.height ==> #[trigger] post.spec_at(x, y)
            == spec_next_middle(pre.spec_surroundings_for(x, y))
}

/// The deterministic placements of the seeding step over the pre-seeding
/// field, a later placement winning where coordinates coincide: a mover at
/// the left edge of the middle row, above a column of empty obstruction,
/// above a liquid source, above a row of constant power sources every
/// eighth column; every other cell keeps its prior value.
pub open spec fn spec_generated(pre: AutomataField, i: int, j: int) -> Automata {
    let w = pre.width as int;
    let h = pre.height as int;
    if i == 0 && j == h / 2 {
        Slug(Right)
    } else if i == (w / 64) * 17 && (h / 16) * 7 <= j < (h / 16) * 9 {
        Air()
    } else if i == w / 2 && j == (h / 16) * 7 {
        Water(15u8)
    } else if j == h / 2 && 0 <= i && i % 8 == 0 && i / 8 < w / 8 {
        RedstoneBlock()
    } else {
        pre.spec_at(i, j)
    }
}

/// Row-major index of an in-bounds coordinate pair.
pub open spec fn cell_index(width: int, x: int, y: int) -> int {
    y * width + x
}

/// An in-bounds coordinate pair's row-major index lies within the buffer.
proof fn lemma_cell_index_bound(width: int, height: int, x: int, y: int)
    requires
        0 <= x < width,
        0 <= y < height,
    ensures
        0 <= cell_index(width, x, y) < width * height,
{
    assert(y * width + x < width * height) by (nonlinear_arith)
        requires
            0 <= x < width,
            0 <= y < height,
    ;
}

/// Distinct in-bounds coordinate pairs have distinct row-major indices.
proof fn lemma_cell_index_injective(width: int, x1: int, y1: int, x2: int, y2: int)
    requires
        0 <= x1 < width,
        0 <= x2 < width,
        0 <= y1,
        0 <= y2,
        x1 != x2 || y1 != y2,
    ensures
        cell_index(width, x1, y1) != cell_index(width, x2, y2),
{
    assert(y1 * width + x1 != y2 * width + x2) by (nonlinear_arith)
        requires
            0 <= x1 < width,
            0 <= x2 < width,
            0 <= y1,
            0 <= y2,
            x1 != x2 || y1 != y2,
    ;
}

/// Every buffer position is the row-major index of exactly one in-bounds
/// coordinate pair, recovered by division and remainder.
proof fn lemma_cell_index_inverse(width: int, height: int, idx: int)
    requires
        1 <= width,
        0 <= idx < width * height,
    ensures
        0 <= idx % width < width,
        0 <= idx / width < height,
        cell_index(width, idx % width, idx / width) == idx,
{
    lemma_fundamental_div_mod(idx, width);
    lemma_mod_division_less_than_divisor(idx, width);
    lemma_div_pos_is_pos(idx, width);
    assert(idx / width < height) by (nonlinear_arith)
        requires
            1 <= width,
            0 <= idx < width * height,
            idx == width * (idx / width) + idx % width,
            0 <= idx % width < width,
            0 <= idx / width,
    ;
    assert((idx / width) * width + idx % width == idx) by (nonlinear_arith)
        requires
            idx == width * (idx / width) + idx % width,
    ;
}

impl AutomataField {
    /// Both buffers cover exactly `width * height` cells, and every
    /// coordinate fits the signed machine type that neighbor lookups use.
    pub open spec fn wf(self) -> bool {
        &&& self.field@.len() == self.width * self.height
        &&& self.field_alternate@.len() == self.width * self.height
        &&& self.width * self.height <= usize::MAX
        &&& self.width <= isize::MAX
        &&& self.height <= isize::MAX
    }

    /// The settled cell at `(x, y)`; every out-of-bounds coordinate reads
    /// as `Air`, as if the grid sat in infinite empty space.
    pub open spec fn spec_at(self, x: int, y: int) -> Automata {
        if 0 <= x < self.width && 0 <= y < self.height {
            self.field@[cell_index(self.width as int, x, y)]
        } else {
            Air()
        }
    }

    /// The pre-tick snapshot of the cell at `(x, y)` and its eight
    /// neighbors, out-of-bounds neighbors reading as `Air`.
    pub open spec fn spec_surroundings_for(self, x: int, y: int) -> Surroundings {
        Surroundings {
            topleft: self.spec_at(x - 1, y - 1),
            topmiddle: self.spec_at(x, y - 1),
            topright: self.spec_at(x + 1, y - 1),
            left: self.spec_at(x - 1, y),
            middle: self.spec_at(x, y),
            right: self.spec_at(x + 1, y),
            bottomleft: self.spec_at(x - 1, y + 1),
            bottommiddle: self.spec_at(x, y + 1),
            bottomright: self.spec_at(x + 1, y + 1),
        }
    }

    /// A field of `width * height` cells, all initialized to the default
    /// unpowered conductor, with an all-`Air` scratch buffer.
    pub fn new(width: usize, height: usize) -> (r: AutomataField)
        requires
            width * height <= usize::MAX,
            width <= isize::MAX,
            height <= isize::MAX,
        ensures
            r.wf(),
            r.width == width,
            r.height == height,
            forall|x: int, y: int|
                0 <= x < width && 0 <= y < height ==> r.spec_at(x, y) == Redstone(0u8),
    {
        let count = width * height;
        let mut field: Vec<Automata> = Vec::new();
        let mut i: usize = 0;
        while i < count
            invariant
                i <= count,
                field@.len() == i,
                forall|j: int| 0 <= j < i ==> field@[j] == Redstone(0u8),
            decreases count - i,
        {
            field.push(Redstone(0));
            i = i + 1;
        }
        let mut field_alternate: Vec<Automata> = Vec::new();
        let mut i: usize = 0;
        while i < count
            invariant
                i <= count,
                field_alternate@.len() == i,
            decreases count - i,
        {
            field_alternate.push(Air());
            i = i + 1;
        }
        let r = AutomataField { width, height, field, field_alternate };
        proof {
            assert forall|x: int, y: int|
                0 <= x < width && 0 <= y < height implies r.spec_at(x, y) == Redstone(0u8) by {
                lemma_cell_index_bound(width as int, height as int, x, y);
            }
        }
        r
    }

    /// Writes one cell of the settled buffer; the seed coordinates must lie
    /// inside the grid. Every other cell is left as it was.
    pub fn place(&mut self, automata: Automata, x: usize, y: usize)
        requires
            old(self).wf(),
            x < old(self).width,
            y < old(self).height,
        ensures
            final(self).wf(),
            final(self).width == old(self).width,
            final(self).height == old(self).height,
            final(self).field_alternate@ == old(self).field_alternate@,
            final(self).spec_at(x as int, y as int) == automata,
            forall|i: int, j: int|
                !(i == x && j == y) ==> final(self).spec_at(i, j) == old(self).spec_at(i, j),
    {
        proof {
            lemma_cell_index_bound(self.width as int, self.height as int, x as int, y as int);
        }
        let idx = y * self.width + x;
        self.field.set(idx, automata);
        proof {
            assert forall|i: int, j: int| !(i == x && j == y) implies self.spec_at(i, j)
                == old(self).spec_at(i, j) by {
                if 0 <= i < self.width && 0 <= j < self.height {
                    lemma_cell_index_bound(self.width as int, self.height as int, i, j);
                    lemma_cell_index_injective(self.width as int, i, j, x as int, y as int);
                }
            }
        }
    }

    /// The settled cell at `(x, y)`; any coordinate outside
    /// `[0, width) x [0, height)` reads as `Air` rather than failing.
    pub fn automata_at(&self, x: isize, y: isize) -> (r: Automata)
        requires
            self.wf(),
        ensures
            r == self.spec_at(x as int, y as int),
            !(0 <= x < self.width && 0 <= y < self.height) ==> r == Air(),
    {
        if 0 <= x && (x as usize) < self.width && 0 <= y && (y as usize) < self.height {
            proof {
                lemma_cell_index_bound(self.width as int, self.height as int, x as int, y as int);
            }
            self.field[y as usize * self.width + x as usize]
        } else {
            Air()
        }
    }

    /// The pre-tick snapshot of the cell at `(x, y)` and its eight
    /// neighbors, read with the bounded lookup.
    pub fn surroundings_for(&self, x: usize, y: usize) -> (r: Surroundings)
        requires
            self.wf(),
            x < self.width,
            y < self.height,
        ensures
            r == self.spec_surroundings_for(x as int, y as int),
    {
        let (x, y) = (x as isize, y as isize);
        Surroundings {
            topleft: self.automata_at(x - 1, y - 1),
            topmiddle: self.automata_at(x, y - 1),
            topright: self.automata_at(x + 1, y - 1),
            left: self.automata_at(x - 1, y),
            middle: self.automata_at(x, y),
            right: self.automata_at(x + 1, y),
            bottomleft: self.automata_at(x - 1, y + 1),
            bottommiddle: self.automata_at(x, y + 1),
            bottomright: self.automata_at(x + 1, y + 1),
        }
    }

    /// Advances the whole field by exactly one generation: every cell's
    /// next state is computed from the settled pre-tick snapshot into the
    /// scratch buffer, and then the two buffers swap roles.
    pub fn tick(&mut self)
        requires
            old(self).wf(),
        ensures
            final(self).wf(),
            tick_rel(*old(self), *final(self)),
    {
        let ghost pre = *self;
        let ghost w = pre.width as int;
        let ghost h = pre.height as int;
        let mut x: usize = 0;
        while x < self.width
            invariant
                self.wf(),
                self.width == pre.width,
                self.height == pre.height,
                w == pre.width as int,
                h == pre.height as int,
                self.field@ == pre.field@,
                self.field_alternate@.len() == pre.width * pre.height,
                x <= self.width,
                forall|i: int, j: int|
                    0 <= i < x && 0 <= j < h ==> self.field_alternate@[#[trigger] cell_index(
                        w,
                        i,
                        j,
                    )] == spec_next_middle(pre.spec_surroundings_for(i, j)),
            decreases self.width - x,
        {
            let mut y: usize = 0;
            while y < self.height
                invariant
                    self.wf(),
                    self.width == pre.width,
                    self.height == pre.height,
                    w == pre.width as int,
                    h == pre.height as int,
                    self.field@ == pre.field@,
                    self.field_alternate@.len() == pre.width * pre.height,
                    x < self.width,
                    y <= self.height,
                    forall|i: int, j: int|
                        0 <= i < x && 0 <= j < h ==> self.field_alternate@[#[trigger] cell_index(
                            w,
                            i,
                            j,
                        )] == spec_next_middle(pre.spec_surroundings_for(i, j)),
                    forall|j: int|
                        0 <= j < y ==> self.field_alternate@[#[trigger] cell_index(
                            w,
                            x as int,
                            j,
                        )] == spec_next_middle(pre.spec_surroundings_for(x as int, j)),
                decreases self.height - y,
            {
                let s = self.surroundings_for(x, y);
                let v = next_middle(s);
                proof {
                    lemma_cell_index_bound(w, h, x as int, y as int);
                    assert(s == pre.spec_surroundings_for(x as int, y as int));
                }
                let idx = y * self.width + x;
                self.field_alternate.set(idx, v);
                proof {
                    assert forall|i: int, j: int|
                        0 <= i < x && 0 <= j < h implies self.field_alternate@[#[trigger] cell_index(
                        w,
                        i,
                        j,
                    )] == spec_next_middle(pre.spec_surroundings_for(i, j)) by {
                        lemma_cell_index_bound(w, h, i, j);
                        lemma_cell_index_injective(w, i, j, x as int, y as int);
                    }
                    assert forall|j: int|
                        0 <= j < y + 1 implies self.field_alternate@[#[trigger] cell_index(
                        w,
                        x as int,
                        j,
                    )] == spec_next_middle(pre.spec_surroundings_for(x as int, j)) by {
                        if j < y {
                            lemma_cell_index_bound(w, h, x as int, j);
                            lemma_cell_index_injective(w, x as int, j, x as int, y as int);
                        } else {
                            assert(cell_index(w, x as int, j) == idx);
                        }
                    }
                }
                y = y + 1;
            }
            x = x + 1;
        }
        core::mem::swap(&mut self.field, &mut self.field_alternate);
        proof {
            assert forall|i: int, j: int|
                0 <= i < pre.width && 0 <= j < pre.height implies #[trigger] self.spec_at(i, j)
                == spec_next_middle(pre.spec_surroundings_for(i, j)) by {
                lemma_cell_index_bound(w, h, i, j);
                assert(self.field@[cell_index(w, i, j)] == spec_next_middle(
                    pre.spec_surroundings_for(i, j),
                ));
            }
        }
    }

    /// Seeds the field: a row of constant power sources across the middle,
    /// a liquid source, a column of empty obstruction, a mover entering at
    /// the left edge, and a handful of randomly placed inactive life cells.
    /// Every cell afterwards is a random life seed or exactly what the
    /// deterministic placement table [`spec_generated`] gives it, so apart
    /// from the life seeds each placement provably lands.
    pub fn generate(&mut self)
        requires
            old(self).wf(),
            old(self).width >= 1,
            old(self).height >= 1,
        ensures
            final(self).wf(),
            final(self).width == old(self).width,
            final(self).height == old(self).height,
            final(self).field_alternate@ == old(self).field_alternate@,
            forall|i: int, j: int|
                (#[trigger] final(self).spec_at(i, j)) == GameOfLife(false)
                    || final(self).spec_at(i, j) == spec_generated(*old(self), i, j),
            exists|i: int, j: int|
                0 <= i < final(self).width && 0 <= j < final(self).height
                    && (#[trigger] final(self).spec_at(i, j)) == GameOfLife(false),
    {
        let ghost pre = *self;
        let ghost w = pre.width as int;
        let ghost h = pre.height as int;

        let row = self.height / 2;
        let mut x: usize = 0;
        while x < self.width / 8
            invariant
                self.wf(),
                self.width == pre.width,
                self.height == pre.height,
                w == pre.width as int,
                h == pre.height as int,
                self.field_alternate@ == pre.field_alternate@,
                row == h / 2,
                row < self.height,
                x <= self.width / 8,
                forall|i: int, j: int|
                    (#[trigger] self.spec_at(i, j)) == if j == h / 2 && 0 <= i && i % 8 == 0 && i
                        / 8 < x {
                        RedstoneBlock()
                    } else {
                        pre.spec_at(i, j)
                    },
            decreases self.width / 8 - x,
        {
            assert(8 * (self.width / 8) <= self.width);
            self.place(RedstoneBlock(), x * 8, row);
            x = x + 1;
        }
        let ghost after_blocks = *self;

        let liquid_row = self.height / 16 * 7;
        let liquid_col = self.width / 2;
        assert(16 * (self.height / 16) <= self.height);
        self.place(Water(15), liquid_col, liquid_row);
        let ghost after_liquid = *self;

        let obstruction_col = self.width / 64 * 17;
        assert(64 * (self.width / 64) <= self.width);
        let mut y = self.height / 16 * 7;
        let y_end = self.height / 16 * 9;
        while y < y_end
            invariant
                self.wf(),
                self.width == pre.width,
                self.height == pre.height,
                w == pre.width as int,
                h == pre.height as int,
                self.field_alternate@ == pre.field_alternate@,
                obstruction_col == (w / 64) * 17,
                obstruction_col < self.width,
                y_end == (h / 16) * 9,
                y_end <= self.height,
                (h / 16) * 7 <= y,
                y <= y_end,
                forall|i: int, j: int|
                    (#[trigger] self.spec_at(i, j)) == if i == (w / 64) * 17 && (h / 16) * 7 <= j
                        < y {
                        Air()
                    } else {
                        after_liquid.spec_at(i, j)
                    },
            decreases y_end - y,
        {
            self.place(Air(), obstruction_col, y);
            y = y + 1;
        }
        let ghost after_obstruction = *self;

        let mover_row = self.height / 2;
        self.place(Slug(Right), 0, mover_row);

        proof {
            assert forall|i: int, j: int| (#[trigger] self.spec_at(i, j)) == spec_generated(
                pre,
                i,
                j,
            ) by {
                assert(after_blocks.spec_at(i, j) == if j == h / 2 && 0 <= i && i % 8 == 0 && i / 8
                    < w / 8 {
                    RedstoneBlock()
                } else {
                    pre.spec_at(i, j)
                });
                assert(after_obstruction.spec_at(i, j) == if i == (w / 64) * 17 && (h / 16) * 7 <= j
                    < (h / 16) * 9 {
                    Air()
                } else {
                    after_liquid.spec_at(i, j)
                });
            }
        }

        self.spread(GameOfLife(false), 16);
    }

    /// Scatters `count` copies of a cell over drawn in-bounds coordinates;
    /// randomness is confined to this seeding step. Wherever the draws
    /// land, every cell afterwards is either untouched or the scattered
    /// cell, and at least one scattered copy survives, since every draw
    /// writes the same value.
    fn spread(&mut self, automata: Automata, count: u32)
        requires
            old(self).wf(),
            old(self).width >= 1,
            old(self).height >= 1,
        ensures
            final(self).wf(),
            final(self).width == old(self).width,
            final(self).height == old(self).height,
            final(self).field_alternate@ == old(self).field_alternate@,
            forall|i: int, j: int|
                (#[trigger] final(self).spec_at(i, j)) == old(self).spec_at(i, j)
                    || final(self).spec_at(i, j) == automata,
            count >= 1 ==> exists|i: int, j: int|
                0 <= i < final(self).width && 0 <= j < final(self).height
                    && (#[trigger] final(self).spec_at(i, j)) == automata,
    {
        let mut i: u32 = 0;
        while i < count
            invariant
                self.wf(),
                self.width == old(self).width,
                self.height == old(self).height,
                self.width >= 1,
                self.height >= 1,
                self.field_alternate@ == old(self).field_alternate@,
                forall|i: int, j: int|
                    #[trigger] self.spec_at(i, j) == old(self).spec_at(i, j) || self.spec_at(i, j)
                        == automata,
                i >= 1 ==> exists|a: int, b: int|
                    0 <= a < self.width && 0 <= b < self.height && (#[trigger] self.spec_at(a, b))
                        == automata,
            decreases count - i,
        {
            let rx: u32 = rand::random();
            let ry: u32 = rand::random();
            let x = (rx as usize) % self.width;
            let y = (ry as usize) % self.height;
            proof {
                lemma_mod_division_less_than_divisor(rx as int, self.width as int);
                lemma_mod_division_less_than_divisor(ry as int, self.height as int);
            }
            self.place(automata, x, y);
            proof {
                assert(self.spec_at(x as int, y as int) == automata);
            }
            i = i + 1;
        }
    }

    /// The settled generation as an ordered sequence of rows, top row
    /// first, each an ordered sequence of that row's cell states. Only the
    /// settled buffer is ever observed, never the scratch buffer.
    pub fn iter(&self) -> (rows: Vec<Vec<Automata>>)
        requires
            self.wf(),
        ensures
            rows@.len() == self.height,
            forall|y: int| 0 <= y < self.height ==> (#[trigger] rows@[y])@.len() == self.width,
            forall|x: int, y: int|
                0 <= x < self.width && 0 <= y < self.height ==> (#[trigger] rows@[y]@[x])
                    == self.spec_at(x, y),
    {
        let mut rows: Vec<Vec<Automata>> = Vec::new();
        let mut y: usize = 0;
        while y < self.height
            invariant
                self.wf(),
                y <= self.height,
                rows@.len() == y,
                forall|j: int| 0 <= j < y ==> (#[trigger] rows@[j])@.len() == self.width,
                forall|i: int, j: int|
                    0 <= i < self.width && 0 <= j < y ==> (#[trigger] rows@[j]@[i])
                        == self.spec_at(i, j),
            decreases self.height - y,
        {
            let mut row: Vec<Automata> = Vec::new();
            let mut x: usize = 0;
            while x < self.width
                invariant
                    self.wf(),
                    x <= self.width,
                    y < self.height,
                    row@.len() == x,
                    forall|i: int| 0 <= i < x ==> (#[trigger] row@[i]) == self.spec_at(i, y as int),
                decreases self.width - x,
            {
                proof {
                    lemma_cell_index_bound(
                        self.width as int,
                        self.height as int,
                        x as int,
                        y as int,
                    );
                }
                row.push(self.field[y * self.width + x]);
                x = x + 1;
            }
            rows.push(row);
            y = y + 1;
        }
        rows
    }
}

/// Ticking a well-formed field leaves a well-formed field.
pub proof fn lemma_tick_preserves_wf(pre: AutomataField, post: AutomataField)
    requires
        pre.wf(),
        tick_rel(pre, post),
    ensures
        post.wf(),
{
}

/// Determinism of one step: the tick relation admits exactly one new
/// settled buffer for a given settled buffer, so two equally sized fields
/// with equal settled contents step to equal settled contents, whatever
/// their scratch buffers held.
pub proof fn lemma_tick_deterministic(
    pre1: AutomataField,
    post1: AutomataField,
    pre2: AutomataField,
    post2: AutomataField,
)
    requires
        pre1.wf(),
        pre2.wf(),
        tick_rel(pre1, post1),
        tick_rel(pre2, post2),
        pre1.width == pre2.width,
        pre1.height == pre2.height,
        pre1.field@ == pre2.field@,
    ensures
        post1.width == post2.width,
        post1.height == post2.height,
        post1.field@ == post2.field@,
{
    assert forall|x: int, y: int| #[trigger] pre1.spec_at(x, y) == pre2.spec_at(x, y) by {}
    let w = pre1.width as int;
    let h = pre1.height as int;
    assert forall|idx: int| 0 <= idx < post1.field@.len() implies post1.field@[idx]
        == post2.field@[idx] by {
        lemma_cell_index_inverse(w, h, idx);
        let x = idx % w;
        let y = idx / w;
        assert(post1.spec_at(x, y) == spec_next_middle(pre1.spec_surroundings_for(x, y)));
        assert(post2.spec_at(x, y) == spec_next_middle(pre2.spec_surroundings_for(x, y)));
        assert(pre1.spec_surroundings_for(x, y) == pre2.spec_surroundings_for(x, y));
    }
    assert(post1.field@ =~= post2.field@);
}

/// Determinism over any number of steps: two runs whose consecutive
/// fields each satisfy the tick relation, started from equal settled
/// states, end in equal settled states.
pub proof fn lemma_run_deterministic(run1: Seq<AutomataField>, run2: Seq<AutomataField>)
    requires
        run1.len() == run2.len(),
        run1.len() >= 1,
        run1[0].wf(),
        run2[0].wf(),
        forall|i: int| 0 <= i < run1.len() - 1 ==> tick_rel(#[trigger] run1[i], run1[i + 1]),
        forall|i: int| 0 <= i < run2.len() - 1 ==> tick_rel(#[trigger] run2[i], run2[i + 1]),
        run1[0].width == run2[0].width,
        run1[0].height == run2[0].height,
        run1[0].field@ == run2[0].field@,
    ensures
        run1.last().width == run2.last().width,
        run1.last().height == run2.last().height,
        run1.last().field@ == run2.last().field@,
    decreases run1.len(),
{
    if run1.len() > 1 {
        assert(tick_rel(run1[0], run1[1]));
        assert(tick_rel(run2[0], run2[1]));
        lemma_tick_deterministic(run1[0], run1[1], run2[0], run2[1]);
        lemma_tick_preserves_wf(run1[0], run1[1]);
        lemma_tick_preserves_wf(run2[0], run2[1]);
        let rest1 = run1.subrange(1, run1.len() as int);
        let rest2 = run2.subrange(1, run2.len() as int);
        assert forall|i: int| 0 <= i < rest1.len() - 1 implies tick_rel(
            #[trigger] rest1[i],
            rest1[i + 1],
        ) by {
            assert(rest1[i] == run1[i + 1]);
            assert(rest1[i + 1] == run1[i + 2]);
        }
        assert forall|i: int| 0 <= i < rest2.len() - 1 implies tick_rel(
            #[trigger] rest2[i],
            rest2[i + 1],
        ) by {
            assert(rest2[i] == run2[i + 1]);
            assert(rest2[i + 1] == run2[i + 2]);
        }
        lemma_run_deterministic(rest1, rest2);
        assert(rest1.last() == run1.last());
        assert(rest2.last() == run2.last());
    }
}

/// Boundary inertness: a field where every in-bounds cell is `Air` ticks
/// to a field where every cell still reads as `Air`.
pub proof fn lemma_tick_preserves_all_air(pre: AutomataField, post: AutomataField)
    requires
        pre.wf(),
        tick_rel(pre, post),
        forall|x: int, y: int|
            0 <= x < pre.width && 0 <= y < pre.height ==> #[trigger] pre.spec_at(x, y) == Air(),
    ensures
        forall|x: int, y: int| #[trigger] post.spec_at(x, y) == Air(),
{
    assert forall|x: int, y: int| #[trigger] post.spec_at(x, y) == Air() by {
        if 0 <= x < post.width && 0 <= y < post.height {
            let s = pre.spec_surroundings_for(x, y);
            assert(s.topmiddle == Air());
            assert(s.left == Air());
            assert(s.middle == Air());
            assert(s.right == Air());
            assert(s.bottommiddle == Air());
            assert(post.spec_at(x, y) == spec_next_middle(s));
        }
    }
}

/// The grid-wide payload invariant: if every settled cell keeps its power
/// and wetness within `0..=15`, then after a tick every cell does again.
pub proof fn lemma_tick_preserves_bounds(pre: AutomataField, post: AutomataField)
    requires
        pre.wf(),
        tick_rel(pre, post),
        forall|x: int, y: int|
            0 <= x < pre.width && 0 <= y < pre.height ==> cell_bounded(#[trigger] pre.spec_at(x, y)),
    ensures
        forall|x: int, y: int| cell_bounded(#[trigger] post.spec_at(x, y)),
{
    assert forall|x: int, y: int| cell_bounded(#[trigger] post.spec_at(x, y)) by {
        if 0 <= x < post.width && 0 <= y < post.height {
            let s = pre.spec_surroundings_for(x, y);
            assert(cell_bounded(s.topmiddle));
            assert(cell_bounded(s.left));
            assert(cell_bounded(s.middle));
            assert(cell_bounded(s.right));
            assert(cell_bounded(s.bottommiddle));
            lemma_next_middle_bounded(s);
            assert(post.spec_at(x, y) == spec_next_middle(s));
        }
    }
}

} // verus!
