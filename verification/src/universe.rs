//! The simulation engine: a `Universe` and its generation-advance algorithm.

use vstd::prelude::*;

use fixedbitset::FixedBitSet;

use crate::bits::{
    bit_len, bitset_get, bitset_new, bitset_set, bitset_words, lemma_div_in_range,
    lemma_word_update, lemma_words_cover, lemma_zero_words_clear, word_bit, word_seq, words_for,
};
use crate::rules::{init_cell, init_grid, lemma_flat_in_range, neighbor_count, occupancy, step};

verus! {

/// A fixed-size toroidal Game of Life grid.
///
/// Two bit-packed buffers of `width * height` cells each; `toggle` selects
/// the one that holds the live generation, the other is scratch.  `tick`
/// writes the next generation into the scratch buffer and flips `toggle`,
/// so no allocation happens after construction.
pub struct Universe {
    width: u32,
    height: u32,
    toggle: bool,
    buffer_a: FixedBitSet,
    buffer_b: FixedBitSet,
}

impl Universe {
    /// The grid width, in cells.
    pub closed spec fn spec_width(self) -> u32 {
        self.width
    }

    /// The grid height, in cells.
    pub closed spec fn spec_height(self) -> u32 {
        self.height
    }

    /// How many cells the grid has.
    pub open spec fn size(self) -> int {
        self.spec_width() as int * self.spec_height() as int
    }

    /// The packed words of the buffer holding the live generation.
    pub closed spec fn active_words(self) -> Seq<u32> {
        if self.toggle {
            word_seq(self.buffer_a)
        } else {
            word_seq(self.buffer_b)
        }
    }

    /// The packed words of the scratch buffer.
    spec fn scratch_words(self) -> Seq<u32> {
        if self.toggle {
            word_seq(self.buffer_b)
        } else {
            word_seq(self.buffer_a)
        }
    }

    /// The live generation as a row-major sequence of cells.
    pub closed spec fn grid(self) -> Seq<bool> {
        Seq::new(self.size() as nat, |i: int| word_bit(self.active_words(), i))
    }

    /// A buffer is sound for this grid: built with `width * height` bits,
    /// holding exactly the words those bits need, with every bit past the
    /// grid clear.
    spec fn buffer_ok(self, b: FixedBitSet) -> bool {
        &&& bit_len(b) == self.size()
        &&& word_seq(b).len() == words_for(self.size())
        &&& forall|k: int|
            self.size() <= k < word_seq(b).len() * 32 ==> !word_bit(word_seq(b), k)
    }

    /// Well-formedness: the cell count fits a `u32`, and both buffers are
    /// sound for the grid.  Constructors establish it; every method keeps it.
    pub closed spec fn wf(self) -> bool {
        &&& self.size() <= u32::MAX as int
        &&& self.buffer_ok(self.buffer_a)
        &&& self.buffer_ok(self.buffer_b)
    }

    /// Builds a `width` by `height` universe seeded with the fixed pattern:
    /// the cell at flat index `i` starts alive iff `i % 2 == 0 || i % 7 == 0`.
    /// The scratch buffer starts all-dead.
    pub fn new(width: u32, height: u32) -> (u: Universe)
        requires
            width as int * height as int <= u32::MAX as int,
        ensures
            u.wf(),
            u.spec_width() == width,
            u.spec_height() == height,
            u.grid() == init_grid(width as int, height as int),
    {
        let size: usize = (width * height) as usize;
        let mut initial = bitset_new(size);
        proof {
            lemma_zero_words_clear(word_seq(initial));
        }
        let mut i: usize = 0;
        while i < size
            invariant
                i <= size,
                bit_len(initial) == size,
                word_seq(initial).len() == words_for(size as int),
                forall|k: int| 0 <= k < i ==> word_bit(word_seq(initial), k) == init_cell(k),
                forall|k: int|
                    i <= k < word_seq(initial).len() * 32 ==> !word_bit(word_seq(initial), k),
            decreases size - i,
        {
            let ghost ws0 = word_seq(initial);
            let alive = i % 2 == 0 || i % 7 == 0;
            proof {
                vstd::arithmetic::div_mod::lemma_fundamental_div_mod(i as int, 32);
            }
            bitset_set(&mut initial, i, alive);
            proof {
                lemma_word_update(ws0, word_seq(initial), i as int, alive);
            }
            i = i + 1;
        }
        let scratch = bitset_new(size);
        proof {
            lemma_zero_words_clear(word_seq(scratch));
        }
        let u = Universe { width, height, toggle: true, buffer_a: initial, buffer_b: scratch };
        proof {
            assert(u.grid() =~= init_grid(width as int, height as int));
        }
        u
    }

    /// The flat index of the cell at `(row, col)`.
    fn get_index(&self, row: u32, column: u32) -> (i: usize)
        requires
            self.wf(),
            row < self.spec_height(),
            column < self.spec_width(),
        ensures
            i as int == row as int * self.spec_width() as int + column as int,
            i < self.size(),
    {
        proof {
            lemma_flat_in_range(
                row as int,
                column as int,
                self.spec_width() as int,
                self.spec_height() as int,
            );
        }
        (row * self.width + column) as usize
    }

    /// Reads one cell of the live generation.
    fn get_active(&self, i: usize) -> (alive: bool)
        requires
            self.wf(),
            i < self.size(),
        ensures
            alive == self.grid()[i as int],
    {
        let b = if self.toggle {
            &self.buffer_a
        } else {
            &self.buffer_b
        };
        bitset_get(b, i)
    }

    /// The live generation's packed bit storage: `words_for(width * height)`
    /// words, cell `i` at bit `i % 32` of word `i / 32`, every bit past the
    /// grid clear.  The view reflects the current generation only: the next
    /// `tick` swaps the backing buffer.
    pub fn cells(&self) -> (r: &[u32])
        requires
            self.wf(),
        ensures
            r@.len() == words_for(self.size()),
            forall|i: int| 0 <= i < self.size() ==> word_bit(r@, i) == self.grid()[i],
            forall|i: int| self.size() <= i < r@.len() * 32 ==> !word_bit(r@, i),
    {
        let b = if self.toggle {
            &self.buffer_a
        } else {
            &self.buffer_b
        };
        bitset_words(b)
    }

    /// Reads the cell at `(row, col)` of the live generation.
    pub fn get_cell(&self, row: u32, col: u32) -> (alive: bool)
        requires
            self.wf(),
            row < self.spec_height(),
            col < self.spec_width(),
        ensures
            alive == self.grid()[row as int * self.spec_width() as int + col as int],
    {
        let i = self.get_index(row, col);
        self.get_active(i)
    }

    /// Sets the cell at `(row, col)` of the live generation, leaving every
    /// other cell as it was.
    pub fn set_cell(&mut self, row: u32, col: u32, alive: bool)
        requires
            old(self).wf(),
            row < old(self).spec_height(),
            col < old(self).spec_width(),
        ensures
            final(self).wf(),
            final(self).spec_width() == old(self).spec_width(),
            final(self).spec_height() == old(self).spec_height(),
            final(self).grid() == old(self).grid().update(
                row as int * old(self).spec_width() as int + col as int,
                alive,
            ),
    {
        let i = self.get_index(row, col);
        proof {
            lemma_words_cover(self.size());
            lemma_div_in_range(i as int, words_for(self.size()));
        }
        let ghost ws0 = self.active_words();
        if self.toggle {
            bitset_set(&mut self.buffer_a, i, alive);
        } else {
            bitset_set(&mut self.buffer_b, i, alive);
        }
        proof {
            lemma_word_update(ws0, self.active_words(), i as int, alive);
            assert(self.grid() =~= old(self).grid().update(i as int, alive));
        }
    }

    /// One where the cell is alive, zero where it is dead.
    fn one_if_alive(alive: bool) -> (r: u8)
        ensures
            r as int == occupancy(alive),
            r <= 1,
    {
        if alive {
            1
        } else {
            0
        }
    }

    /// Counts the live cells among the 8 toroidal neighbors of `(row, col)`
    /// in the live generation.
    #[verifier::rlimit(60)]
    fn count(&self, row: u32, col: u32) -> (c: u8)
        requires
            self.wf(),
            row < self.spec_height(),
            col < self.spec_width(),
        ensures
            c as int == neighbor_count(
                self.grid(),
                self.spec_width() as int,
                self.spec_height() as int,
                row as int,
                col as int,
            ),
    {
        let north = if row == 0 {
            self.height - 1
        } else {
            row - 1
        };
        let south = if row == self.height - 1 {
            0
        } else {
            row + 1
        };
        let west = if col == 0 {
            self.width - 1
        } else {
            col - 1
        };
        let east = if col == self.width - 1 {
            0
        } else {
            col + 1
        };

        let nw = self.get_index(north, west);
        let nn = self.get_index(north, col);
        let ne = self.get_index(north, east);
        let ww = self.get_index(row, west);
        let ee = self.get_index(row, east);
        let sw = self.get_index(south, west);
        let ss = self.get_index(south, col);
        let se = self.get_index(south, east);

        Self::one_if_alive(self.get_active(nw)) + Self::one_if_alive(self.get_active(nn))
            + Self::one_if_alive(self.get_active(ne)) + Self::one_if_alive(self.get_active(ww))
            + Self::one_if_alive(self.get_active(ee)) + Self::one_if_alive(self.get_active(sw))
            + Self::one_if_alive(self.get_active(ss)) + Self::one_if_alive(self.get_active(se))
    }

    /// Sets bit `i` of the scratch buffer, leaving the live generation, the
    /// dimensions, and every other scratch bit as they were.
    fn set_scratch(&mut self, i: usize, alive: bool)
        requires
            old(self).wf(),
            i < old(self).size(),
        ensures
            final(self).wf(),
            final(self).spec_width() == old(self).spec_width(),
            final(self).spec_height() == old(self).spec_height(),
            final(self).grid() == old(self).grid(),
            final(self).scratch_words().len() == old(self).scratch_words().len(),
            word_bit(final(self).scratch_words(), i as int) == alive,
            forall|k: int|
                0 <= k < old(self).scratch_words().len() * 32 && k != i ==> word_bit(
                    final(self).scratch_words(),
                    k,
                ) == word_bit(old(self).scratch_words(), k),
    {
        proof {
            lemma_words_cover(self.size());
            lemma_div_in_range(i as int, words_for(self.size()));
        }
        let ghost ws0 = self.scratch_words();
        if self.toggle {
            bitset_set(&mut self.buffer_b, i, alive);
        } else {
            bitset_set(&mut self.buffer_a, i, alive);
        }
        proof {
            lemma_word_update(ws0, self.scratch_words(), i as int, alive);
            assert(self.grid() =~= old(self).grid());
        }
    }

    /// Advances the simulation by exactly one generation: reads every cell's
    /// neighborhood from the live generation, writes the rule's verdict into
    /// the scratch buffer, then flips the selector so the freshly computed
    /// generation becomes the live one.  Never allocates and never fails.
    pub fn tick(&mut self)
        requires
            old(self).wf(),
        ensures
            final(self).wf(),
            final(self).spec_width() == old(self).spec_width(),
            final(self).spec_height() == old(self).spec_height(),
            final(self).grid() == step(
                old(self).grid(),
                old(self).spec_width() as int,
                old(self).spec_height() as int,
            ),
    {
        let ghost g0 = self.grid();
        let ghost wi = self.spec_width() as int;
        let ghost hi = self.spec_height() as int;
        let width = self.width;
        let height = self.height;
        let mut row: u32 = 0;
        while row < height
            invariant
                self.wf(),
                self.spec_width() == width,
                self.spec_height() == height,
                wi == width as int,
                hi == height as int,
                row <= height,
                self.grid() == g0,
                self.scratch_words().len() == words_for(self.size()),
                forall|k: int|
                    0 <= k < wi * row as int ==> word_bit(self.scratch_words(), k) == step(
                        g0,
                        wi,
                        hi,
                    )[k],
            decreases height - row,
        {
            let mut col: u32 = 0;
            while col < width
                invariant
                    self.wf(),
                    self.spec_width() == width,
                    self.spec_height() == height,
                    wi == width as int,
                    hi == height as int,
                    row < height,
                    col <= width,
                    self.grid() == g0,
                    self.scratch_words().len() == words_for(self.size()),
                    forall|k: int|
                        0 <= k < wi * row as int + col as int ==> word_bit(
                            self.scratch_words(),
                            k,
                        ) == step(g0, wi, hi)[k],
                decreases width - col,
            {
                let idx = self.get_index(row, col);
                let cell = self.get_active(idx);
                let count = self.count(row, col);
                let next = count == 3 || (cell && count == 2);
                proof {
                    lemma_flat_in_range(row as int, col as int, wi, hi);
                    assert(idx as int == wi * row as int + col as int) by (nonlinear_arith)
                        requires
                            idx as int == row as int * wi + col as int,
                    ;
                    vstd::arithmetic::div_mod::lemma_fundamental_div_mod_converse(
                        idx as int,
                        wi,
                        row as int,
                        col as int,
                    );
                    assert(next == step(g0, wi, hi)[idx as int]);
                    lemma_words_cover(self.size());
                }
                self.set_scratch(idx, next);
                col = col + 1;
            }
            proof {
                assert(wi * row as int + wi == wi * (row as int + 1)) by (nonlinear_arith);
            }
            row = row + 1;
        }
        self.toggle = !self.toggle;
        proof {
            assert(self.grid() =~= step(g0, wi, hi));
        }
    }
}

/// Law: construction is deterministic.  Any two universes that satisfy
/// `new`'s contract for the same `(width, height)` — their live generation
/// is the fixed seed pattern — hold bit-identical live generations.
pub proof fn lemma_new_deterministic(u1: Universe, u2: Universe)
    requires
        u1.spec_width() == u2.spec_width(),
        u1.spec_height() == u2.spec_height(),
        u1.grid() == init_grid(u1.spec_width() as int, u1.spec_height() as int),
        u2.grid() == init_grid(u2.spec_width() as int, u2.spec_height() as int),
    ensures
        u1.grid() == u2.grid(),
{
}

/// Law: `tick` is deterministic.  Two universes of the same dimensions in
/// identical observable state step to identical next generations — `tick`'s
/// contract pins each one's next generation to `step` of its current state,
/// so equal states stay equal under any repeated sequence of ticks.
pub proof fn lemma_tick_deterministic(u1: Universe, u2: Universe)
    requires
        u1.spec_width() == u2.spec_width(),
        u1.spec_height() == u2.spec_height(),
        u1.grid() == u2.grid(),
    ensures
        step(u1.grid(), u1.spec_width() as int, u1.spec_height() as int) == step(
            u2.grid(),
            u2.spec_width() as int,
            u2.spec_height() as int,
        ),
{
}

} // verus!
