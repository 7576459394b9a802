//! Row-major storage of the atlas tile index of every cell of a map.

use vstd::prelude::*;

verus! {

/// Why an access to a [`TileBuffer`] was refused.
#[derive(Clone, Copy, Debug, PartialEq, Eq, Structural)]
pub enum AccessError {
    /// The cell `(x, y)` lies outside the buffer.
    OutOfBounds { x: u32, y: u32 },
}

/// The tile indices of a `width` by `height` map, one per cell, row by row.
#[derive(Debug)]
pub struct TileBuffer {
    width: u32,
    height: u32,
    cells: Vec<u32>,
}

impl View for TileBuffer {
    type V = Seq<u32>;

    /// The tile indices in row-major order: cell `(x, y)` is at position
    /// `y * width + x`.
    closed spec fn view(&self) -> Seq<u32> {
        self.cells@
    }
}

impl TileBuffer {
    /// The storage holds exactly `width * height` tile indices, and no more
    /// than can be allocated.
    #[verifier::type_invariant]
    pub closed spec fn wf(self) -> bool {
        &&& self.cells@.len() == self.width * self.height
        &&& self.width * self.height <= Self::max_cells()
    }

    /// The largest number of cells whose tile indices fit in the address
    /// space: a tile index takes four bytes, and an allocation at most half
    /// the address space.
    pub open spec fn max_cells() -> int {
        (usize::MAX / 8) as int
    }

    /// Number of cells per row.
    pub closed spec fn spec_width(self) -> nat {
        self.width as nat
    }

    /// Number of rows.
    pub closed spec fn spec_height(self) -> nat {
        self.height as nat
    }

    /// Whether `(x, y)` is a cell of this buffer.
    pub open spec fn in_bounds(self, x: int, y: int) -> bool {
        0 <= x < self.spec_width() && 0 <= y < self.spec_height()
    }

    /// Position of cell `(x, y)` in the row-major sequence.
    pub open spec fn position(self, x: int, y: int) -> int {
        y * self.spec_width() + x
    }

    /// The tile index stored for cell `(x, y)`.
    pub open spec fn cell(self, x: int, y: int) -> u32
        recommends
            self.in_bounds(x, y),
    {
        self.view()[self.position(x, y)]
    }

    /// A well-formed buffer holds exactly `width * height` indices, and the
    /// position of each of its cells is an index into them.
    pub proof fn lemma_positions(self)
        requires
            self.wf(),
        ensures
            self.view().len() == self.spec_width() * self.spec_height(),
            forall|x: int, y: int| #![trigger self.position(x, y)]
                self.in_bounds(x, y) ==> 0 <= self.position(x, y) < self.view().len(),
    {
        assert forall|x: int, y: int| #![trigger self.position(x, y)]
            self.in_bounds(x, y) implies 0 <= self.position(x, y) < self.view().len() by {
            let w = self.spec_width() as int;
            let h = self.spec_height() as int;
            assert(0 <= y * w) by (nonlinear_arith)
                requires 0 <= y, 0 <= w;
            assert(y * w + w <= h * w) by (nonlinear_arith)
                requires y + 1 <= h, 0 <= w;
            assert(h * w == w * h) by (nonlinear_arith);
        }
    }

    /// Distinct cells have distinct positions.
    pub proof fn lemma_position_injective(self, x1: int, y1: int, x2: int, y2: int)
        requires
            self.in_bounds(x1, y1),
            self.in_bounds(x2, y2),
            self.position(x1, y1) == self.position(x2, y2),
        ensures
            x1 == x2,
            y1 == y2,
    {
        let w = self.spec_width() as int;
        if y1 < y2 {
            assert(y1 * w + w <= y2 * w) by (nonlinear_arith)
                requires y1 + 1 <= y2, 0 <= w;
        } else if y2 < y1 {
            assert(y2 * w + w <= y1 * w) by (nonlinear_arith)
                requires y2 + 1 <= y1, 0 <= w;
        }
    }

    /// After a tile was stored for a cell, the cell holds that tile and every
    /// other cell holds what it held before.
    pub proof fn lemma_set_then_get(
        before: TileBuffer,
        after: TileBuffer,
        x: int,
        y: int,
        tile: u32,
        other_x: int,
        other_y: int,
    )
        requires
            before.wf(),
            after.spec_width() == before.spec_width(),
            after.spec_height() == before.spec_height(),
            before.in_bounds(x, y),
            before.in_bounds(other_x, other_y),
            after@ == before@.update(before.position(x, y), tile),
        ensures
            after.cell(x, y) == tile,
            other_x != x || other_y != y ==> after.cell(other_x, other_y) == before.cell(
                other_x,
                other_y,
            ),
    {
        before.lemma_positions();
        assert(0 <= before.position(x, y) < before@.len());
        assert(0 <= before.position(other_x, other_y) < before@.len());
        if other_x != x || other_y != y {
            if before.position(other_x, other_y) == before.position(x, y) {
                before.lemma_position_injective(other_x, other_y, x, y);
            }
        }
    }

    /// A buffer of `width * height` cells, each holding tile index 0.
    pub fn new(width: u32, height: u32) -> (r: TileBuffer)
        requires
            width * height <= Self::max_cells(),
        ensures
            r.wf(),
            r.spec_width() == width,
            r.spec_height() == height,
            r@ == Seq::new((width * height) as nat, |i: int| 0u32),
    {
        assert(width * height <= u64::MAX) by (nonlinear_arith)
            requires width <= u32::MAX, height <= u32::MAX;
        let n: u64 = (width as u64) * (height as u64);
        let cells: Vec<u32> = vec![0u32; n as usize];
        assert(cells@ =~= Seq::new((width * height) as nat, |i: int| 0u32));
        TileBuffer { width, height, cells }
    }

    /// The number of cells that a buffer may hold at most.
    pub fn cell_limit() -> (r: usize)
        ensures
            r == Self::max_cells(),
    {
        usize::MAX / 8
    }

    /// The tile indices in row-major order.
    pub fn as_slice(&self) -> (r: &[u32])
        ensures
            r@ == self@,
    {
        self.cells.as_slice()
    }

    /// Number of cells per row.
    pub fn width(&self) -> (r: u32)
        ensures
            r == self.spec_width(),
    {
        self.width
    }

    /// Number of rows.
    pub fn height(&self) -> (r: u32)
        ensures
            r == self.spec_height(),
    {
        self.height
    }

    /// Position of the cell `(x, y)` of this buffer in its storage.
    fn offset(&self, x: u32, y: u32) -> (i: usize)
        requires
            self.in_bounds(x as int, y as int),
        ensures
            i == self.position(x as int, y as int),
            i < self.view().len(),
        no_unwind
    {
        proof {
            use_type_invariant(self);
            self.lemma_positions();
            assert(0 <= self.position(x as int, y as int) < self.view().len());
            assert(0 <= y * self.width <= self.position(x as int, y as int)) by (nonlinear_arith)
                requires
                    0 <= x,
                    0 <= y,
                    0 <= self.width,
                    self.position(x as int, y as int) == y * self.width + x,
            ;
        }
        let i: u64 = (y as u64) * (self.width as u64) + (x as u64);
        i as usize
    }

    /// The tile index of cell `(x, y)`, or an error naming the cell when it
    /// lies outside the buffer.
    pub fn get(&self, x: u32, y: u32) -> (r: Result<u32, AccessError>)
        ensures
            self.in_bounds(x as int, y as int) ==> r == Ok::<u32, AccessError>(
                self.cell(x as int, y as int),
            ),
            !self.in_bounds(x as int, y as int) ==> r == Err::<u32, AccessError>(
                AccessError::OutOfBounds { x, y },
            ),
    {
        proof {
            use_type_invariant(self);
            self.lemma_positions();
        }
        if x < self.width && y < self.height {
            assert(self.in_bounds(x as int, y as int));
            let i: usize = self.offset(x, y);
            Ok(self.cells[i])
        } else {
            Err(AccessError::OutOfBounds { x, y })
        }
    }

    /// Stores `tile` for cell `(x, y)` and leaves every other cell as it was,
    /// or refuses with an error naming the cell, and changes nothing, when the
    /// cell lies outside the buffer.
    pub fn set(&mut self, x: u32, y: u32, tile: u32) -> (r: Result<(), AccessError>)
        ensures
            final(self).wf(),
            final(self).spec_width() == old(self).spec_width(),
            final(self).spec_height() == old(self).spec_height(),
            final(self)@.len() == old(self)@.len(),
            old(self).in_bounds(x as int, y as int) ==> r == Ok::<(), AccessError>(())
                && final(self)@ == old(self)@.update(old(self).position(x as int, y as int), tile),
            !old(self).in_bounds(x as int, y as int) ==> r == Err::<(), AccessError>(
                AccessError::OutOfBounds { x, y },
            ) && final(self)@ == old(self)@,
        no_unwind
    {
        proof {
            use_type_invariant(&*self);
        }
        if x < self.width && y < self.height {
            let i: usize = self.offset(x, y);
            self.cells[i] = tile;
            Ok(())
        } else {
            Err(AccessError::OutOfBounds { x, y })
        }
    }

    /// Gives every cell the tile index that `f` returns for it. The cells are
    /// visited row by row, each row from its first cell to its last, and `f`
    /// is called once per cell.
    pub fn fill<F: Fn(u32, u32) -> u32>(&mut self, f: F)
        requires
            forall|x: u32, y: u32| #![trigger call_requires(f, (x, y))]
                old(self).in_bounds(x as int, y as int) ==> call_requires(f, (x, y)),
        ensures
            final(self).wf(),
            final(self).spec_width() == old(self).spec_width(),
            final(self).spec_height() == old(self).spec_height(),
            final(self)@.len() == old(self)@.len(),
            forall|x: u32, y: u32| #![trigger final(self).cell(x as int, y as int)]
                old(self).in_bounds(x as int, y as int) ==> call_ensures(
                    f,
                    (x, y),
                    final(self).cell(x as int, y as int),
                ),
    {
        proof {
            use_type_invariant(&*self);
            self.lemma_positions();
        }
        let width: u32 = self.width;
        let height: u32 = self.height;
        let mut y: u32 = 0;
        while y < height
            invariant
                y <= height,
                self.width == width,
                self.height == height,
                self.wf(),
                forall|cx: u32, cy: u32| #![trigger call_requires(f, (cx, cy))]
                    cx < width && cy < height ==> call_requires(f, (cx, cy)),
                forall|cx: u32, cy: u32| #![trigger self.cell(cx as int, cy as int)]
                    cx < width && cy < y ==> call_ensures(f, (cx, cy), self.cell(cx as int, cy as int)),
            decreases height - y,
        {
            let mut x: u32 = 0;
            while x < width
                invariant
                    x <= width,
                    y < height,
                    self.width == width,
                    self.height == height,
                    self.wf(),
                    forall|cx: u32, cy: u32| #![trigger call_requires(f, (cx, cy))]
                    cx < width && cy < height ==> call_requires(f, (cx, cy)),
                    forall|cx: u32, cy: u32| #![trigger self.cell(cx as int, cy as int)]
                        cx < width && (cy < y || (cy == y && cx < x)) ==> call_ensures(
                            f,
                            (cx, cy),
                            self.cell(cx as int, cy as int),
                        ),
                decreases width - x,
            {
                let tile: u32 = f(x, y);
                let i: usize = self.offset(x, y);
                let ghost before = *self;
                self.cells[i] = tile;
                proof {
                    assert forall|cx: u32, cy: u32| #![trigger self.cell(cx as int, cy as int)]
                        cx < width && (cy < y || (cy == y && cx < x + 1)) implies call_ensures(
                        f,
                        (cx, cy),
                        self.cell(cx as int, cy as int),
                    ) by {
                        if cx == x && cy == y {
                        } else {
                            assert(before.in_bounds(cx as int, cy as int));
                            before.lemma_positions();
                            assert(self.view() == before.view().update(i as int, tile));
                            assert(0 <= before.position(cx as int, cy as int) < before.view().len());
                            assert(self.position(cx as int, cy as int) == before.position(
                                cx as int,
                                cy as int,
                            ));
                            if before.position(cx as int, cy as int) == before.position(x as int, y as int) {
                                before.lemma_position_injective(cx as int, cy as int, x as int, y as int);
                            }
                            assert(self.cell(cx as int, cy as int) == before.cell(cx as int, cy as int));
                        }
                    }
                }
                x = x + 1;
            }
            y = y + 1;
        }
    }

    /// Whether `cells` is what results when `f` is called once for every cell
    /// of a buffer `width` cells wide, in row-major order, each call handing
    /// its state on to the next: `states` holds the state before each call and
    /// after the last, from `start` to `end`, and call number `i` is made for
    /// the cell in column `i % width` of row `i / width` and returns the tile
    /// index at position `i`.
    pub open spec fn threaded<S, F: Fn(S, u32, u32) -> (S, u32)>(
        width: nat,
        f: F,
        start: S,
        states: Seq<S>,
        cells: Seq<u32>,
        end: S,
    ) -> bool {
        &&& states.len() == cells.len() + 1
        &&& states[0] == start
        &&& states[cells.len() as int] == end
        &&& forall|i: int|
            0 <= i < cells.len() ==> call_ensures(
                f,
                (states[i], (i % width as int) as u32, (i / width as int) as u32),
                (#[trigger] states[i + 1], cells[i]),
            )
    }

    /// Gives every cell the tile index that `f` returns for it, where `f` may
    /// carry a state from one call to the next. The cells are visited row by
    /// row, each row from its first cell to its last; `f` is called once per
    /// cell, with the state that the call before it returned, the first time
    /// with `start`. The state after the last call is handed back.
    pub fn fill_with_state<S, F: Fn(S, u32, u32) -> (S, u32)>(&mut self, start: S, f: F) -> (end: S)
        requires
            forall|s: S, x: u32, y: u32| #![trigger call_requires(f, (s, x, y))]
                old(self).in_bounds(x as int, y as int) ==> call_requires(f, (s, x, y)),
        ensures
            final(self).wf(),
            final(self).spec_width() == old(self).spec_width(),
            final(self).spec_height() == old(self).spec_height(),
            final(self)@.len() == old(self)@.len(),
            exists|states: Seq<S>|
                Self::threaded(old(self).spec_width(), f, start, states, final(self)@, end),
    {
        proof {
            use_type_invariant(&*self);
            self.lemma_positions();
        }
        let width: u32 = self.width;
        let height: u32 = self.height;
        let ghost mut states: Seq<S> = seq![start];
        let mut state: S = start;
        let mut y: u32 = 0;
        while y < height
            invariant
                y <= height,
                self.width == width,
                self.height == height,
                self.wf(),
                forall|s: S, cx: u32, cy: u32| #![trigger call_requires(f, (s, cx, cy))]
                    cx < width && cy < height ==> call_requires(f, (s, cx, cy)),
                states.len() == y * width + 1,
                states[0] == start,
                states[y * width] == state,
                forall|i: int|
                    0 <= i < y * width ==> call_ensures(
                        f,
                        (states[i], (i % width as int) as u32, (i / width as int) as u32),
                        (#[trigger] states[i + 1], self@[i]),
                    ),
            decreases height - y,
        {
            let mut x: u32 = 0;
            while x < width
                invariant
                    x <= width,
                    y < height,
                    self.width == width,
                    self.height == height,
                    self.wf(),
                    forall|s: S, cx: u32, cy: u32| #![trigger call_requires(f, (s, cx, cy))]
                        cx < width && cy < height ==> call_requires(f, (s, cx, cy)),
                    states.len() == y * width + x + 1,
                    states[0] == start,
                    states[y * width + x] == state,
                    forall|i: int|
                        0 <= i < y * width + x ==> call_ensures(
                            f,
                            (states[i], (i % width as int) as u32, (i / width as int) as u32),
                            (#[trigger] states[i + 1], self@[i]),
                        ),
                decreases width - x,
            {
                let i: usize = self.offset(x, y);
                let (next, tile) = f(state, x, y);
                let ghost before = self@;
                let ghost earlier = states;
                self.cells[i] = tile;
                proof {
                    assert(0 <= y * width) by (nonlinear_arith)
                        requires
                            0 <= y,
                            0 <= width,
                    ;
                    vstd::arithmetic::div_mod::lemma_fundamental_div_mod_converse(
                        i as int,
                        width as int,
                        y as int,
                        x as int,
                    );
                    states = states.push(next);
                    assert forall|j: int| 0 <= j < y * width + x + 1 implies call_ensures(
                        f,
                        (states[j], (j % width as int) as u32, (j / width as int) as u32),
                        (#[trigger] states[j + 1], self@[j]),
                    ) by {
                        if j < i {
                            assert(states[j] == earlier[j]);
                            assert(states[j + 1] == earlier[j + 1]);
                            assert(self@[j] == before[j]);
                        }
                    }
                }
                state = next;
                x = x + 1;
            }
            proof {
                assert(y * width + width == (y + 1) * width) by (nonlinear_arith);
            }
            y = y + 1;
        }
        proof {
            assert(height * width == width * height) by (nonlinear_arith);
            assert(Self::threaded(width as nat, f, start, states, self@, state));
        }
        state
    }
}

} // verus!
