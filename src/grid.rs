use vstd::prelude::*;

use crate::laws::lemma_dense_determined;
use crate::model::{
    lemma_index_bound, lemma_index_injective, lemma_index_order, row_major_before, row_major_sorted,
    GridView,
};

verus! {

/// Why an operation on a grid was refused.
#[derive(Debug, Clone, Copy, PartialEq, Eq, Structural)]
pub enum GridError {
    /// A coordinate outside `[0, width) x [0, height)`.
    IndexOutOfBounds,
    /// `width * height` cells do not fit in the address space.
    AllocationFailure,
}

/// One generation of the automaton: a dense occupancy table, which is the
/// authoritative state, and the list of live coordinates kept in step with it.
pub struct World {
    width: u32,
    height: u32,
    cells: Vec<bool>,
    alive: Vec<(u32, u32)>,
}

impl View for World {
    type V = GridView;

    closed spec fn view(&self) -> GridView {
        GridView {
            width: self.width as nat,
            height: self.height as nat,
            cells: self.cells@,
            alive: self.alive@,
        }
    }
}

impl World {
    /// An all-dead grid whose table size is known to fit.
    fn empty(width: u32, height: u32) -> (w: World)
        requires
            width * height <= usize::MAX,
        ensures
            w@.width == width,
            w@.height == height,
            w@.wf(),
            w@.alive.len() == 0,
            forall|k: int| 0 <= k < width * height ==> !#[trigger] w@.cells[k],
    {
        let n: usize = width as usize * height as usize;
        let mut cells: Vec<bool> = Vec::with_capacity(n);
        let mut k: usize = 0;
        while k < n
            invariant
                k <= n,
                n == width * height,
                cells@.len() == k,
                forall|i: int| 0 <= i < k ==> !#[trigger] cells@[i],
            decreases n - k,
        {
            cells.push(false);
            k += 1;
        }
        let w = World { width, height, cells, alive: Vec::new() };
        assert forall|p: (u32, u32)| #[trigger]
            w@.alive.contains(p) <==> w@.live(p.0 as int, p.1 as int) by {
            if w@.in_bounds(p.0 as int, p.1 as int) {
                lemma_index_bound(width as int, height as int, p.0 as int, p.1 as int);
            }
        }
        w
    }

    /// A `width` by `height` grid with every cell dead; fails when the
    /// table of `width * height` cells cannot be addressed.
    pub fn new(width: u32, height: u32) -> (r: Result<World, GridError>)
        ensures
            r is Ok <==> width * height <= usize::MAX,
            r is Err ==> r == Err::<World, GridError>(GridError::AllocationFailure),
            r matches Ok(w) ==> {
                &&& w@.width == width
                &&& w@.height == height
                &&& w@.wf()
                &&& w@.alive.len() == 0
                &&& forall|k: int| 0 <= k < width * height ==> !#[trigger] w@.cells[k]
            },
    {
        match (width as usize).checked_mul(height as usize) {
            None => Err(GridError::AllocationFailure),
            Some(_) => Ok(World::empty(width, height)),
        }
    }

    pub fn width(&self) -> (r: u32)
        ensures
            r == self@.width,
    {
        self.width
    }

    pub fn height(&self) -> (r: u32)
        ensures
            r == self@.height,
    {
        self.height
    }

    /// The live coordinates, each once.
    pub fn alive_cells(&self) -> (r: &Vec<(u32, u32)>)
        ensures
            r@ == self@.alive,
    {
        &self.alive
    }

    /// Table position of an in-bounds cell.
    fn index_of(&self, row: u32, col: u32) -> (r: usize)
        requires
            self@.wf(),
            self@.in_bounds(row as int, col as int),
        ensures
            r == self@.index(row as int, col as int),
            r < self@.cells.len(),
    {
        proof {
            lemma_index_bound(self.width as int, self.height as int, row as int, col as int);
        }
        row as usize * self.height as usize + col as usize
    }

    /// Whether an in-bounds cell is alive.
    fn cell(&self, row: u32, col: u32) -> (r: bool)
        requires
            self@.wf(),
            self@.in_bounds(row as int, col as int),
        ensures
            r == self@.live(row as int, col as int),
    {
        self.cells[self.index_of(row, col)]
    }

    /// Whether cell `(row, col)` is alive; out-of-range coordinates are refused.
    pub fn is_alive(&self, row: u32, col: u32) -> (r: Result<bool, GridError>)
        requires
            self@.wf(),
        ensures
            self@.in_bounds(row as int, col as int) ==> r == Ok::<bool, GridError>(
                self@.live(row as int, col as int),
            ),
            !self@.in_bounds(row as int, col as int) ==> r == Err::<bool, GridError>(
                GridError::IndexOutOfBounds,
            ),
    {
        if row < self.width && col < self.height {
            Ok(self.cell(row, col))
        } else {
            Err(GridError::IndexOutOfBounds)
        }
    }

    /// Marks cell `(row, col)` alive. A cell that is already alive is left
    /// as it is, so the live list never holds a coordinate twice;
    /// out-of-range coordinates are refused and change nothing.
    pub fn set_alive(&mut self, row: u32, col: u32) -> (r: Result<(), GridError>)
        requires
            old(self)@.wf(),
        ensures
            final(self)@.wf(),
            final(self)@.width == old(self)@.width,
            final(self)@.height == old(self)@.height,
            !old(self)@.in_bounds(row as int, col as int) ==> {
                &&& r == Err::<(), GridError>(GridError::IndexOutOfBounds)
                &&& final(self)@ == old(self)@
            },
            old(self)@.in_bounds(row as int, col as int) ==> {
                &&& r is Ok
                &&& final(self)@.cells == old(self)@.cells.update(
                    old(self)@.index(row as int, col as int),
                    true,
                )
                &&& final(self)@.alive == if old(self)@.live(row as int, col as int) {
                    old(self)@.alive
                } else {
                    old(self)@.alive.push((row, col))
                }
            },
    {
        if row >= self.width || col >= self.height {
            return Err(GridError::IndexOutOfBounds);
        }
        let idx = self.index_of(row, col);
        if self.cells[idx] {
            proof {
                assert(self@.cells.update(idx as int, true) =~= self@.cells);
            }
            return Ok(());
        }
        let ghost pre = self@;
        self.cells.set(idx, true);
        self.alive.push((row, col));
        proof {
            let post = self@;
            assert(post.alive.no_duplicates()) by {
                assert forall|i: int, j: int|
                    0 <= i < post.alive.len() && 0 <= j < post.alive.len() && i != j implies
                    post.alive[i] != post.alive[j] by {
                    if i == pre.alive.len() as int {
                        assert(pre.alive.contains(post.alive[j]));
                    } else if j == pre.alive.len() as int {
                        assert(pre.alive.contains(post.alive[i]));
                    }
                }
            }
            assert forall|p: (u32, u32)| #[trigger]
                post.alive.contains(p) <==> post.live(p.0 as int, p.1 as int) by {
                if p == (row, col) {
                    assert(post.alive[pre.alive.len() as int] == p);
                } else {
                    if pre.in_bounds(p.0 as int, p.1 as int) {
                        lemma_index_bound(pre.width as int, pre.height as int, p.0 as int, p.1 as int);
                        if pre.index(p.0 as int, p.1 as int) == idx as int {
                            lemma_index_injective(
                                pre.height as int,
                                p.0 as int,
                                p.1 as int,
                                row as int,
                                col as int,
                            );
                        }
                    }
                    if post.alive.contains(p) {
                        let i = choose|i: int| 0 <= i < post.alive.len() && post.alive[i] == p;
                        assert(pre.alive[i] == p);
                    }
                    if pre.alive.contains(p) {
                        let i = choose|i: int| 0 <= i < pre.alive.len() && pre.alive[i] == p;
                        assert(post.alive[i] == p);
                    }
                }
            }
        }
        Ok(())
    }

    /// 1 if the cell at offset `(dr, dc)` from `(row, col)` is on the grid
    /// and alive, else 0.
    fn live_offset(&self, row: u32, col: u32, dr: i8, dc: i8) -> (r: u32)
        requires
            self@.wf(),
            self@.in_bounds(row as int, col as int),
            -1 <= dr <= 1,
            -1 <= dc <= 1,
        ensures
            r == self@.live_at(row as int, col as int, dr as int, dc as int),
    {
        let r: i64 = row as i64 + dr as i64;
        let c: i64 = col as i64 + dc as i64;
        if r < 0 || c < 0 || r >= self.width as i64 || c >= self.height as i64 {
            0
        } else if self.cell(r as u32, c as u32) {
            1
        } else {
            0
        }
    }

    /// Live cells among the up to eight neighbours of `(row, col)`;
    /// neighbours off the grid are skipped.
    pub fn count_neighbors(&self, row: u32, col: u32) -> (r: u32)
        requires
            self@.wf(),
            self@.in_bounds(row as int, col as int),
        ensures
            r == self@.live_neighbors(row as int, col as int),
            r <= 8,
    {
        self.live_offset(row, col, -1, -1) + self.live_offset(row, col, -1, 0)
            + self.live_offset(row, col, -1, 1) + self.live_offset(row, col, 0, -1)
            + self.live_offset(row, col, 0, 1) + self.live_offset(row, col, 1, -1)
            + self.live_offset(row, col, 1, 0) + self.live_offset(row, col, 1, 1)
    }

    /// The next generation, built fresh from this one, which is only read.
    /// Its live cells are listed in row-major order.
    pub fn step(&self) -> (next: World)
        requires
            self@.wf(),
        ensures
            self@.is_successor(next@),
    {
        let width = self.width;
        let height = self.height;
        let ghost g = self@;
        let mut cells: Vec<bool> = Vec::with_capacity(width as usize * height as usize);
        let mut alive: Vec<(u32, u32)> = Vec::new();
        let mut row: u32 = 0;
        while row < width
            invariant
                g == self@,
                g.wf(),
                width == g.width,
                height == g.height,
                row <= width,
                cells@.len() == row * height,
                forall|r: int, c: int|
                    0 <= r < row && 0 <= c < height ==> #[trigger] cells@[r * height + c]
                        == g.next_live(r, c),
                alive@.no_duplicates(),
                row_major_sorted(alive@),
                forall|k: int| 0 <= k < alive@.len() ==> #[trigger] alive@[k].0 < row,
                forall|p: (u32, u32)| #[trigger]
                    alive@.contains(p) <==> (p.0 < row && p.1 < height && g.next_live(
                        p.0 as int,
                        p.1 as int,
                    )),
            decreases width - row,
        {
            let mut col: u32 = 0;
            while col < height
                invariant
                    g == self@,
                    g.wf(),
                    width == g.width,
                    height == g.height,
                    row < width,
                    col <= height,
                    cells@.len() == row * height + col,
                    forall|r: int, c: int|
                        0 <= r && 0 <= c < height && (r < row || (r == row && c < col))
                            ==> #[trigger] cells@[r * height + c] == g.next_live(r, c),
                    alive@.no_duplicates(),
                    row_major_sorted(alive@),
                    forall|k: int|
                        0 <= k < alive@.len() ==> row_major_before(
                            #[trigger] alive@[k],
                            (row, col),
                        ),
                    forall|p: (u32, u32)| #[trigger]
                        alive@.contains(p) <==> (row_major_before(p, (row, col))
                            && p.1 < height && g.next_live(p.0 as int, p.1 as int)),
                decreases height - col,
            {
                let n = self.count_neighbors(row, col);
                let here = self.cell(row, col);
                let live = n == 3 || (n == 2 && here);
                let ghost cells0 = cells@;
                let ghost alive0 = alive@;
                cells.push(live);
                if live {
                    alive.push((row, col));
                }
                proof {
                    assert forall|r: int, c: int|
                        0 <= r && 0 <= c < height && (r < row || (r == row && c < col + 1))
                            implies #[trigger] cells@[r * height + c] == g.next_live(r, c) by {
                        if r == row && c == col {
                        } else {
                            lemma_index_order(height as int, r, c, row as int, col as int);
                        }
                    }
                    if live {
                        assert forall|i: int, j: int|
                            0 <= i < alive@.len() && 0 <= j < alive@.len() && i != j implies
                            alive@[i] != alive@[j] by {
                            if i == alive0.len() as int {
                                assert(row_major_before(alive0[j], (row, col)));
                            } else if j == alive0.len() as int {
                                assert(row_major_before(alive0[i], (row, col)));
                            }
                        }
                        assert forall|i: int, j: int|
                            0 <= i < j < alive@.len() implies row_major_before(
                            #[trigger] alive@[i],
                            #[trigger] alive@[j],
                        ) by {
                            if j == alive0.len() as int {
                                assert(row_major_before(alive0[i], (row, col)));
                            }
                        }
                    }
                    assert forall|p: (u32, u32)| #[trigger]
                        alive@.contains(p) <==> (row_major_before(p, (row, (col + 1) as u32))
                            && p.1 < height && g.next_live(p.0 as int, p.1 as int)) by {
                        if alive@.contains(p) && p != (row, col) {
                            let i = choose|i: int| 0 <= i < alive@.len() && alive@[i] == p;
                            assert(alive0[i] == p);
                        }
                        if alive0.contains(p) {
                            let i = choose|i: int| 0 <= i < alive0.len() && alive0[i] == p;
                            assert(alive@[i] == p);
                        }
                        if p == (row, col) && live {
                            assert(alive@[alive0.len() as int] == p);
                        }
                    }
                }
                col += 1;
            }
            assert(row * height + height == (row + 1) * height) by (nonlinear_arith);
            row += 1;
        }
        let next = World { width, height, cells, alive };
        proof {
            assert forall|p: (u32, u32)| #[trigger]
                next@.alive.contains(p) <==> next@.live(p.0 as int, p.1 as int) by {
                if p.0 < width && p.1 < height {
                    lemma_index_bound(width as int, height as int, p.0 as int, p.1 as int);
                }
            }
            assert forall|r: int, c: int| g.in_bounds(r, c) implies #[trigger] next@.live(r, c)
                == g.next_live(r, c) by {
                lemma_index_bound(width as int, height as int, r, c);
            }
        }
        next
    }

    /// A fresh grid of the same dimensions, all dead, into which each
    /// coordinate of this grid's live list is set alive again.
    pub fn clone_into_new_generation(&self) -> (copy: World)
        requires
            self@.wf(),
        ensures
            copy@.wf(),
            copy@ == self@,
    {
        let mut copy = World::empty(self.width, self.height);
        let mut i: usize = 0;
        while i < self.alive.len()
            invariant
                self@.wf(),
                copy@.wf(),
                copy@.width == self@.width,
                copy@.height == self@.height,
                i <= self@.alive.len(),
                copy@.alive == self@.alive.take(i as int),
            decreases self@.alive.len() - i,
        {
            let (row, col) = self.alive[i];
            proof {
                assert(self@.alive.contains((row, col)));
                assert(!copy@.alive.contains((row, col)));
            }
            let _ = copy.set_alive(row, col);
            assert(copy@.alive =~= self@.alive.take(i + 1));
            i += 1;
        }
        proof {
            assert(copy@.alive =~= self@.alive);
            assert forall|r: int, c: int| copy@.in_bounds(r, c) implies copy@.live(r, c)
                == self@.live(r, c) by {
                assert(copy@.alive.contains((r as u32, c as u32)) == self@.alive.contains(
                    (r as u32, c as u32),
                ));
            }
            lemma_dense_determined(copy@, self@);
            assert(copy@.cells =~= self@.cells);
        }
        copy
    }

    /// Each live coordinate with its live-neighbour count, in the order of
    /// the live list.
    pub fn neighbor_report(&self) -> (r: Vec<(u32, u32, u32)>)
        requires
            self@.wf(),
        ensures
            r@.len() == self@.alive.len(),
            forall|i: int|
                0 <= i < r@.len() ==> #[trigger] r@[i] == (
                    self@.alive[i].0,
                    self@.alive[i].1,
                    self@.live_neighbors(self@.alive[i].0 as int, self@.alive[i].1 as int) as u32,
                ),
    {
        let mut out: Vec<(u32, u32, u32)> = Vec::new();
        let mut i: usize = 0;
        while i < self.alive.len()
            invariant
                self@.wf(),
                i <= self@.alive.len(),
                out@.len() == i,
                forall|k: int|
                    0 <= k < i ==> #[trigger] out@[k] == (
                        self@.alive[k].0,
                        self@.alive[k].1,
                        self@.live_neighbors(self@.alive[k].0 as int, self@.alive[k].1 as int) as u32,
                    ),
            decreases self@.alive.len() - i,
        {
            let (row, col) = self.alive[i];
            proof {
                assert(self@.alive.contains((row, col)));
            }
            let n = self.count_neighbors(row, col);
            out.push((row, col, n));
            i += 1;
        }
        out
    }
}

} // verus!
