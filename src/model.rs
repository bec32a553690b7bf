use vstd::prelude::*;

verus! {

/// The Game of Life rule: birth on exactly three live neighbours,
/// survival on two or three, death otherwise.
pub open spec fn next_state(current: bool, neighbors: int) -> bool {
    neighbors == 3 || (neighbors == 2 && current)
}

/// Row-major order on coordinates: by row first, then by column.
pub open spec fn row_major_before(p: (u32, u32), q: (u32, u32)) -> bool {
    p.0 < q.0 || (p.0 == q.0 && p.1 < q.1)
}

/// Each coordinate of `s` comes strictly before the next in row-major order.
pub open spec fn row_major_sorted(s: Seq<(u32, u32)>) -> bool {
    forall|i: int, j: int|
        0 <= i < j < s.len() ==> row_major_before(#[trigger] s[i], #[trigger] s[j])
}

/// One generation: its dimensions, the dense occupancy table (cell `(r, c)`
/// at position `r * height + c`), and the sequence of live coordinates.
pub struct GridView {
    pub width: nat,
    pub height: nat,
    pub cells: Seq<bool>,
    pub alive: Seq<(u32, u32)>,
}

impl GridView {
    pub open spec fn in_bounds(self, r: int, c: int) -> bool {
        0 <= r < self.width && 0 <= c < self.height
    }

    pub open spec fn index(self, r: int, c: int) -> int {
        r * self.height + c
    }

    /// Whether cell `(r, c)` is alive; cells off the grid are dead.
    pub open spec fn live(self, r: int, c: int) -> bool {
        self.in_bounds(r, c) && self.cells[self.index(r, c)]
    }

    /// The table has one entry per cell, and the live sequence lists every
    /// live cell exactly once and nothing else.
    pub open spec fn wf(self) -> bool {
        &&& self.width * self.height <= usize::MAX
        &&& self.cells.len() == self.width * self.height
        &&& self.alive.no_duplicates()
        &&& forall|p: (u32, u32)| #[trigger]
            self.alive.contains(p) <==> self.live(p.0 as int, p.1 as int)
    }

    /// 1 if the cell at offset `(dr, dc)` from `(r, c)` is alive, else 0.
    pub open spec fn live_at(self, r: int, c: int, dr: int, dc: int) -> int {
        if self.live(r + dr, c + dc) {
            1
        } else {
            0
        }
    }

    /// Live cells among the (up to) eight neighbours of `(r, c)`.
    pub open spec fn live_neighbors(self, r: int, c: int) -> int {
        self.live_at(r, c, -1, -1) + self.live_at(r, c, -1, 0) + self.live_at(r, c, -1, 1)
            + self.live_at(r, c, 0, -1) + self.live_at(r, c, 0, 1) + self.live_at(r, c, 1, -1)
            + self.live_at(r, c, 1, 0) + self.live_at(r, c, 1, 1)
    }

    /// Whether `(r, c)` is alive in the next generation.
    pub open spec fn next_live(self, r: int, c: int) -> bool {
        next_state(self.live(r, c), self.live_neighbors(r, c))
    }

    /// `next` is the generation that follows `self`: same dimensions, the
    /// rule applied to every cell, live cells listed in row-major order.
    pub open spec fn is_successor(self, next: GridView) -> bool {
        &&& next.width == self.width
        &&& next.height == self.height
        &&& next.wf()
        &&& forall|r: int, c: int|
            self.in_bounds(r, c) ==> #[trigger] next.live(r, c) == self.next_live(r, c)
        &&& row_major_sorted(next.alive)
    }
}

/// Cells before `(r2, c2)` in row-major order have smaller table positions.
pub proof fn lemma_index_order(h: int, r1: int, c1: int, r2: int, c2: int)
    requires
        0 <= c1 < h,
        0 <= c2 < h,
        0 <= r1,
        r1 < r2 || (r1 == r2 && c1 < c2),
    ensures
        r1 * h + c1 < r2 * h + c2,
{
    if r1 < r2 {
        assert(r1 * h + h <= r2 * h) by (nonlinear_arith)
            requires
                r1 < r2,
                0 <= h,
        ;
    }
}

/// Distinct cells of the grid have distinct table positions.
pub proof fn lemma_index_injective(h: int, r1: int, c1: int, r2: int, c2: int)
    requires
        0 <= c1 < h,
        0 <= c2 < h,
        0 <= r1,
        0 <= r2,
        r1 * h + c1 == r2 * h + c2,
    ensures
        r1 == r2 && c1 == c2,
{
    if r1 < r2 || (r1 == r2 && c1 < c2) {
        lemma_index_order(h, r1, c1, r2, c2);
    } else if r2 < r1 || (r1 == r2 && c2 < c1) {
        lemma_index_order(h, r2, c2, r1, c1);
    }
}

/// Every cell of a `w` by `h` grid has a position inside the table.
pub proof fn lemma_index_bound(w: int, h: int, r: int, c: int)
    requires
        0 <= r < w,
        0 <= c < h,
    ensures
        0 <= r * h + c < w * h,
{
    lemma_index_order(h, r, c, w, 0);
    assert(0 <= r * h) by (nonlinear_arith)
        requires
            0 <= r,
            0 <= h,
    ;
}

} // verus!
