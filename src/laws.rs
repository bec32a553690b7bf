use vstd::prelude::*;

use crate::model::{row_major_before, row_major_sorted, GridView};

verus! {

/// The dense table is determined by the dimensions and the live cells: two
/// well-formed generations of equal size with the same live cells have the
/// same table.
pub proof fn lemma_dense_determined(a: GridView, b: GridView)
    requires
        a.wf(),
        b.wf(),
        a.width == b.width,
        a.height == b.height,
        forall|r: int, c: int| a.in_bounds(r, c) ==> a.live(r, c) == b.live(r, c),
    ensures
        a.cells == b.cells,
{
    let h = a.height as int;
    assert forall|k: int| 0 <= k < a.cells.len() implies a.cells[k] == b.cells[k] by {
        let r = k / h;
        let c = k % h;
        assert(h > 0) by (nonlinear_arith)
            requires
                0 <= k < a.width * h,
        ;
        vstd::arithmetic::div_mod::lemma_fundamental_div_mod(k, h);
        assert(0 <= c < h);
        assert(0 <= r < a.width) by (nonlinear_arith)
            requires
                k == h * r + c,
                0 <= c < h,
                0 <= k < a.width * h,
        ;
        assert(r * h + c == k) by (nonlinear_arith)
            requires
                k == h * r + c,
        ;
        assert(a.live(r, c) == b.live(r, c));
    }
    assert(a.cells =~= b.cells);
}

/// Every cell has between zero and eight live neighbours, a corner cell at
/// most three, and a cell on an edge at most five.
pub proof fn lemma_neighbor_bounds(g: GridView, r: int, c: int)
    requires
        g.in_bounds(r, c),
    ensures
        0 <= g.live_neighbors(r, c) <= 8,
        (r == 0 || r == g.width - 1) && (c == 0 || c == g.height - 1) ==> g.live_neighbors(r, c)
            <= 3,
        (r == 0 || r == g.width - 1 || c == 0 || c == g.height - 1) ==> g.live_neighbors(r, c)
            <= 5,
{
}

/// Two sequences in strict row-major order that hold the same coordinates
/// are equal.
proof fn lemma_sorted_unique(s1: Seq<(u32, u32)>, s2: Seq<(u32, u32)>)
    requires
        row_major_sorted(s1),
        row_major_sorted(s2),
        forall|p: (u32, u32)| s1.contains(p) <==> s2.contains(p),
    ensures
        s1 == s2,
    decreases s1.len(),
{
    if s1.len() == 0 {
        if s2.len() > 0 {
            assert(s2.contains(s2[0]));
        }
        assert(s1 =~= s2);
    } else {
        assert(s1.contains(s1[0]));
        let j = choose|j: int| 0 <= j < s2.len() && s2[j] == s1[0];
        assert(s2.contains(s2[0]));
        let i = choose|i: int| 0 <= i < s1.len() && s1[i] == s2[0];
        if i > 0 && j > 0 {
            assert(row_major_before(s1[0], s1[i]));
            assert(row_major_before(s2[0], s2[j]));
        }
        assert(s1[0] == s2[0]);
        let t1 = s1.drop_first();
        let t2 = s2.drop_first();
        assert forall|p: (u32, u32)| t1.contains(p) <==> t2.contains(p) by {
            if t1.contains(p) {
                let k = choose|k: int| 0 <= k < t1.len() && t1[k] == p;
                assert(row_major_before(s1[0], s1[k + 1]));
                assert(s1.contains(p));
                let m = choose|m: int| 0 <= m < s2.len() && s2[m] == p;
                assert(m != 0);
                assert(t2[m - 1] == p);
            }
            if t2.contains(p) {
                let k = choose|k: int| 0 <= k < t2.len() && t2[k] == p;
                assert(row_major_before(s2[0], s2[k + 1]));
                assert(s2.contains(p));
                let m = choose|m: int| 0 <= m < s1.len() && s1[m] == p;
                assert(m != 0);
                assert(t1[m - 1] == p);
            }
        }
        assert forall|a: int, b: int| 0 <= a < b < t1.len() implies row_major_before(
            #[trigger] t1[a],
            #[trigger] t1[b],
        ) by {
            assert(row_major_before(s1[a + 1], s1[b + 1]));
        }
        assert forall|a: int, b: int| 0 <= a < b < t2.len() implies row_major_before(
            #[trigger] t2[a],
            #[trigger] t2[b],
        ) by {
            assert(row_major_before(s2[a + 1], s2[b + 1]));
        }
        lemma_sorted_unique(t1, t2);
        assert(s1 =~= s2) by {
            assert forall|k: int| 0 <= k < s1.len() implies s1[k] == s2[k] by {
                if k > 0 {
                    assert(s1[k] == t1[k - 1]);
                    assert(s2[k] == t2[k - 1]);
                }
            }
        }
    }
}

/// Stepping is deterministic: two generations of equal size with the same
/// live cells have the same successor, table and live list alike.
pub proof fn lemma_step_deterministic(a: GridView, b: GridView, na: GridView, nb: GridView)
    requires
        a.wf(),
        b.wf(),
        a.width == b.width,
        a.height == b.height,
        forall|r: int, c: int| a.in_bounds(r, c) ==> a.live(r, c) == b.live(r, c),
        a.is_successor(na),
        b.is_successor(nb),
    ensures
        na == nb,
{
    assert forall|r: int, c: int| na.in_bounds(r, c) implies na.live(r, c) == nb.live(r, c) by {
        assert(a.next_live(r, c) == b.next_live(r, c)) by {
            assert(a.live_neighbors(r, c) == b.live_neighbors(r, c));
        }
    }
    lemma_dense_determined(na, nb);
    assert forall|p: (u32, u32)| na.alive.contains(p) <==> nb.alive.contains(p) by {
        assert(na.alive.contains(p) <==> na.live(p.0 as int, p.1 as int));
        assert(nb.alive.contains(p) <==> nb.live(p.0 as int, p.1 as int));
    }
    lemma_sorted_unique(na.alive, nb.alive);
}

/// The 2 by 2 block whose top-left cell is `(a, b)`.
pub open spec fn in_block(a: int, b: int, r: int, c: int) -> bool {
    a <= r <= a + 1 && b <= c <= b + 1
}

/// Three cells in row `a`, centred on column `b`.
pub open spec fn in_row_bar(a: int, b: int, r: int, c: int) -> bool {
    r == a && b - 1 <= c <= b + 1
}

/// Three cells in column `b`, centred on row `a`.
pub open spec fn in_column_bar(a: int, b: int, r: int, c: int) -> bool {
    c == b && a - 1 <= r <= a + 1
}

/// A block of four live cells, with nothing else alive, is a still life:
/// the next generation has exactly the same live cells and table.
pub proof fn lemma_block_still_life(g: GridView, next: GridView, a: int, b: int)
    requires
        g.wf(),
        0 <= a,
        a + 1 < g.width,
        0 <= b,
        b + 1 < g.height,
        forall|r: int, c: int| #[trigger] g.live(r, c) == in_block(a, b, r, c),
        g.is_successor(next),
    ensures
        forall|r: int, c: int| #[trigger] next.live(r, c) == g.live(r, c),
        next.cells == g.cells,
{
    assert forall|r: int, c: int| #[trigger] next.live(r, c) == g.live(r, c) by {
        if g.in_bounds(r, c) {
            assert(next.live(r, c) == g.next_live(r, c));
        }
    }
    lemma_dense_determined(next, g);
}

/// A bar of three live cells in a row, with nothing else alive and room
/// around it, turns into the bar of three in the column through its middle.
pub proof fn lemma_row_bar_turns(g: GridView, next: GridView, a: int, b: int)
    requires
        1 <= a,
        a + 1 < g.width,
        1 <= b,
        b + 1 < g.height,
        forall|r: int, c: int| #[trigger] g.live(r, c) == in_row_bar(a, b, r, c),
        g.is_successor(next),
    ensures
        forall|r: int, c: int| #[trigger] next.live(r, c) == in_column_bar(a, b, r, c),
{
    assert forall|r: int, c: int| #[trigger] next.live(r, c) == in_column_bar(a, b, r, c) by {
        if g.in_bounds(r, c) {
            assert(next.live(r, c) == g.next_live(r, c));
        }
    }
}

/// A bar of three live cells in a column, with nothing else alive and room
/// around it, turns into the bar of three in the row through its middle.
pub proof fn lemma_column_bar_turns(g: GridView, next: GridView, a: int, b: int)
    requires
        1 <= a,
        a + 1 < g.width,
        1 <= b,
        b + 1 < g.height,
        forall|r: int, c: int| #[trigger] g.live(r, c) == in_column_bar(a, b, r, c),
        g.is_successor(next),
    ensures
        forall|r: int, c: int| #[trigger] next.live(r, c) == in_row_bar(a, b, r, c),
{
    assert forall|r: int, c: int| #[trigger] next.live(r, c) == in_row_bar(a, b, r, c) by {
        if g.in_bounds(r, c) {
            assert(next.live(r, c) == g.next_live(r, c));
        }
    }
}

/// The blinker has period two: a lone bar of three in a row comes back,
/// live cells and table alike, after two generations.
pub proof fn lemma_blinker_period_two(
    g: GridView,
    g1: GridView,
    g2: GridView,
    a: int,
    b: int,
)
    requires
        g.wf(),
        1 <= a,
        a + 1 < g.width,
        1 <= b,
        b + 1 < g.height,
        forall|r: int, c: int| #[trigger] g.live(r, c) == in_row_bar(a, b, r, c),
        g.is_successor(g1),
        g1.is_successor(g2),
    ensures
        forall|r: int, c: int| #[trigger] g1.live(r, c) == in_column_bar(a, b, r, c),
        forall|r: int, c: int| #[trigger] g2.live(r, c) == g.live(r, c),
        g2.cells == g.cells,
{
    lemma_row_bar_turns(g, g1, a, b);
    lemma_column_bar_turns(g1, g2, a, b);
    lemma_dense_determined(g2, g);
}

} // verus!
