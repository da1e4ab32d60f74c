//! Laws of the growing lattice, stated over the model that the growers'
//! contracts speak of.
use vstd::prelude::*;

use axgeom::Vec2;

use crate::geom::cell_of;
use crate::geom::ucell_of;
use crate::lattice::adds_row;
use crate::lattice::area_after;
use crate::lattice::center_cell;
use crate::lattice::center_frontier;
use crate::lattice::center_grown;
use crate::lattice::center_ring;
use crate::lattice::center_trace;
use crate::lattice::corner_cell;
use crate::lattice::corner_extent;
use crate::lattice::corner_ring;
use crate::lattice::corner_trace;
use crate::lattice::lemma_area_step;
use crate::lattice::lemma_center_frontier_shape;
use crate::lattice::lemma_center_trace_len;
use crate::lattice::lemma_corner_trace_len;
use crate::lattice::lemma_origin;
use crate::lattice::lemma_shape_positive;
use crate::lattice::shape_after;
use crate::lattice::shape_grown;
use crate::ratio::AspectRatio;

verus! {

/// Both variants start at the cell `(0, 0)`: the center variant's first
/// point is the seed, the corner variant's is the seed plus one spacing on
/// each axis.
pub proof fn lemma_first_cell(ar: AspectRatio)
    ensures
        center_cell(ar, 0) == (0int, 0int),
        corner_cell(ar, 0) == (0int, 0int),
{
    lemma_origin(ar);
}

/// Each ring step adds exactly as many cells to the frontier's area as it
/// hands out, at least one, so the area never shrinks; after `k` steps the
/// area equals the number of cells handed out. Both variants agree on it.
pub proof fn lemma_frontier_area_grows(ar: AspectRatio, k: nat)
    ensures
        area_after(ar, k + 1) == area_after(ar, k) + center_ring(ar, center_frontier(ar, k)).len(),
        area_after(ar, k + 1) == area_after(ar, k) + corner_ring(ar, shape_after(ar, k)).len(),
        area_after(ar, k) < area_after(ar, k + 1),
        center_trace(ar, k).len() == area_after(ar, k),
        corner_trace(ar, k).len() == area_after(ar, k),
{
    lemma_center_frontier_shape(ar, k);
    lemma_shape_positive(ar, k);
    lemma_area_step(ar, k);
    lemma_center_trace_len(ar, k);
    lemma_corner_trace_len(ar, k);
}

/// Both variants share their control logic: after every ring step the
/// center variant's frontier has the same number of columns and rows as the
/// corner variant's block.
pub proof fn lemma_variants_share_shape(ar: AspectRatio, k: nat)
    ensures
        center_frontier(ar, k).width() == shape_after(ar, k).0,
        center_frontier(ar, k).height() == shape_after(ar, k).1,
{
    lemma_center_frontier_shape(ar, k);
}

/// After every ring step the frontier's shape stays within one column and
/// one row of a valid target ratio `A : B`: with `w` columns and `h` rows,
/// `(w - 1) / h <= A / B < w / (h - 1)`, that is
/// `w * B - h * A <= B` and `h * A - w * B < A`. As the lattice grows, `w / h`
/// therefore differs from `A / B` by at most `max(A, B) / (h * B)`.
pub proof fn lemma_shape_tracks_ratio(ar: AspectRatio, k: nat)
    requires
        ar.is_valid(),
    ensures
        (shape_after(ar, k).0 - 1) * ar.height <= shape_after(ar, k).1 * ar.width,
        (shape_after(ar, k).1 - 1) * ar.width < shape_after(ar, k).0 * ar.height,
    decreases k,
{
    let a = ar.width as int;
    let b = ar.height as int;
    if k == 0 {
        lemma_origin(ar);
        assert(0 * b <= 1 * a && 0 * a < 1 * b);
    } else {
        let j = (k - 1) as nat;
        lemma_shape_tracks_ratio(ar, j);
        let w = shape_after(ar, j).0;
        let h = shape_after(ar, j).1;
        assert(shape_after(ar, k) == shape_grown(ar, (w, h)));
        if adds_row(ar, w, h) {
            assert(shape_after(ar, k) == (w, h + 1));
            assert((h + 1 - 1) * a == h * a);
            assert((w - 1) * b <= (h + 1) * a) by (nonlinear_arith)
                requires
                    (w - 1) * b <= h * a,
                    a >= 0,
            ;
        } else {
            assert(shape_after(ar, k) == (w + 1, h));
            assert((w + 1 - 1) * b == w * b);
            assert((h - 1) * a < (w + 1) * b) by (nonlinear_arith)
                requires
                    (h - 1) * a < w * b,
                    b >= 0,
            ;
        }
    }
}

/// The center variant has no hidden state: two runs on the same ratio and
/// count that meet `from_center`'s contract hand out the same cells.
pub proof fn lemma_center_deterministic(
    ar: AspectRatio,
    num: nat,
    a: Seq<Vec2<isize>>,
    b: Seq<Vec2<isize>>,
)
    requires
        a.len() == num,
        b.len() == num,
        forall|i: int| 0 <= i < num ==> cell_of(#[trigger] a[i]) == center_cell(ar, i as nat),
        forall|i: int| 0 <= i < num ==> cell_of(#[trigger] b[i]) == center_cell(ar, i as nat),
    ensures
        a == b,
{
    assert forall|i: int| 0 <= i < num implies a[i] == b[i] by {
        assert(cell_of(a[i]) == cell_of(b[i]));
    }
    assert(a =~= b);
}

/// The corner variant has no hidden state: two runs on the same ratio and
/// count that meet `from_top_left`'s contract hand out the same cells and
/// report the same extent.
pub proof fn lemma_corner_deterministic(
    ar: AspectRatio,
    num: nat,
    a: (Seq<Vec2<usize>>, Vec2<usize>),
    b: (Seq<Vec2<usize>>, Vec2<usize>),
)
    requires
        a.0.len() == num,
        b.0.len() == num,
        forall|i: int| 0 <= i < num ==> ucell_of(#[trigger] a.0[i]) == corner_cell(ar, i as nat),
        forall|i: int| 0 <= i < num ==> ucell_of(#[trigger] b.0[i]) == corner_cell(ar, i as nat),
        ucell_of(a.1) == corner_extent(ar, num),
        ucell_of(b.1) == corner_extent(ar, num),
    ensures
        a == b,
{
    assert forall|i: int| 0 <= i < num implies a.0[i] == b.0[i] by {
        assert(ucell_of(a.0[i]) == ucell_of(b.0[i]));
    }
    assert(a.0 =~= b.0);
}

/// The center variant never hands out a cell twice, and after every ring
/// step the cells handed out are exactly the cells of the frontier.
pub proof fn lemma_center_frontier_filled(ar: AspectRatio, k: nat)
    ensures
        center_trace(ar, k).no_duplicates(),
        forall|c: (int, int)|
            center_frontier(ar, k).contains(c) <==> #[trigger] center_trace(ar, k).contains(c),
    decreases k,
{
    if k == 0 {
        lemma_origin(ar);
        let t = center_trace(ar, 0);
        assert(t =~= seq![(0int, 0int)]);
        assert forall|c: (int, int)| center_frontier(ar, 0).contains(c) <==> #[trigger] t.contains(c) by {
            if center_frontier(ar, 0).contains(c) {
                assert(t[0] == c);
            }
        }
    } else {
        let j = (k - 1) as nat;
        lemma_center_frontier_filled(ar, j);
        lemma_center_frontier_shape(ar, j);
        let f = center_frontier(ar, j);
        let g = center_frontier(ar, k);
        let t = center_trace(ar, j);
        let ring = center_ring(ar, f);
        let u = center_trace(ar, k);
        assert(g == center_grown(ar, f));
        assert(u == t + ring);
        assert forall|i: int| 0 <= i < ring.len() implies !f.contains(ring[i]) && g.contains(
            ring[i],
        ) by {}
        assert forall|i: int, m: int| 0 <= i < m < ring.len() implies ring[i] != ring[m] by {}
        assert forall|i: int, m: int| 0 <= i < m < u.len() implies u[i] != u[m] by {
            if m < t.len() {
                assert(t[i] != t[m]);
            } else if i < t.len() {
                assert(t.contains(t[i]));
                assert(f.contains(u[i]));
                assert(u[m] == ring[m - t.len()]);
            } else {
                assert(u[i] == ring[i - t.len()]);
                assert(u[m] == ring[m - t.len()]);
            }
        }
        assert forall|c: (int, int)| g.contains(c) <==> #[trigger] u.contains(c) by {
            if u.contains(c) {
                let i = choose|i: int| 0 <= i < u.len() && u[i] == c;
                if i < t.len() {
                    assert(t[i] == c);
                    assert(t.contains(c));
                } else {
                    assert(ring[i - t.len()] == c);
                }
            }
            if g.contains(c) {
                if f.contains(c) {
                    assert(t.contains(c));
                    let i = choose|i: int| 0 <= i < t.len() && t[i] == c;
                    assert(u[i] == c);
                } else if adds_row(ar, f.width(), f.height()) {
                    let i = c.0 - f.x_min;
                    assert(ring[i] == c);
                    assert(u[t.len() + i] == c);
                } else {
                    let i = c.1 - f.y_min;
                    assert(ring[i] == c);
                    assert(u[t.len() + i] == c);
                }
            }
        }
    }
}

/// The corner variant never hands out a cell twice, and after every ring
/// step the cells handed out are exactly the cells of the block
/// `[0, w) × [0, h)`.
pub proof fn lemma_corner_frontier_filled(ar: AspectRatio, k: nat)
    ensures
        corner_trace(ar, k).no_duplicates(),
        forall|c: (int, int)|
            (0 <= c.0 < shape_after(ar, k).0 && 0 <= c.1 < shape_after(ar, k).1)
                <==> #[trigger] corner_trace(ar, k).contains(c),
    decreases k,
{
    if k == 0 {
        lemma_origin(ar);
        let t = corner_trace(ar, 0);
        assert(t =~= seq![(0int, 0int)]);
        assert forall|c: (int, int)|
            (0 <= c.0 < shape_after(ar, 0).0 && 0 <= c.1 < shape_after(ar, 0).1)
                <==> #[trigger] t.contains(c) by {
            if 0 <= c.0 < 1 && 0 <= c.1 < 1 {
                assert(t[0] == c);
            }
        }
    } else {
        let j = (k - 1) as nat;
        lemma_corner_frontier_filled(ar, j);
        lemma_shape_positive(ar, j);
        let w = shape_after(ar, j).0;
        let h = shape_after(ar, j).1;
        let t = corner_trace(ar, j);
        let ring = corner_ring(ar, (w, h));
        let u = corner_trace(ar, k);
        let s = shape_after(ar, k);
        assert(s == shape_grown(ar, (w, h)));
        assert(u == t + ring);
        assert forall|i: int| 0 <= i < ring.len() implies !(0 <= (#[trigger] ring[i]).0 < w && 0
            <= ring[i].1 < h) && (0 <= ring[i].0 < s.0 && 0 <= ring[i].1 < s.1) by {}
        assert forall|i: int, m: int| 0 <= i < m < ring.len() implies ring[i] != ring[m] by {}
        assert forall|i: int, m: int| 0 <= i < m < u.len() implies u[i] != u[m] by {
            if m < t.len() {
                assert(t[i] != t[m]);
            } else if i < t.len() {
                assert(t.contains(t[i]));
                assert(u[m] == ring[m - t.len()]);
            } else {
                assert(u[i] == ring[i - t.len()]);
                assert(u[m] == ring[m - t.len()]);
            }
        }
        assert forall|c: (int, int)| (0 <= c.0 < s.0 && 0 <= c.1 < s.1) <==> #[trigger] u.contains(c) by {
            if u.contains(c) {
                let i = choose|i: int| 0 <= i < u.len() && u[i] == c;
                if i < t.len() {
                    assert(t[i] == c);
                    assert(t.contains(c));
                } else {
                    assert(ring[i - t.len()] == c);
                }
            }
            if 0 <= c.0 < s.0 && 0 <= c.1 < s.1 {
                if 0 <= c.0 < w && 0 <= c.1 < h {
                    assert(t.contains(c));
                    let i = choose|i: int| 0 <= i < t.len() && t[i] == c;
                    assert(u[i] == c);
                } else if adds_row(ar, w, h) {
                    assert(ring[c.0] == c);
                    assert(u[t.len() + c.0] == c);
                } else {
                    assert(ring[c.1] == c);
                    assert(u[t.len() + c.1] == c);
                }
            }
        }
    }
}

} // verus!
