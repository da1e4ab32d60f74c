//! The mathematical model of the growing lattice.
//!
//! A lattice starts as the single cell `(0, 0)` and grows by ring steps: each
//! step adds one whole row or one whole column to the occupied rectangle (the
//! frontier). A row is added when the frontier is wider than the target
//! ratio, a column otherwise, so a frontier that matches the target exactly
//! grows a column. The cells of the lattice are listed in the order in which
//! they are added; the center and the corner variants differ only in where a
//! new row or column is placed.
use vstd::prelude::*;

use crate::ratio::AspectRatio;

verus! {

/// Whether the next ring step from a `w` by `h` frontier adds a row.
pub open spec fn adds_row(ar: AspectRatio, w: int, h: int) -> bool {
    ar.is_exceeded_by(w, h)
}

/// The shape `(columns, rows)` of the frontier after one ring step.
pub open spec fn shape_grown(ar: AspectRatio, shape: (int, int)) -> (int, int) {
    if adds_row(ar, shape.0, shape.1) {
        (shape.0, shape.1 + 1)
    } else {
        (shape.0 + 1, shape.1)
    }
}

/// The shape `(columns, rows)` of the frontier after `k` ring steps; both
/// variants share it.
pub open spec fn shape_after(ar: AspectRatio, k: nat) -> (int, int)
    decreases k,
{
    if k == 0 {
        (1, 1)
    } else {
        shape_grown(ar, shape_after(ar, (k - 1) as nat))
    }
}

/// The number of cells of the frontier after `k` ring steps.
pub open spec fn area_after(ar: AspectRatio, k: nat) -> int {
    shape_after(ar, k).0 * shape_after(ar, k).1
}

/// The number of ring steps completed once `n` cells are out, counting up
/// from `k`: the largest number of steps whose frontier holds at most `n`
/// cells.
pub open spec fn rings_from(ar: AspectRatio, n: nat, k: nat) -> nat
    decreases n - k,
{
    if k < n && area_after(ar, k + 1) <= n {
        rings_from(ar, n, k + 1)
    } else {
        k
    }
}

/// The number of ring steps completed once `n` cells are out.
pub open spec fn rings_within(ar: AspectRatio, n: nat) -> nat {
    rings_from(ar, n, 0)
}

// ---------------------------------------------------------------------------
// Center variant: rows and columns are added on alternating sides.

/// A frontier of the center variant: the half-open cell rectangle
/// `[x_min, x_end) × [y_min, y_end)`, and for each axis whether its next
/// growth extends the positive side (right for x, down for y).
pub struct CenterFrontier {
    pub x_min: int,
    pub x_end: int,
    pub y_min: int,
    pub y_end: int,
    pub grow_right: bool,
    pub grow_down: bool,
}

impl CenterFrontier {
    pub open spec fn width(self) -> int {
        self.x_end - self.x_min
    }

    pub open spec fn height(self) -> int {
        self.y_end - self.y_min
    }

    /// Whether `cell` lies in the rectangle.
    pub open spec fn contains(self, cell: (int, int)) -> bool {
        self.x_min <= cell.0 < self.x_end && self.y_min <= cell.1 < self.y_end
    }
}

/// The frontier before any ring step: the seed cell alone, with both axes set
/// to grow on their positive side first.
pub open spec fn center_origin() -> CenterFrontier {
    CenterFrontier { x_min: 0, x_end: 1, y_min: 0, y_end: 1, grow_right: true, grow_down: true }
}

/// The row index a new row takes from frontier `f`.
pub open spec fn center_new_row(f: CenterFrontier) -> int {
    if f.grow_down {
        f.y_end
    } else {
        f.y_min - 1
    }
}

/// The column index a new column takes from frontier `f`.
pub open spec fn center_new_col(f: CenterFrontier) -> int {
    if f.grow_right {
        f.x_end
    } else {
        f.x_min - 1
    }
}

/// The cells that one ring step from `f` adds, in order: a row scanned left
/// to right, or a column scanned top to bottom.
pub open spec fn center_ring(ar: AspectRatio, f: CenterFrontier) -> Seq<(int, int)> {
    if adds_row(ar, f.width(), f.height()) {
        Seq::new(f.width() as nat, |i: int| (f.x_min + i, center_new_row(f)))
    } else {
        Seq::new(f.height() as nat, |i: int| (center_new_col(f), f.y_min + i))
    }
}

/// The frontier after one ring step from `f`; the side that grew flips.
pub open spec fn center_grown(ar: AspectRatio, f: CenterFrontier) -> CenterFrontier {
    if adds_row(ar, f.width(), f.height()) {
        if f.grow_down {
            CenterFrontier { y_end: f.y_end + 1, grow_down: false, ..f }
        } else {
            CenterFrontier { y_min: f.y_min - 1, grow_down: true, ..f }
        }
    } else {
        if f.grow_right {
            CenterFrontier { x_end: f.x_end + 1, grow_right: false, ..f }
        } else {
            CenterFrontier { x_min: f.x_min - 1, grow_right: true, ..f }
        }
    }
}

/// The frontier of the center variant after `k` ring steps.
pub open spec fn center_frontier(ar: AspectRatio, k: nat) -> CenterFrontier
    decreases k,
{
    if k == 0 {
        center_origin()
    } else {
        center_grown(ar, center_frontier(ar, (k - 1) as nat))
    }
}

/// All cells of the center variant up to the end of the `k`-th ring step.
pub open spec fn center_trace(ar: AspectRatio, k: nat) -> Seq<(int, int)>
    decreases k,
{
    if k == 0 {
        seq![(0int, 0int)]
    } else {
        center_trace(ar, (k - 1) as nat) + center_ring(ar, center_frontier(ar, (k - 1) as nat))
    }
}

/// The `i`-th cell (from 0) that the center variant produces.
pub open spec fn center_cell(ar: AspectRatio, i: nat) -> (int, int) {
    center_trace(ar, i)[i as int]
}

// ---------------------------------------------------------------------------
// Corner variant: rows are added below, columns to the right.

/// The cells that one ring step from a `shape.0` by `shape.1` block at the
/// origin adds: the row below it scanned left to right, or the column to its
/// right scanned top to bottom.
pub open spec fn corner_ring(ar: AspectRatio, shape: (int, int)) -> Seq<(int, int)> {
    if adds_row(ar, shape.0, shape.1) {
        Seq::new(shape.0 as nat, |i: int| (i, shape.1))
    } else {
        Seq::new(shape.1 as nat, |i: int| (shape.0, i))
    }
}

/// All cells of the corner variant up to the end of the `k`-th ring step.
pub open spec fn corner_trace(ar: AspectRatio, k: nat) -> Seq<(int, int)>
    decreases k,
{
    if k == 0 {
        seq![(0int, 0int)]
    } else {
        corner_trace(ar, (k - 1) as nat) + corner_ring(ar, shape_after(ar, (k - 1) as nat))
    }
}

/// The `i`-th cell (from 0) that the corner variant produces.
pub open spec fn corner_cell(ar: AspectRatio, i: nat) -> (int, int) {
    corner_trace(ar, i)[i as int]
}

/// The extent `(columns, rows)` of the block that the corner variant has
/// completed once `n` cells are out; nothing is occupied before the first.
pub open spec fn corner_extent(ar: AspectRatio, n: nat) -> (int, int) {
    if n == 0 {
        (0, 0)
    } else {
        shape_after(ar, rings_within(ar, n))
    }
}

// ---------------------------------------------------------------------------
// Facts about the model that the engines rely on.

/// Before any ring step the frontier is the seed cell alone.
pub proof fn lemma_origin(ar: AspectRatio)
    ensures
        shape_after(ar, 0) == (1int, 1int),
        area_after(ar, 0) == 1,
        center_frontier(ar, 0) == center_origin(),
{
    assert(shape_after(ar, 0) == (1int, 1int));
}

/// Every frontier is at least one cell wide and one cell tall.
pub proof fn lemma_shape_positive(ar: AspectRatio, k: nat)
    ensures
        shape_after(ar, k).0 >= 1,
        shape_after(ar, k).1 >= 1,
    decreases k,
{
    if k > 0 {
        lemma_shape_positive(ar, (k - 1) as nat);
    }
}

/// One ring step adds exactly one row or one column to the frontier's area.
pub proof fn lemma_area_step(ar: AspectRatio, k: nat)
    ensures
        area_after(ar, k + 1) == area_after(ar, k) + (if adds_row(
            ar,
            shape_after(ar, k).0,
            shape_after(ar, k).1,
        ) {
            shape_after(ar, k).0
        } else {
            shape_after(ar, k).1
        }),
        area_after(ar, k) < area_after(ar, k + 1),
        area_after(ar, k) >= shape_after(ar, k).0,
        area_after(ar, k) >= shape_after(ar, k).1,
{
    lemma_shape_positive(ar, k);
    let w = shape_after(ar, k).0;
    let h = shape_after(ar, k).1;
    assert(shape_after(ar, k + 1) == shape_grown(ar, shape_after(ar, k)));
    assert(w * (h + 1) == w * h + w) by (nonlinear_arith);
    assert((w + 1) * h == w * h + h) by (nonlinear_arith);
    assert(w * h >= w) by (nonlinear_arith)
        requires
            h >= 1,
            w >= 1,
    ;
    assert(w * h >= h) by (nonlinear_arith)
        requires
            h >= 1,
            w >= 1,
    ;
}

/// The area strictly grows with the number of ring steps.
pub proof fn lemma_area_increasing(ar: AspectRatio, j: nat, k: nat)
    requires
        j < k,
    ensures
        area_after(ar, j) < area_after(ar, k),
    decreases k,
{
    lemma_area_step(ar, (k - 1) as nat);
    if j < k - 1 {
        lemma_area_increasing(ar, j, (k - 1) as nat);
    }
}

/// After `k` ring steps the frontier holds more than `k` cells.
pub proof fn lemma_area_exceeds_steps(ar: AspectRatio, k: nat)
    ensures
        area_after(ar, k) >= k + 1,
    decreases k,
{
    if k == 0 {
        assert(area_after(ar, 0) == 1);
    } else {
        lemma_area_exceeds_steps(ar, (k - 1) as nat);
        lemma_area_step(ar, (k - 1) as nat);
    }
}

/// Counting up from `k`, the completed steps bracket `n`.
proof fn lemma_rings_from(ar: AspectRatio, n: nat, k: nat)
    requires
        area_after(ar, k) <= n,
    ensures
        area_after(ar, rings_from(ar, n, k)) <= n < area_after(ar, rings_from(ar, n, k) + 1),
    decreases n - k,
{
    if k < n && area_after(ar, k + 1) <= n {
        lemma_rings_from(ar, n, k + 1);
    } else if k >= n {
        lemma_area_exceeds_steps(ar, k + 1);
    }
}

/// Once `n >= 1` cells are out, the completed steps are the only `k` whose
/// frontier holds at most `n` cells while the next one holds more.
pub proof fn lemma_rings_within(ar: AspectRatio, n: nat, k: nat)
    requires
        n >= 1,
    ensures
        area_after(ar, rings_within(ar, n)) <= n < area_after(ar, rings_within(ar, n) + 1),
        area_after(ar, k) <= n < area_after(ar, k + 1) ==> rings_within(ar, n) == k,
{
    assert(area_after(ar, 0) == 1);
    lemma_rings_from(ar, n, 0);
    let r = rings_within(ar, n);
    if area_after(ar, k) <= n < area_after(ar, k + 1) {
        if k < r {
            if k + 1 < r {
                lemma_area_increasing(ar, k + 1, r);
            }
        } else if r < k {
            lemma_area_increasing(ar, r + 1, k);
        }
    }
}

/// The center frontier has the shared shape and always holds the seed cell.
pub proof fn lemma_center_frontier_shape(ar: AspectRatio, k: nat)
    ensures
        center_frontier(ar, k).width() == shape_after(ar, k).0,
        center_frontier(ar, k).height() == shape_after(ar, k).1,
        center_frontier(ar, k).x_min <= 0 < center_frontier(ar, k).x_end,
        center_frontier(ar, k).y_min <= 0 < center_frontier(ar, k).y_end,
    decreases k,
{
    if k > 0 {
        lemma_center_frontier_shape(ar, (k - 1) as nat);
    }
}

/// The cells up to the end of `k` steps number as many as the frontier holds.
pub proof fn lemma_center_trace_len(ar: AspectRatio, k: nat)
    ensures
        center_trace(ar, k).len() == area_after(ar, k),
    decreases k,
{
    if k == 0 {
        assert(area_after(ar, 0) == 1);
    } else {
        let j = (k - 1) as nat;
        lemma_center_trace_len(ar, j);
        lemma_center_frontier_shape(ar, j);
        lemma_area_step(ar, j);
    }
}

/// The corner variant's cells up to the end of `k` steps number as many as
/// its frontier holds.
pub proof fn lemma_corner_trace_len(ar: AspectRatio, k: nat)
    ensures
        corner_trace(ar, k).len() == area_after(ar, k),
    decreases k,
{
    if k == 0 {
        assert(area_after(ar, 0) == 1);
    } else {
        let j = (k - 1) as nat;
        lemma_corner_trace_len(ar, j);
        lemma_shape_positive(ar, j);
        lemma_area_step(ar, j);
    }
}

/// Later steps only append: the cells up to step `j` open those up to `k`.
pub proof fn lemma_center_trace_prefix(ar: AspectRatio, j: nat, k: nat)
    requires
        j <= k,
    ensures
        center_trace(ar, j).len() <= center_trace(ar, k).len(),
        forall|i: int|
            0 <= i < center_trace(ar, j).len() ==> center_trace(ar, k)[i] == center_trace(ar, j)[i],
    decreases k,
{
    if j < k {
        lemma_center_trace_prefix(ar, j, (k - 1) as nat);
    }
}

/// Later steps only append, for the corner variant.
pub proof fn lemma_corner_trace_prefix(ar: AspectRatio, j: nat, k: nat)
    requires
        j <= k,
    ensures
        corner_trace(ar, j).len() <= corner_trace(ar, k).len(),
        forall|i: int|
            0 <= i < corner_trace(ar, j).len() ==> corner_trace(ar, k)[i] == corner_trace(ar, j)[i],
    decreases k,
{
    if j < k {
        lemma_corner_trace_prefix(ar, j, (k - 1) as nat);
    }
}

/// The `i`-th cell of the center variant is the `i`-th cell of any trace
/// long enough to hold it.
pub proof fn lemma_center_cell_at(ar: AspectRatio, k: nat, i: nat)
    requires
        i < center_trace(ar, k).len(),
    ensures
        center_cell(ar, i) == center_trace(ar, k)[i as int],
{
    lemma_center_trace_len(ar, i);
    lemma_area_exceeds_steps(ar, i);
    if i <= k {
        lemma_center_trace_prefix(ar, i, k);
    } else {
        lemma_center_trace_prefix(ar, k, i);
    }
}

/// The `i`-th cell of the corner variant is the `i`-th cell of any trace
/// long enough to hold it.
pub proof fn lemma_corner_cell_at(ar: AspectRatio, k: nat, i: nat)
    requires
        i < corner_trace(ar, k).len(),
    ensures
        corner_cell(ar, i) == corner_trace(ar, k)[i as int],
{
    lemma_corner_trace_len(ar, i);
    lemma_area_exceeds_steps(ar, i);
    if i <= k {
        lemma_corner_trace_prefix(ar, i, k);
    } else {
        lemma_corner_trace_prefix(ar, k, i);
    }
}

} // verus!
