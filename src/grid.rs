//! Lattices grown ring by ring toward a target aspect ratio.
//!
//! Each grower hands out lattice cells, one per call of `next`, in the order
//! of the model in `lattice`; the point of a cell is the seed plus the cell
//! times the spacing, which the caller computes.
use vstd::prelude::*;

use axgeom::vec2;
use axgeom::vec2same;
use axgeom::Rect;
use axgeom::Vec2;

use crate::geom::cell_of;
use crate::geom::ucell_of;
use crate::lattice::adds_row;
use crate::lattice::area_after;
use crate::lattice::center_cell;
use crate::lattice::center_frontier;
use crate::lattice::corner_cell;
use crate::lattice::corner_extent;
use crate::lattice::lemma_area_step;
use crate::lattice::lemma_center_cell_at;
use crate::lattice::lemma_center_frontier_shape;
use crate::lattice::lemma_center_trace_len;
use crate::lattice::lemma_corner_cell_at;
use crate::lattice::lemma_corner_trace_len;
use crate::lattice::lemma_origin;
use crate::lattice::lemma_rings_within;
use crate::lattice::lemma_shape_positive;
use crate::lattice::shape_after;
use crate::lattice::CenterFrontier;
use crate::ratio::AspectRatio;

verus! {

/// Grows a lattice from the seed cell `(0, 0)` in all four directions: new
/// rows go alternately below and above, new columns alternately right and
/// left. Hands out at most `num` cells.
pub struct CenterGrower {
    aspect_ratio: AspectRatio,
    num: usize,
    emitted: usize,
    /// The completed frontier, as half-open ranges of cell indices.
    rect: Rect<isize>,
    /// Per axis, whether the next growth extends the positive side.
    grow: Vec2<bool>,
    /// How many cells of the ring step in progress are already out.
    step: usize,
    /// How many ring steps are complete.
    rings: Ghost<nat>,
}

impl CenterGrower {
    /// The target ratio the lattice is steered toward.
    pub closed spec fn aspect_ratio(self) -> AspectRatio {
        self.aspect_ratio
    }

    /// The number of cells the grower hands out in all.
    pub closed spec fn limit(self) -> nat {
        self.num as nat
    }

    /// The number of cells handed out so far.
    pub closed spec fn emitted(self) -> nat {
        self.emitted as nat
    }

    spec fn frontier_model(self) -> CenterFrontier {
        CenterFrontier {
            x_min: self.rect.x.start as int,
            x_end: self.rect.x.end as int,
            y_min: self.rect.y.start as int,
            y_end: self.rect.y.end as int,
            grow_right: self.grow.x,
            grow_down: self.grow.y,
        }
    }

    spec fn ring_len(self) -> int {
        let f = self.frontier_model();
        if adds_row(self.aspect_ratio, f.width(), f.height()) {
            f.width()
        } else {
            f.height()
        }
    }

    /// The grower's state is consistent: the frontier, the ring step in
    /// progress and the count of cells handed out agree with the model.
    pub closed spec fn wf(self) -> bool {
        &&& self.emitted <= self.num <= isize::MAX
        &&& self.frontier_model() == center_frontier(self.aspect_ratio, self.rings@)
        &&& self.step < self.ring_len()
        &&& self.emitted == 0 ==> self.rings@ == 0 && self.step == 0
        &&& self.emitted > 0 ==> self.emitted == area_after(self.aspect_ratio, self.rings@)
            + self.step
    }

    /// A grower that hands out `num` cells, steered toward `aspect_ratio`.
    /// Cell indices are `isize`, so `num` is bounded by `isize::MAX`.
    pub fn new(aspect_ratio: AspectRatio, num: usize) -> (g: CenterGrower)
        requires
            aspect_ratio.is_valid(),
            num <= isize::MAX,
        ensures
            g.wf(),
            g.aspect_ratio() == aspect_ratio,
            g.limit() == num,
            g.emitted() == 0,
    {
        CenterGrower {
            aspect_ratio,
            num,
            emitted: 0,
            rect: Rect::new(0isize, 1, 0, 1),
            grow: vec2same(true),
            step: 0,
            rings: Ghost(0),
        }
    }

    /// The next cell of the lattice, or `None` once `num` cells are out (and
    /// on every call after that).
    pub fn next(&mut self) -> (r: Option<Vec2<isize>>)
        requires
            old(self).wf(),
        ensures
            final(self).wf(),
            final(self).aspect_ratio() == old(self).aspect_ratio(),
            final(self).limit() == old(self).limit(),
            if old(self).emitted() < old(self).limit() {
                &&& final(self).emitted() == old(self).emitted() + 1
                &&& r matches Some(c) && cell_of(c) == center_cell(
                    old(self).aspect_ratio(),
                    old(self).emitted(),
                )
            } else {
                &&& final(self).emitted() == old(self).emitted()
                &&& r is None
            },
    {
        if self.emitted == self.num {
            return None;
        }
        let ghost ar = self.aspect_ratio;
        let ghost k = self.rings@;
        let ghost e = self.emitted as nat;
        if self.emitted == 0 {
            self.emitted = 1;
            proof {
                lemma_origin(ar);
            }
            return Some(vec2(0isize, 0isize));
        }
        proof {
            lemma_center_frontier_shape(ar, k);
            lemma_center_frontier_shape(ar, k + 1);
            lemma_shape_positive(ar, k + 1);
            lemma_area_step(ar, k);
            lemma_center_trace_len(ar, k);
            lemma_center_trace_len(ar, k + 1);
            lemma_center_cell_at(ar, k + 1, e);
        }
        let w = self.rect.x.end - self.rect.x.start;
        let h = self.rect.y.end - self.rect.y.start;
        let step = self.step as isize;
        let cell;
        if self.aspect_ratio.exceeded_by(w as u64, h as u64) {
            let row = if self.grow.y {
                self.rect.y.end
            } else {
                self.rect.y.start - 1
            };
            cell = vec2(self.rect.x.start + step, row);
            if step + 1 == w {
                if self.grow.y {
                    self.rect.y.end = self.rect.y.end + 1;
                } else {
                    self.rect.y.start = self.rect.y.start - 1;
                }
                self.grow.y = !self.grow.y;
                self.step = 0;
                self.rings = Ghost(k + 1);
            } else {
                self.step = self.step + 1;
            }
        } else {
            let col = if self.grow.x {
                self.rect.x.end
            } else {
                self.rect.x.start - 1
            };
            cell = vec2(col, self.rect.y.start + step);
            if step + 1 == h {
                if self.grow.x {
                    self.rect.x.end = self.rect.x.end + 1;
                } else {
                    self.rect.x.start = self.rect.x.start - 1;
                }
                self.grow.x = !self.grow.x;
                self.step = 0;
                self.rings = Ghost(k + 1);
            } else {
                self.step = self.step + 1;
            }
        }
        self.emitted = self.emitted + 1;
        Some(cell)
    }
}

/// The first `num` cells of the lattice grown from the center toward
/// `aspect_ratio`, in the order they are added. The point of cell `c` is
/// `seed + c * spacing`, so the first point is the seed itself.
pub fn from_center(aspect_ratio: AspectRatio, num: usize) -> (cells: Vec<Vec2<isize>>)
    requires
        aspect_ratio.is_valid(),
        num <= isize::MAX,
    ensures
        cells@.len() == num,
        forall|i: int| 0 <= i < num ==> cell_of(#[trigger] cells@[i]) == center_cell(aspect_ratio, i as nat),
{
    let mut g = CenterGrower::new(aspect_ratio, num);
    let mut cells: Vec<Vec2<isize>> = Vec::new();
    while cells.len() < num
        invariant
            g.wf(),
            g.aspect_ratio() == aspect_ratio,
            g.limit() == num,
            g.emitted() == cells@.len(),
            forall|i: int| 0 <= i < cells@.len() ==> cell_of(#[trigger] cells@[i]) == center_cell(aspect_ratio, i as nat),
        decreases num - cells@.len(),
    {
        if let Some(c) = g.next() {
            cells.push(c);
        }
    }
    cells
}

/// Grows a lattice from the corner cell `(0, 0)` toward positive indices
/// only: new rows go below the block, new columns to its right. Hands out at
/// most `num` cells.
pub struct CornerGrower {
    aspect_ratio: AspectRatio,
    num: usize,
    emitted: usize,
    /// The completed block: `dim.x` columns by `dim.y` rows.
    dim: Vec2<usize>,
    /// How many cells of the ring step in progress are already out.
    step: usize,
    /// How many ring steps are complete.
    rings: Ghost<nat>,
}

impl CornerGrower {
    /// The target ratio the lattice is steered toward.
    pub closed spec fn aspect_ratio(self) -> AspectRatio {
        self.aspect_ratio
    }

    /// The number of cells the grower hands out in all.
    pub closed spec fn limit(self) -> nat {
        self.num as nat
    }

    /// The number of cells handed out so far.
    pub closed spec fn emitted(self) -> nat {
        self.emitted as nat
    }

    spec fn ring_len(self) -> int {
        if adds_row(self.aspect_ratio, self.dim.x as int, self.dim.y as int) {
            self.dim.x as int
        } else {
            self.dim.y as int
        }
    }

    /// The grower's state is consistent: the frontier, the ring step in
    /// progress and the count of cells handed out agree with the model.
    pub closed spec fn wf(self) -> bool {
        &&& self.emitted <= self.num
        &&& ucell_of(self.dim) == shape_after(self.aspect_ratio, self.rings@)
        &&& self.step < self.ring_len()
        &&& self.emitted == 0 ==> self.rings@ == 0 && self.step == 0
        &&& self.emitted > 0 ==> self.emitted == area_after(self.aspect_ratio, self.rings@)
            + self.step
    }

    /// A grower that hands out `num` cells, steered toward `aspect_ratio`.
    pub fn new(aspect_ratio: AspectRatio, num: usize) -> (g: CornerGrower)
        requires
            aspect_ratio.is_valid(),
        ensures
            g.wf(),
            g.aspect_ratio() == aspect_ratio,
            g.limit() == num,
            g.emitted() == 0,
    {
        CornerGrower { aspect_ratio, num, emitted: 0, dim: vec2same(1usize), step: 0, rings: Ghost(0) }
    }

    /// The next cell of the lattice, or `None` once `num` cells are out (and
    /// on every call after that).
    pub fn next(&mut self) -> (r: Option<Vec2<usize>>)
        requires
            old(self).wf(),
        ensures
            final(self).wf(),
            final(self).aspect_ratio() == old(self).aspect_ratio(),
            final(self).limit() == old(self).limit(),
            if old(self).emitted() < old(self).limit() {
                &&& final(self).emitted() == old(self).emitted() + 1
                &&& r matches Some(c) && ucell_of(c) == corner_cell(
                    old(self).aspect_ratio(),
                    old(self).emitted(),
                )
            } else {
                &&& final(self).emitted() == old(self).emitted()
                &&& r is None
            },
    {
        if self.emitted == self.num {
            return None;
        }
        let ghost ar = self.aspect_ratio;
        let ghost k = self.rings@;
        let ghost e = self.emitted as nat;
        if self.emitted == 0 {
            self.emitted = 1;
            proof {
                lemma_origin(ar);
            }
            return Some(vec2(0usize, 0usize));
        }
        proof {
            lemma_shape_positive(ar, k + 1);
            lemma_area_step(ar, k);
            lemma_corner_trace_len(ar, k);
            lemma_corner_trace_len(ar, k + 1);
            lemma_corner_cell_at(ar, k + 1, e);
        }
        let cell;
        if self.aspect_ratio.exceeded_by(self.dim.x as u64, self.dim.y as u64) {
            cell = vec2(self.step, self.dim.y);
            if self.step + 1 == self.dim.x {
                self.dim.y = self.dim.y + 1;
                self.step = 0;
                self.rings = Ghost(k + 1);
            } else {
                self.step = self.step + 1;
            }
        } else {
            cell = vec2(self.dim.x, self.step);
            if self.step + 1 == self.dim.y {
                self.dim.x = self.dim.x + 1;
                self.step = 0;
                self.rings = Ghost(k + 1);
            } else {
                self.step = self.step + 1;
            }
        }
        self.emitted = self.emitted + 1;
        Some(cell)
    }

    /// The extent `(columns, rows)` of the block completed so far: a ring
    /// step cut short by the end of the budget does not count.
    pub fn extent(&self) -> (r: Vec2<usize>)
        requires
            self.wf(),
        ensures
            ucell_of(r) == corner_extent(self.aspect_ratio(), self.emitted()),
    {
        if self.emitted == 0 {
            vec2(0usize, 0usize)
        } else {
            proof {
                lemma_area_step(self.aspect_ratio, self.rings@);
                lemma_rings_within(self.aspect_ratio, self.emitted as nat, self.rings@);
            }
            self.dim
        }
    }
}

/// The first `num` cells of the lattice grown from the corner toward
/// `aspect_ratio`, in the order they are added, with the extent
/// `(columns, rows)` of the block they complete. The point of cell `c` is
/// `seed + (c + (1, 1)) * spacing`, which keeps one spacing of margin, and
/// the occupied size is the extent times the spacing.
pub fn from_top_left(aspect_ratio: AspectRatio, num: usize) -> (r: (Vec<Vec2<usize>>, Vec2<usize>))
    requires
        aspect_ratio.is_valid(),
    ensures
        r.0@.len() == num,
        forall|i: int| 0 <= i < num ==> ucell_of(#[trigger] r.0@[i]) == corner_cell(aspect_ratio, i as nat),
        ucell_of(r.1) == corner_extent(aspect_ratio, num as nat),
{
    let mut g = CornerGrower::new(aspect_ratio, num);
    let mut cells: Vec<Vec2<usize>> = Vec::new();
    while cells.len() < num
        invariant
            g.wf(),
            g.aspect_ratio() == aspect_ratio,
            g.limit() == num,
            g.emitted() == cells@.len(),
            forall|i: int| 0 <= i < cells@.len() ==> ucell_of(#[trigger] cells@[i]) == corner_cell(aspect_ratio, i as nat),
        decreases num - cells@.len(),
    {
        if let Some(c) = g.next() {
            cells.push(c);
        }
    }
    let extent = g.extent();
    (cells, extent)
}

} // verus!
