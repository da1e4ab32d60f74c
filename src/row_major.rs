//! Row-major walks over the cells of a fixed block, the integer side of the
//! direct-index layouts.
use vstd::prelude::*;

use axgeom::vec2;
use axgeom::Vec2;

use crate::geom::ucell_of;

verus! {

/// How many cells a walk over a block of `w` columns and `h` rows yields:
/// each cell of the block once.
pub open spec fn block_len(w: int, h: int) -> int {
    w * h
}

/// The `i`-th cell (from 0) of a walk over a block of `w` columns: row by
/// row from the top, each row left to right.
pub open spec fn block_cell(w: int, i: int) -> (int, int) {
    (i % w, i / w)
}

/// A walk over a `w` by `h` block that has yielded `i` cells stands at
/// column `x` of row `y`.
spec fn walk_at(w: int, h: int, x: int, y: int, i: int) -> bool {
    &&& 0 <= x
    &&& 0 <= y <= h
    &&& i == y * w + x
    &&& w > 0 ==> x < w
    &&& w == 0 ==> x == 0 && y == 0
    &&& y == h ==> x == 0
}

/// Where a walk stands decides whether it is over, and if not, which cell
/// it yields next and where it goes.
proof fn lemma_walk_step(w: int, h: int, x: int, y: int, i: int)
    requires
        walk_at(w, h, x, y, i),
        w >= 0,
    ensures
        0 <= i <= block_len(w, h),
        (w == 0 || y >= h) <==> i == block_len(w, h),
        w > 0 && y < h ==> {
            &&& block_cell(w, i) == (x, y)
            &&& x + 1 < w ==> walk_at(w, h, x + 1, y, i + 1)
            &&& x + 1 == w ==> walk_at(w, h, 0, y + 1, i + 1)
        },
{
    assert(0 <= y * w) by (nonlinear_arith)
        requires
            0 <= y,
            0 <= w,
    ;
    if w == 0 {
        assert(0 * h == 0);
    } else if y == h {
        assert(h * w == w * h) by (nonlinear_arith);
    } else {
        vstd::arithmetic::div_mod::lemma_fundamental_div_mod_converse(i, w, y, x);
        assert(y * w + x < (h - 1) * w + w) by (nonlinear_arith)
            requires
                y <= h - 1,
                x < w,
                w > 0,
        ;
        assert((h - 1) * w + w == w * h) by (nonlinear_arith);
        assert((y + 1) * w == y * w + w) by (nonlinear_arith);
    }
}

/// Yields the cells of a `dim[0]` by `dim[1]` block as `[x, y]` pairs, row by
/// row from the top, each row left to right: `block_len` cells in all, the
/// `i`-th being `block_cell(dim[0], i)`.
#[derive(Clone)]
pub struct GridIter {
    dim: [usize; 2],
    x: usize,
    y: usize,
    count: Ghost<nat>,
}

impl GridIter {
    /// The block's `(columns, rows)`.
    pub closed spec fn dim(self) -> (int, int) {
        (self.dim[0] as int, self.dim[1] as int)
    }

    /// How many cells the walk has yielded so far.
    pub closed spec fn yielded(self) -> nat {
        self.count@
    }

    /// The walk's position agrees with the number of cells it has yielded.
    pub closed spec fn wf(self) -> bool {
        walk_at(self.dim[0] as int, self.dim[1] as int, self.x as int, self.y as int, self.count@ as int)
    }

    /// The next cell of the walk, or `None` once it is over (and on every
    /// call after that).
    pub fn next(&mut self) -> (r: Option<[usize; 2]>)
        requires
            old(self).wf(),
        ensures
            final(self).wf(),
            final(self).dim() == old(self).dim(),
            if old(self).yielded() < block_len(old(self).dim().0, old(self).dim().1) {
                &&& final(self).yielded() == old(self).yielded() + 1
                &&& r matches Some(c) && (c@[0] as int, c@[1] as int) == block_cell(
                    old(self).dim().0,
                    old(self).yielded() as int,
                )
            } else {
                &&& final(self).yielded() == old(self).yielded()
                &&& r is None
            },
    {
        proof {
            lemma_walk_step(
                self.dim[0] as int,
                self.dim[1] as int,
                self.x as int,
                self.y as int,
                self.count@ as int,
            );
        }
        if self.dim[0] == 0 || self.y >= self.dim[1] {
            return None;
        }
        let c = [self.x, self.y];
        if self.x + 1 == self.dim[0] {
            self.x = 0;
            self.y = self.y + 1;
        } else {
            self.x = self.x + 1;
        }
        self.count = Ghost(self.count@ + 1);
        Some(c)
    }
}

/// A walk over the cells of a `dim[0]` by `dim[1]` block.
pub fn grid_iter(dim: [usize; 2]) -> (r: GridIter)
    ensures
        r.wf(),
        r.dim() == (dim[0] as int, dim[1] as int),
        r.yielded() == 0,
{
    GridIter { dim, x: 0, y: 0, count: Ghost(0) }
}

/// Walks the cells of a block of `w` columns and `h` rows as vectors, row by
/// row from the top, each row left to right: the integer side of a layout
/// that fills a rectangle with `w` by `h` evenly spaced points.
pub struct GridCursor {
    grid_dim: Vec2<usize>,
    cursor: Vec2<usize>,
    count: Ghost<nat>,
}

impl Clone for GridCursor {
    fn clone(&self) -> (r: GridCursor)
        ensures
            r == *self,
    {
        GridCursor { grid_dim: self.grid_dim, cursor: self.cursor, count: self.count }
    }
}

impl GridCursor {
    /// The block's `(columns, rows)`.
    pub closed spec fn grid_dim(self) -> (int, int) {
        ucell_of(self.grid_dim)
    }

    /// How many cells the cursor has yielded so far.
    pub closed spec fn yielded(self) -> nat {
        self.count@
    }

    /// The cursor's position agrees with the number of cells it has yielded.
    pub closed spec fn wf(self) -> bool {
        walk_at(
            self.grid_dim.x as int,
            self.grid_dim.y as int,
            self.cursor.x as int,
            self.cursor.y as int,
            self.count@ as int,
        )
    }

    /// A cursor for `num_bots` points laid out in `rows` rows: the block has
    /// `num_bots / rows` columns and `rows` rows.
    pub fn with_rows(num_bots: usize, rows: usize) -> (r: GridCursor)
        requires
            rows > 0,
        ensures
            r.wf(),
            r.grid_dim() == ((num_bots / rows) as int, rows as int),
            r.yielded() == 0,
    {
        GridCursor {
            grid_dim: vec2(num_bots / rows, rows),
            cursor: vec2(0usize, 0usize),
            count: Ghost(0),
        }
    }

    /// The block's `(columns, rows)`.
    pub fn dim(&self) -> (r: Vec2<usize>)
        ensures
            ucell_of(r) == self.grid_dim(),
    {
        self.grid_dim
    }

    /// The next cell, or `None` once the walk is over (and on every call
    /// after that).
    pub fn next(&mut self) -> (r: Option<Vec2<usize>>)
        requires
            old(self).wf(),
        ensures
            final(self).wf(),
            final(self).grid_dim() == old(self).grid_dim(),
            if old(self).yielded() < block_len(old(self).grid_dim().0, old(self).grid_dim().1) {
                &&& final(self).yielded() == old(self).yielded() + 1
                &&& r matches Some(c) && ucell_of(c) == block_cell(
                    old(self).grid_dim().0,
                    old(self).yielded() as int,
                )
            } else {
                &&& final(self).yielded() == old(self).yielded()
                &&& r is None
            },
    {
        proof {
            lemma_walk_step(
                self.grid_dim.x as int,
                self.grid_dim.y as int,
                self.cursor.x as int,
                self.cursor.y as int,
                self.count@ as int,
            );
        }
        if self.grid_dim.x == 0 || self.cursor.y >= self.grid_dim.y {
            return None;
        }
        let c = self.cursor;
        if self.cursor.x + 1 == self.grid_dim.x {
            self.cursor.x = 0;
            self.cursor.y = self.cursor.y + 1;
        } else {
            self.cursor.x = self.cursor.x + 1;
        }
        self.count = Ghost(self.count@ + 1);
        Some(c)
    }
}

} // verus!
