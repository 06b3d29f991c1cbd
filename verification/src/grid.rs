//! The occupancy grid: a fixed-size two-dimensional array of cell tags.
//!
//! Cells are tagged empty, wall, or player marker, and the grid keeps the
//! invariant that exactly one cell carries the player marker.

use vstd::prelude::*;

verus! {

/// Tag of a walkable cell.
pub const EMPTY: u8 = 46;

/// Tag of a solid wall cell.
pub const WALL: u8 = 35;

/// Tag of the cell the player currently occupies.
pub const MARKER: u8 = 80;

/// Largest accepted grid side, so that cell indices stay far from overflow.
pub const GRID_MAX: usize = 1024;

/// How many entries of `s` equal `v`.
pub open spec fn count_matching(s: Seq<u8>, v: u8) -> nat
    decreases s.len(),
{
    if s.len() == 0 {
        0
    } else {
        count_matching(s.drop_last(), v) + if s.last() == v {
            1nat
        } else {
            0nat
        }
    }
}

/// Updating one entry moves the count by the difference at that entry.
proof fn lemma_count_update(s: Seq<u8>, i: int, w: u8, v: u8)
    requires
        0 <= i < s.len(),
    ensures
        count_matching(s.update(i, w), v) == count_matching(s, v)
            - (if s[i] == v { 1int } else { 0int })
            + (if w == v { 1int } else { 0int }),
    decreases s.len(),
{
    let t = s.update(i, w);
    if i == s.len() - 1 {
        assert(t.drop_last() =~= s.drop_last());
    } else {
        assert(t.drop_last() =~= s.drop_last().update(i, w));
        assert(t.last() == s.last());
        lemma_count_update(s.drop_last(), i, w, v);
    }
}

/// A sequence with no matching entries counts zero.
proof fn lemma_count_none(s: Seq<u8>, v: u8)
    requires
        forall|i: int| 0 <= i < s.len() ==> #[trigger] s[i] != v,
    ensures
        count_matching(s, v) == 0,
    decreases s.len(),
{
    if s.len() > 0 {
        lemma_count_none(s.drop_last(), v);
    }
}

/// An in-bounds cell names a row-major index inside the storage.
proof fn lemma_index_range(w: int, h: int, x: int, y: int)
    requires
        1 <= w,
        0 <= x < w,
        0 <= y < h,
    ensures
        0 <= x + w * y,
        x + w * y < w * h,
{
    assert(0 <= x + w * y && x + w * y < w * h) by (nonlinear_arith)
        requires
            1 <= w,
            0 <= x < w,
            0 <= y < h,
    ;
}

/// Distinct in-bounds cells name distinct row-major indices.
proof fn lemma_row_major_injective(w: int, x1: int, y1: int, x2: int, y2: int)
    requires
        w >= 1,
        0 <= x1 < w,
        0 <= x2 < w,
        0 <= y1,
        0 <= y2,
        !(x1 == x2 && y1 == y2),
    ensures
        x1 + w * y1 != x2 + w * y2,
{
    assert(x1 + w * y1 != x2 + w * y2) by (nonlinear_arith)
        requires
            w >= 1,
            0 <= x1 < w,
            0 <= x2 < w,
            0 <= y1,
            0 <= y2,
            !(x1 == x2 && y1 == y2),
    ;
}

/// A sequence matching at one position counts at least one.
proof fn lemma_count_at_least_one(s: Seq<u8>, i: int, v: u8)
    requires
        0 <= i < s.len(),
        s[i] == v,
    ensures
        count_matching(s, v) >= 1,
    decreases s.len(),
{
    if i < s.len() - 1 {
        lemma_count_at_least_one(s.drop_last(), i, v);
    }
}

/// A sequence matching at two positions counts at least two.
proof fn lemma_count_at_least_two(s: Seq<u8>, i: int, j: int, v: u8)
    requires
        0 <= i < j < s.len(),
        s[i] == v,
        s[j] == v,
    ensures
        count_matching(s, v) >= 2,
    decreases s.len(),
{
    if j == s.len() - 1 {
        lemma_count_at_least_one(s.drop_last(), i, v);
    } else {
        lemma_count_at_least_two(s.drop_last(), i, j, v);
    }
}

/// A valid cell tag.
pub open spec fn valid_tag(c: u8) -> bool {
    c == EMPTY || c == WALL || c == MARKER
}

/// The occupancy grid.
pub struct Grid {
    width: usize,
    height: usize,
    cells: Vec<u8>,
}

impl Grid {
    /// Grid width in cells.
    pub closed spec fn w(&self) -> int {
        self.width as int
    }

    /// Grid height in cells.
    pub closed spec fn h(&self) -> int {
        self.height as int
    }

    /// The tag sequence, row-major: index `x + w * y`.
    pub closed spec fn tags(&self) -> Seq<u8> {
        self.cells@
    }

    /// The tag at cell (x, y).
    pub open spec fn cell(&self, x: int, y: int) -> u8 {
        self.tags()[x + self.w() * y]
    }

    /// Whether (x, y) lies inside the grid.
    pub open spec fn in_bounds(&self, x: int, y: int) -> bool {
        0 <= x < self.w() && 0 <= y < self.h()
    }

    /// Whether (x, y) is a wall cell; coordinates outside the grid are open.
    pub open spec fn wall_at(&self, x: int, y: int) -> bool {
        self.in_bounds(x, y) && self.cell(x, y) == WALL
    }

    /// Well-formedness: bounded sides, row-major storage, valid tags,
    /// and exactly one player marker.
    pub open spec fn wf(&self) -> bool {
        &&& 1 <= self.w() <= GRID_MAX
        &&& 1 <= self.h() <= GRID_MAX
        &&& self.tags().len() == self.w() * self.h()
        &&& forall|i: int| 0 <= i < self.tags().len() ==> valid_tag(#[trigger] self.tags()[i])
        &&& count_matching(self.tags(), MARKER) == 1
    }

    /// Exec width accessor.
    pub fn width(&self) -> (r: usize)
        ensures
            r == self.w(),
    {
        self.width
    }

    /// Exec height accessor.
    pub fn height(&self) -> (r: usize)
        ensures
            r == self.h(),
    {
        self.height
    }

    /// Builds a grid from row-major wall/empty tags, placing the player
    /// marker at cell (px, py).
    pub fn new(width: usize, height: usize, tags: Vec<u8>, px: usize, py: usize) -> (g: Grid)
        requires
            1 <= width <= GRID_MAX,
            1 <= height <= GRID_MAX,
            tags@.len() == width * height,
            forall|i: int| 0 <= i < tags@.len() ==> (#[trigger] tags@[i] == EMPTY || tags@[i] == WALL),
            px < width,
            py < height,
            tags@[px + width * py] == EMPTY,
        ensures
            g.wf(),
            g.w() == width,
            g.h() == height,
            g.cell(px as int, py as int) == MARKER,
            forall|x: int, y: int|
                g.in_bounds(x, y) && !(x == px && y == py)
                    ==> #[trigger] g.cell(x, y) == tags@[x + width * y],
    {
        let ghost tags0 = tags@;
        let mut g = Grid { width, height, cells: tags };
        proof {
            lemma_index_range(width as int, height as int, px as int, py as int);
            assert(width * py <= 1024 * 1023) by (nonlinear_arith)
                requires
                    width <= 1024,
                    py <= 1023,
            ;
        }
        let idx: usize = px + width * py;
        proof {
            lemma_count_none(g.cells@, MARKER);
            lemma_count_update(g.cells@, idx as int, MARKER, MARKER);
        }
        g.cells.set(idx, MARKER);
        proof {
            assert forall|x: int, y: int|
                g.in_bounds(x, y) && !(x == px && y == py)
                    implies #[trigger] g.cell(x, y) == tags0[x + width * y] by {
                lemma_index_range(width as int, height as int, x, y);
                lemma_row_major_injective(width as int, x, y, px as int, py as int);
            }
        }
        g
    }

    /// Whether the cell holding (x, y) is a wall; out-of-range cells are open.
    pub fn is_wall(&self, x: i64, y: i64) -> (r: bool)
        requires
            self.wf(),
        ensures
            r == self.wall_at(x as int, y as int),
    {
        if x < 0 || y < 0 || x >= self.width as i64 || y >= self.height as i64 {
            false
        } else {
            proof {
                lemma_index_range(self.w(), self.h(), x as int, y as int);
                assert(self.width * (y as int) <= 1024 * 1023) by (nonlinear_arith)
                    requires
                        self.width <= 1024,
                        0 <= y as int <= 1023,
                ;
            }
            let idx: usize = (x as usize) + self.width * (y as usize);
            self.cells[idx] == WALL
        }
    }

    /// Every in-bounds cell carries a valid tag.
    pub proof fn lemma_cell_tag(&self, x: int, y: int)
        requires
            self.wf(),
            self.in_bounds(x, y),
        ensures
            valid_tag(self.cell(x, y)),
    {
        lemma_index_range(self.w(), self.h(), x, y);
    }

    /// The marker invariant: no cell other than the marked one carries
    /// the player marker.
    pub proof fn lemma_single_marker(&self, ox: int, oy: int, nx: int, ny: int)
        requires
            self.wf(),
            self.in_bounds(ox, oy),
            self.in_bounds(nx, ny),
            self.cell(ox, oy) == MARKER,
            !(nx == ox && ny == oy),
        ensures
            self.cell(nx, ny) != MARKER,
    {
        lemma_index_range(self.w(), self.h(), ox, oy);
        lemma_index_range(self.w(), self.h(), nx, ny);
        lemma_row_major_injective(self.w(), ox, oy, nx, ny);
        let io = ox + self.w() * oy;
        let im = nx + self.w() * ny;
        if self.cell(nx, ny) == MARKER {
            if io < im {
                lemma_count_at_least_two(self.tags(), io, im, MARKER);
            } else {
                lemma_count_at_least_two(self.tags(), im, io, MARKER);
            }
        }
    }

    /// Moves the player marker from one cell to another empty cell,
    /// keeping the single-marker invariant.
    pub fn move_marker(&mut self, fx: usize, fy: usize, tx: usize, ty: usize)
        requires
            old(self).wf(),
            old(self).in_bounds(fx as int, fy as int),
            old(self).in_bounds(tx as int, ty as int),
            old(self).cell(fx as int, fy as int) == MARKER,
            old(self).cell(tx as int, ty as int) == EMPTY,
        ensures
            final(self).wf(),
            final(self).w() == old(self).w(),
            final(self).h() == old(self).h(),
            final(self).cell(fx as int, fy as int) == EMPTY,
            final(self).cell(tx as int, ty as int) == MARKER,
            forall|x: int, y: int|
                final(self).in_bounds(x, y) && !(x == fx && y == fy) && !(x == tx && y == ty)
                    ==> #[trigger] final(self).cell(x, y) == old(self).cell(x, y),
    {
        proof {
            lemma_index_range(self.w(), self.h(), fx as int, fy as int);
            lemma_index_range(self.w(), self.h(), tx as int, ty as int);
            lemma_row_major_injective(self.w(), fx as int, fy as int, tx as int, ty as int);
            assert(self.width * fy <= 1024 * 1023 && self.width * ty <= 1024 * 1023)
                by (nonlinear_arith)
                requires
                    self.width <= 1024,
                    fy <= 1023,
                    ty <= 1023,
            ;
        }
        let from_idx: usize = fx + self.width * fy;
        let to_idx: usize = tx + self.width * ty;
        proof {
            lemma_count_update(self.cells@, from_idx as int, EMPTY, MARKER);
            lemma_count_update(self.cells@.update(from_idx as int, EMPTY), to_idx as int, MARKER, MARKER);
        }
        self.cells.set(from_idx, EMPTY);
        self.cells.set(to_idx, MARKER);
        proof {
            assert forall|x: int, y: int|
                self.in_bounds(x, y) && !(x == fx && y == fy) && !(x == tx && y == ty)
                    implies #[trigger] self.cell(x, y) == old(self).cell(x, y) by {
                lemma_index_range(self.w(), self.h(), x, y);
                lemma_row_major_injective(self.w(), x, y, fx as int, fy as int);
                lemma_row_major_injective(self.w(), x, y, tx as int, ty as int);
            }
        }
    }
}

} // verus!
