//! A uniform grid over a rectangular torus.
//!
//! The grid buckets particle indices by the cell that holds their position and
//! answers, for a point, with the occupants of the three by three block of
//! cells around it. Along each axis the cells wrap around, so the block of a
//! cell at the edge reaches over the seam.
use std::collections::HashMap;
use vstd::prelude::*;
use crate::fixed::{floor_div, lemma_floor_div, magnitude, shortest, wrap};

verus! {

broadcast use vstd::std_specs::hash::group_hash_axioms;

/// The number of cells along an axis of the given extent: as many whole cells
/// as fit, and at least one.
pub open spec fn dimension(extent: int, cell_size: int) -> int {
    if extent / cell_size < 1 {
        1
    } else {
        extent / cell_size
    }
}

/// The cell along one axis that holds the coordinate `x`, on an axis of
/// `count` cells: the floor of `x / cell_size`, wrapped into `[0, count)`.
pub open spec fn cell_index(x: int, cell_size: int, count: int) -> int {
    (x / cell_size) % count
}

/// The concatenation of the buckets of the three cells of column `cx` around
/// row `cy`, the row before first, on an axis of `rows` rows that wraps around.
pub open spec fn column_of(
    bucket: spec_fn(int, int) -> Seq<usize>,
    rows: int,
    cx: int,
    cy: int,
) -> Seq<usize> {
    bucket(cx, (cy - 1) % rows) + bucket(cx, cy % rows) + bucket(cx, (cy + 1) % rows)
}

/// The concatenation of the buckets of the three by three block of cells
/// around `(cx, cy)`, the column before first, on a grid of `cols` by `rows`
/// cells that wraps around along both axes.
pub open spec fn block_of(
    bucket: spec_fn(int, int) -> Seq<usize>,
    cols: int,
    rows: int,
    cx: int,
    cy: int,
) -> Seq<usize> {
    column_of(bucket, rows, (cx - 1) % cols, cy) + column_of(bucket, rows, cx % cols, cy)
        + column_of(bucket, rows, (cx + 1) % cols, cy)
}

/// A quotient lies between two bounds when the dividend lies between their
/// multiples of the divisor.
pub proof fn lemma_div_between(x: int, c: int, low: int, high: int)
    requires
        c > 0,
        low * c <= x < high * c,
    ensures
        low <= x / c < high,
{
    lemma_floor_div(x, c);
    let q = x / c;
    if q < low {
        assert((q + 1) * c <= low * c) by (nonlinear_arith)
            requires
                q + 1 <= low,
                c > 0,
        ;
    }
    if q >= high {
        assert(high * c <= q * c) by (nonlinear_arith)
            requires
                high <= q,
                c > 0,
        ;
    }
}

/// Shifting a number before or after reducing it modulo `n` gives the same
/// remainder.
pub proof fn lemma_mod_shift(q: int, e: int, n: int)
    requires
        n > 0,
    ensures
        (q + e) % n == ((q % n) + e) % n,
{
    vstd::arithmetic::div_mod::lemma_fundamental_div_mod(q, n);
    vstd::arithmetic::div_mod::lemma_mod_multiples_vanish(q / n, (q % n) + e, n);
}

/// Two points of a circle of circumference `w` that are nearer to each other
/// than the side `c` of a cell lie in the same cell or in cells next to each
/// other, the last cell counting as next to the first.
pub proof fn lemma_near_points_in_adjacent_cells(xi: int, xj: int, w: int, c: int)
    requires
        c > 0,
        0 <= xi < w,
        0 <= xj < w,
        magnitude(shortest(xj - xi, w)) < c,
    ensures
        ({
            let n = dimension(w, c);
            let ci = cell_index(xi, c, n);
            let cj = cell_index(xj, c, n);
            cj == (ci - 1) % n || cj == ci % n || cj == (ci + 1) % n
        }),
{
    let n = dimension(w, c);
    let qi = xi / c;
    let qj = xj / c;
    let ci = cell_index(xi, c, n);
    let cj = cell_index(xj, c, n);
    let d = xj - xi;
    lemma_floor_div(xi, c);
    lemma_floor_div(xj, c);
    lemma_floor_div(w, c);
    vstd::arithmetic::div_mod::lemma_mod_bound(qi, n);
    vstd::arithmetic::div_mod::lemma_mod_bound(qj, n);
    if d >= 0 {
        vstd::arithmetic::div_mod::lemma_small_mod(d as nat, w as nat);
    } else {
        vstd::arithmetic::div_mod::lemma_small_mod((d + w) as nat, w as nat);
        vstd::arithmetic::div_mod::lemma_mod_add_multiples_vanish(d, w);
    }
    if w / c < 1 {
        // a single cell holds every point
        assert(n == 1);
    } else if -c < d < c {
        assert((qi - 1) * c == qi * c - c && (qi + 2) * c == (qi + 1) * c + c) by (nonlinear_arith);
        lemma_div_between(xj, c, qi - 1, qi + 2);
        lemma_mod_shift(qi, qj - qi, n);
    } else if d > 0 {
        // the shortest way from xi to xj leads over the seam, to the left
        assert(w - d < c);
        assert(xi < c);
        lemma_div_between(xi, c, 0, 1);
        assert((n - 1) * c == n * c - c && (n + 1) * c == n * c + c) by (nonlinear_arith);
        lemma_div_between(xj, c, n - 1, n + 1);
        vstd::arithmetic::div_mod::lemma_small_mod(0, n as nat);
        vstd::arithmetic::div_mod::lemma_mod_self_0(n);
        vstd::arithmetic::div_mod::lemma_small_mod((n - 1) as nat, n as nat);
        vstd::arithmetic::div_mod::lemma_mod_add_multiples_vanish(-1, n);
        assert(ci == 0);
        if qj == n {
            assert(cj == 0);
        } else {
            assert(cj == n - 1);
            assert((ci - 1) % n == n - 1);
        }
    } else {
        // the shortest way from xi to xj leads over the seam, to the right
        assert(d + w < c);
        assert(xj < c);
        lemma_div_between(xj, c, 0, 1);
        assert((n - 1) * c == n * c - c && (n + 1) * c == n * c + c) by (nonlinear_arith);
        lemma_div_between(xi, c, n - 1, n + 1);
        vstd::arithmetic::div_mod::lemma_small_mod(0, n as nat);
        vstd::arithmetic::div_mod::lemma_mod_self_0(n);
        vstd::arithmetic::div_mod::lemma_small_mod((n - 1) as nat, n as nat);
        assert(cj == 0);
        if qi == n {
            assert(ci == 0);
        } else {
            assert(ci == n - 1);
            assert((ci + 1) % n == 0);
        }
    }
}

/// What either part of a concatenation holds, the concatenation holds.
pub proof fn lemma_concat_contains(a: Seq<usize>, b: Seq<usize>, v: usize)
    requires
        a.contains(v) || b.contains(v),
    ensures
        (a + b).contains(v),
{
    if a.contains(v) {
        let k = choose|k: int| 0 <= k < a.len() && a[k] == v;
        assert((a + b)[k] == v);
    } else {
        let k = choose|k: int| 0 <= k < b.len() && b[k] == v;
        assert((a + b)[a.len() + k] == v);
    }
}

/// The block around `(cx, cy)` holds whatever the bucket of a cell holds that
/// lies at most one column and one row away, the coordinates wrapped.
pub proof fn lemma_block_holds(
    bucket: spec_fn(int, int) -> Seq<usize>,
    cols: int,
    rows: int,
    cx: int,
    cy: int,
    ex: int,
    ey: int,
    v: usize,
)
    requires
        -1 <= ex <= 1,
        -1 <= ey <= 1,
        bucket((cx + ex) % cols, (cy + ey) % rows).contains(v),
    ensures
        block_of(bucket, cols, rows, cx, cy).contains(v),
{
    let col = (cx + ex) % cols;
    let before = bucket(col, (cy - 1) % rows);
    let here = bucket(col, cy % rows);
    let after = bucket(col, (cy + 1) % rows);
    if ey < 1 {
        lemma_concat_contains(before, here, v);
    }
    lemma_concat_contains(before + here, after, v);
    assert(column_of(bucket, rows, col, cy).contains(v));
    let left = column_of(bucket, rows, (cx - 1) % cols, cy);
    let middle = column_of(bucket, rows, cx % cols, cy);
    let right = column_of(bucket, rows, (cx + 1) % cols, cy);
    if ex < 1 {
        lemma_concat_contains(left, middle, v);
    }
    lemma_concat_contains(left + middle, right, v);
}

/// A grid of square cells over a domain, each cell with the indices that were
/// inserted at a point of it. Only the cells that hold something are stored.
pub struct Grid {
    cell_size: i64,
    cells: HashMap<u128, Vec<usize>>,
    cols: i64,
    rows: i64,
}

impl Grid {
    /// The side of a cell, in specifications.
    pub closed spec fn spec_cell_size(&self) -> i64 {
        self.cell_size
    }

    /// The number of columns, in specifications.
    pub closed spec fn spec_cols(&self) -> i64 {
        self.cols
    }

    /// The number of rows, in specifications.
    pub closed spec fn spec_rows(&self) -> i64 {
        self.rows
    }

    /// The side of a cell.
    #[verifier::when_used_as_spec(spec_cell_size)]
    pub fn cell_size(&self) -> (r: i64)
        ensures
            r == self.cell_size(),
    {
        self.cell_size
    }

    /// The number of columns.
    #[verifier::when_used_as_spec(spec_cols)]
    pub fn cols(&self) -> (r: i64)
        ensures
            r == self.cols(),
    {
        self.cols
    }

    /// The number of rows.
    #[verifier::when_used_as_spec(spec_rows)]
    pub fn rows(&self) -> (r: i64)
        ensures
            r == self.rows(),
    {
        self.rows
    }

    /// A grid is well formed when its cells have a positive size and it has at
    /// least one column and one row.
    pub open spec fn wf(self) -> bool {
        &&& self.cell_size() > 0
        &&& self.cols() >= 1
        &&& self.rows() >= 1
    }

    /// Whether `(cx, cy)` names a cell of this grid.
    pub open spec fn in_range(self, cx: int, cy: int) -> bool {
        0 <= cx < self.cols() && 0 <= cy < self.rows()
    }

    /// The indices held in cell `(cx, cy)`, in the order in which they were
    /// inserted. A cell that nothing was inserted into, and a coordinate
    /// outside the grid, hold nothing.
    pub closed spec fn bucket(self, cx: int, cy: int) -> Seq<usize> {
        let key = (cx * self.rows + cy) as u128;
        if self.in_range(cx, cy) && self.cells@.contains_key(key) {
            self.cells@[key]@
        } else {
            Seq::empty()
        }
    }

    /// The cell that holds the point `(x, y)`.
    pub open spec fn cell_of(self, x: int, y: int) -> (int, int) {
        (
            cell_index(x, self.cell_size() as int, self.cols() as int),
            cell_index(y, self.cell_size() as int, self.rows() as int),
        )
    }

    /// The occupants of the three cells of column `cx` around row `cy`, the
    /// row before first.
    pub open spec fn column(self, cx: int, cy: int) -> Seq<usize> {
        column_of(|a: int, b: int| self.bucket(a, b), self.rows() as int, cx, cy)
    }

    /// The occupants of the three by three block of cells around `(cx, cy)`,
    /// the column before first, each neighbouring coordinate wrapped into the
    /// grid.
    pub open spec fn block(self, cx: int, cy: int) -> Seq<usize> {
        block_of(|a: int, b: int| self.bucket(a, b), self.cols() as int, self.rows() as int, cx, cy)
    }

    /// The candidates near the point `(x, y)`: the block around its cell.
    pub open spec fn near(self, x: int, y: int) -> Seq<usize> {
        self.block(self.cell_of(x, y).0, self.cell_of(x, y).1)
    }

    /// Two cells of the grid that differ have different keys.
    proof fn lemma_key_injective(self, cx: int, cy: int, dx: int, dy: int)
        requires
            self.wf(),
            self.in_range(cx, cy),
            self.in_range(dx, dy),
            (cx, cy) != (dx, dy),
        ensures
            0 <= cx * self.rows + cy < 0x4000_0000_0000_0000_0000_0000_0000_0000,
            0 <= dx * self.rows + dy < 0x4000_0000_0000_0000_0000_0000_0000_0000,
            (cx * self.rows + cy) as u128 != (dx * self.rows + dy) as u128,
    {
        self.lemma_key_bound(cx, cy);
        self.lemma_key_bound(dx, dy);
        let rows = self.rows as int;
        if cx < dx {
            assert(cx * rows + rows <= dx * rows) by (nonlinear_arith)
                requires
                    cx + 1 <= dx,
                    rows >= 1,
            ;
        } else if dx < cx {
            assert(dx * rows + rows <= cx * rows) by (nonlinear_arith)
                requires
                    dx + 1 <= cx,
                    rows >= 1,
            ;
        }
    }

    /// The key of a cell of the grid fits the key type.
    proof fn lemma_key_bound(self, cx: int, cy: int)
        requires
            self.wf(),
            self.in_range(cx, cy),
        ensures
            0 <= cx * self.rows + cy < 0x4000_0000_0000_0000_0000_0000_0000_0000,
    {
        let rows = self.rows as int;
        assert(0 <= cx * rows && cx * rows + rows <= 0x7fff_ffff_ffff_ffff * 0x7fff_ffff_ffff_ffff)
            by (nonlinear_arith)
            requires
                0 <= cx < 0x7fff_ffff_ffff_ffff,
                1 <= rows <= 0x7fff_ffff_ffff_ffff,
        ;
    }

    /// An empty grid of square cells of side `cell_size` over a domain of the
    /// given extents.
    pub fn new(cell_size: i64, width: i64, height: i64) -> (grid: Grid)
        requires
            cell_size > 0,
            width > 0,
            height > 0,
        ensures
            grid.wf(),
            grid.cell_size() == cell_size,
            grid.cols() == dimension(width as int, cell_size as int),
            grid.rows() == dimension(height as int, cell_size as int),
            forall|cx: int, cy: int| #[trigger] grid.bucket(cx, cy) == Seq::<usize>::empty(),
    {
        let across: i64 = width / cell_size;
        let down: i64 = height / cell_size;
        Grid {
            cell_size,
            cells: HashMap::new(),
            cols: if across < 1 {
                1
            } else {
                across
            },
            rows: if down < 1 {
                1
            } else {
                down
            },
        }
    }

    /// The cell that holds the point `(x, y)`. Any coordinate is accepted: one
    /// outside the domain is wrapped into the grid.
    pub fn hash(&self, x: i64, y: i64) -> (cell: (i64, i64))
        requires
            self.wf(),
        ensures
            (cell.0 as int, cell.1 as int) == self.cell_of(x as int, y as int),
            self.in_range(cell.0 as int, cell.1 as int),
    {
        let cell_x: i64 = floor_div(x, self.cell_size);
        let cell_y: i64 = floor_div(y, self.cell_size);
        (wrap(cell_x as i128, self.cols), wrap(cell_y as i128, self.rows))
    }

    /// The key under which the cell `(cx, cy)` is stored.
    fn key(&self, cx: i64, cy: i64) -> (key: u128)
        requires
            self.wf(),
            self.in_range(cx as int, cy as int),
        ensures
            key == (cx * self.rows + cy) as u128,
            key == cx * self.rows + cy,
    {
        proof {
            self.lemma_key_bound(cx as int, cy as int);
            assert(0 <= cx * self.rows) by (nonlinear_arith)
                requires
                    0 <= cx,
                    0 <= self.rows,
            ;
        }
        (cx as u128) * (self.rows as u128) + (cy as u128)
    }

    /// Appends the index `i` to the cell that holds the point `(x, y)`. Every
    /// other cell stays as it was.
    pub fn insert(&mut self, i: usize, x: i64, y: i64)
        requires
            old(self).wf(),
        ensures
            final(self).wf(),
            final(self).cell_size() == old(self).cell_size(),
            final(self).cols() == old(self).cols(),
            final(self).rows() == old(self).rows(),
            forall|cx: int, cy: int|
                #[trigger] final(self).bucket(cx, cy) == if (cx, cy) == old(self).cell_of(
                    x as int,
                    y as int,
                ) {
                    old(self).bucket(cx, cy).push(i)
                } else {
                    old(self).bucket(cx, cy)
                },
    {
        let cell = self.hash(x, y);
        let key: u128 = self.key(cell.0, cell.1);
        let mut points: Vec<usize> = match self.cells.remove(&key) {
            Some(points) => points,
            None => Vec::new(),
        };
        points.push(i);
        self.cells.insert(key, points);
        proof {
            assert forall|cx: int, cy: int|
                #[trigger] self.bucket(cx, cy) == if (cx, cy) == old(self).cell_of(
                    x as int,
                    y as int,
                ) {
                    old(self).bucket(cx, cy).push(i)
                } else {
                    old(self).bucket(cx, cy)
                } by {
                if self.in_range(cx, cy) && (cx, cy) != (cell.0 as int, cell.1 as int) {
                    self.lemma_key_injective(cx, cy, cell.0 as int, cell.1 as int);
                }
            }
        }
    }

    /// Appends the occupants of the cell `(cx, cy)` to `res`.
    fn collect(&self, res: &mut Vec<usize>, cx: i64, cy: i64)
        requires
            self.wf(),
            self.in_range(cx as int, cy as int),
        ensures
            final(res)@ == old(res)@ + self.bucket(cx as int, cy as int),
    {
        let key: u128 = self.key(cx, cy);
        if let Some(points) = self.cells.get(&key) {
            let mut k: usize = 0;
            while k < points.len()
                invariant
                    0 <= k <= points@.len(),
                    res@ == old(res)@ + points@.subrange(0, k as int),
                decreases points@.len() - k,
            {
                res.push(points[k]);
                k += 1;
                assert(points@.subrange(0, k as int) == points@.subrange(0, k - 1).push(
                    points@[k - 1],
                ));
            }
            assert(points@.subrange(0, k as int) == points@);
        }
    }

    /// Appends the occupants of the three cells of column `cx` around row
    /// `cy` to `res`.
    fn collect_column(&self, res: &mut Vec<usize>, cx: i64, cy: i64)
        requires
            self.wf(),
            self.in_range(cx as int, cy as int),
        ensures
            final(res)@ == old(res)@ + self.column(cx as int, cy as int),
    {
        let mut dy: i64 = -1;
        while dy <= 1
            invariant
                self.wf(),
                self.in_range(cx as int, cy as int),
                -1 <= dy <= 2,
                res@ == old(res)@ + (if dy > -1 {
                    self.bucket(cx as int, (cy - 1) % (self.rows() as int))
                } else {
                    Seq::empty()
                }) + (if dy > 0 {
                    self.bucket(cx as int, (cy as int) % (self.rows() as int))
                } else {
                    Seq::empty()
                }) + (if dy > 1 {
                    self.bucket(cx as int, (cy + 1) % (self.rows() as int))
                } else {
                    Seq::empty()
                }),
            decreases 2 - dy,
        {
            let ny: i64 = wrap((cy + dy) as i128, self.rows);
            self.collect(res, cx, ny);
            dy += 1;
        }
    }

    /// The candidates near the point `(x, y)`: the occupants of the three by
    /// three block of cells around the cell that holds it, column by column
    /// and, within a column, row by row, each from the one before to the one
    /// after. An index that shares the cell of the point is among them, so a
    /// caller that asks about a particle of its own finds that particle too.
    /// On a grid of fewer than three columns or rows the block reaches the
    /// same cell more than once, and its occupants are reported each time.
    pub fn query(&self, x: i64, y: i64) -> (res: Vec<usize>)
        requires
            self.wf(),
        ensures
            res@ == self.near(x as int, y as int),
    {
        let cell = self.hash(x, y);
        let cx: i64 = cell.0;
        let cy: i64 = cell.1;
        let mut res: Vec<usize> = Vec::new();
        let mut dx: i64 = -1;
        while dx <= 1
            invariant
                self.wf(),
                self.in_range(cx as int, cy as int),
                -1 <= dx <= 2,
                res@ == (if dx > -1 {
                    self.column((cx - 1) % (self.cols() as int), cy as int)
                } else {
                    Seq::empty()
                }) + (if dx > 0 {
                    self.column((cx as int) % (self.cols() as int), cy as int)
                } else {
                    Seq::empty()
                }) + (if dx > 1 {
                    self.column((cx + 1) % (self.cols() as int), cy as int)
                } else {
                    Seq::empty()
                }),
            decreases 2 - dx,
        {
            let nx: i64 = wrap((cx + dx) as i128, self.cols);
            self.collect_column(&mut res, nx, cy);
            dx += 1;
        }
        res
    }
}

} // verus!
