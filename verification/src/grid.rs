//! Grid layout: places all visible streams in a grid of equally sized cells.
//!
//! The number of columns starts from the column estimate `⌊√visibles + 0.9⌋`, which
//! [`column_estimate`] computes in integers; the cell height follows the width of a cell in
//! the aspect ratio of the picture, computed in floating point by the caller. Both are
//! handed in.

use vstd::prelude::*;
use vstd::arithmetic::div_mod::{lemma_fundamental_div_mod, lemma_mod_pos_bound};

use crate::layout::{Position, Size, View};

verus! {

/// Columns and rows of the grid for `visibles` streams, given the column estimate `c`:
/// enough rows to hold all streams; when that needs more rows than columns, one more column
/// is used instead of one row.
pub open spec fn grid_shape(visibles: nat, c: nat) -> (nat, nat) {
    if visibles > 1 {
        let rows = ((visibles + c - 1) / (c as int)) as nat;
        if rows > c {
            ((c + 1) as nat, (rows - 1) as nat)
        } else {
            (c, rows)
        }
    } else {
        (1, 1)
    }
}

/// The upper left corner of the cell of the stream at `position`, as plain numbers: cells
/// are filled row by row, and the grid is centered vertically.
pub open spec fn grid_cell(
    resolution: Size,
    visibles: nat,
    c: nat,
    cell_height: nat,
    position: nat,
) -> (int, int) {
    let (columns, rows) = grid_shape(visibles, c);
    let width = (resolution.width as int) / (columns as int);
    let padding = (resolution.height - cell_height * rows) / 2;
    (width * (position % columns), cell_height * (position / columns) + padding)
}

/// The inputs for which the grid is defined: a column estimate of at least one when more
/// than one stream is visible, and no overflow while counting rows.
pub open spec fn grid_inputs_ok(visibles: nat, c: nat) -> bool {
    visibles > 1 ==> c >= 1 && visibles + c <= usize::MAX
}

/// `c` is the column estimate `⌊√visibles + 0.9⌋`, written in integers:
/// `c − 0.9 ≤ √visibles < c + 0.1`, that is `(10c − 9)² ≤ 100·visibles < (10c + 1)²`.
pub open spec fn is_column_estimate(visibles: nat, c: nat) -> bool {
    let lo = 10 * c - 9;
    let hi = 10 * c + 1;
    &&& c >= 1
    &&& lo * lo <= 100 * visibles
    &&& 100 * visibles < hi * hi
}

/// Whether `c` is not above the column estimate of `visibles`: `(10c − 9)² ≤ 100·visibles`.
fn estimate_reaches(visibles: usize, c: u128) -> (b: bool)
    requires
        1 <= c <= 0x2_0000_0000,
    ensures
        b == ((10 * c - 9) * (10 * c - 9) <= 100 * visibles),
{
    let t: u128 = 10 * c - 9;
    assert(t * t <= 0x400_0000_0000_0000_0000u128) by (nonlinear_arith)
        requires
            t <= 0x14_0000_0000u128,
    ;
    t * t <= 100 * (visibles as u128)
}

/// The column estimate `⌊√visibles + 0.9⌋` of the grid, computed in integers: the
/// largest `c` with `(10c − 9)² ≤ 100·visibles` (see [`is_column_estimate`]); zero for no
/// visibles.
pub fn column_estimate(visibles: usize) -> (c: usize)
    ensures
        visibles == 0 ==> c == 0,
        visibles >= 1 ==> is_column_estimate(visibles as nat, c as nat),
{
    if visibles == 0 {
        return 0;
    }
    let mut lo: u128 = 1;
    let mut hi: u128 = 0x2_0000_0000;
    assert(10 * lo - 9 == 1);
    assert((10 * lo - 9) * (10 * lo - 9) == 1);
    assert((10 * hi - 9) * (10 * hi - 9) > 100 * visibles) by (nonlinear_arith)
        requires
            hi == 0x2_0000_0000u128,
            visibles <= 0xFFFF_FFFF_FFFF_FFFFu64,
    ;
    while hi - lo > 1
        invariant
            1 <= lo < hi <= 0x2_0000_0000,
            (10 * lo - 9) * (10 * lo - 9) <= 100 * visibles,
            (10 * hi - 9) * (10 * hi - 9) > 100 * visibles,
        decreases hi - lo,
    {
        let mid = lo + (hi - lo) / 2;
        if estimate_reaches(visibles, mid) {
            lo = mid;
        } else {
            hi = mid;
        }
    }
    assert(lo <= visibles) by (nonlinear_arith)
        requires
            lo >= 1,
            (10 * lo - 9) * (10 * lo - 9) <= 100 * visibles,
    ;
    assert(10 * (lo as int) + 1 == 10 * (hi as int) - 9);
    lo as usize
}

/// With the column estimate `⌊√visibles + 0.9⌋` the grid of more than one stream has at
/// least one row, no more rows than columns, a cell for every stream, and no empty last
/// row.
pub proof fn law_grid_is_compact(visibles: nat, c: nat)
    requires
        visibles > 1,
        is_column_estimate(visibles, c),
    ensures
        ({
            let (columns, rows) = grid_shape(visibles, c);
            &&& 1 <= rows <= columns
            &&& columns * rows >= visibles
            &&& columns * (rows - 1) < visibles
        }),
{
    let ci = c as int;
    let vi = visibles as int;
    let x = vi + ci - 1;
    let r = x / ci;
    let m = x % ci;
    lemma_fundamental_div_mod(x, ci);
    lemma_mod_pos_bound(x, ci);
    assert(r == (visibles + c - 1) / (c as int));
    assert(ci * r >= vi && ci * (r - 1) < vi) by (nonlinear_arith)
        requires
            x == ci * r + m,
            0 <= m < ci,
            x == vi + ci - 1,
    ;
    assert(r >= 1) by (nonlinear_arith)
        requires
            ci * r >= vi,
            vi > 1,
            ci >= 1,
    ;
    // 100·v < (10c + 1)² gives v ≤ c² + c / 5, below c·(c + 1)
    assert(vi < ci * (ci + 1)) by (nonlinear_arith)
        requires
            100 * vi < (10 * ci + 1) * (10 * ci + 1),
            ci >= 1,
    ;
    assert(r <= ci + 1) by (nonlinear_arith)
        requires
            ci * (r - 1) < vi,
            vi < ci * (ci + 1),
            ci >= 1,
    ;
    if r > ci {
        assert(r == ci + 1);
        assert(vi > ci * ci) by (nonlinear_arith)
            requires
                ci * (r - 1) < vi,
                r == ci + 1,
        ;
        assert((ci + 1) * ci >= vi && (ci + 1) * (ci - 1) < vi) by (nonlinear_arith)
            requires
                vi < ci * (ci + 1),
                vi > ci * ci,
        ;
    }
}

/// Grid layout: places all visible streams in a grid on screen.
#[derive(Debug, Clone, Copy)]
pub struct Grid {
    resolution: Size,
    visibles: usize,
}

impl Default for Grid {
    fn default() -> (g: Self)
        ensures
            g.resolution() == (Size { width: 0, height: 0 }),
            g.visibles() == 0,
    {
        Grid { resolution: Size { width: 0, height: 0 }, visibles: 0 }
    }
}

/// The grid holds at least as many cells as streams, and has at least one column and row.
pub proof fn lemma_grid_holds_all(visibles: nat, c: nat)
    requires
        grid_inputs_ok(visibles, c),
    ensures
        grid_shape(visibles, c).0 >= 1,
        grid_shape(visibles, c).1 >= 1,
        grid_shape(visibles, c).0 * grid_shape(visibles, c).1 >= visibles,
{
    if visibles > 1 {
        let ci = c as int;
        let vi = visibles as int;
        let x = vi + ci - 1;
        let r = x / ci;
        let m = x % ci;
        lemma_fundamental_div_mod(x, ci);
        lemma_mod_pos_bound(x, ci);
        assert(r == (visibles + c - 1) / (c as int));
        assert(ci * r >= vi) by (nonlinear_arith)
            requires
                x == ci * r + m,
                m < ci,
                x == vi + ci - 1,
        ;
        assert(r >= 1) by (nonlinear_arith)
            requires
                ci * r >= visibles,
                visibles > 1,
                ci >= 1,
        ;
        if r > ci {
            assert((ci + 1) * (r - 1) >= visibles) by (nonlinear_arith)
                requires
                    ci * r >= visibles,
                    r - 1 >= ci,
            ;
        }
    }
}

impl Grid {
    /// A grid for `visibles` streams on a picture of the given resolution.
    pub fn new(resolution: Size, visibles: usize) -> (g: Self)
        ensures
            g.resolution() == resolution,
            g.visibles() == visibles,
    {
        Grid { resolution, visibles }
    }

    /// The resolution of the picture.
    pub closed spec fn resolution(&self) -> Size {
        self.resolution
    }

    /// The number of visible streams.
    pub closed spec fn visibles(&self) -> nat {
        self.visibles as nat
    }

    /// Updates the layout for a changed resolution.
    pub fn set_resolution_changed(&mut self, resolution: Size)
        ensures
            final(self).resolution() == resolution,
            final(self).visibles() == old(self).visibles(),
    {
        self.resolution = resolution;
    }

    /// Updates the layout for a changed number of visible streams.
    pub fn set_amount_of_visibles(&mut self, visibles: usize)
        ensures
            final(self).resolution() == old(self).resolution(),
            final(self).visibles() == visibles,
    {
        self.visibles = visibles;
    }

    /// The number of visible streams.
    pub fn amount_of_visibles(&self) -> (n: usize)
        ensures
            n == self.visibles(),
    {
        self.visibles
    }

    /// The resolution of the picture.
    pub fn current_resolution(&self) -> (r: Size)
        ensures
            r == self.resolution(),
    {
        self.resolution
    }

    /// Columns and rows of the grid, given the column estimate `⌊√visibles + 0.9⌋`.
    pub fn grid(&self, column_estimate: usize) -> (shape: (usize, usize))
        requires
            grid_inputs_ok(self.visibles(), column_estimate as nat),
        ensures
            (shape.0 as nat, shape.1 as nat) == grid_shape(self.visibles(), column_estimate as nat),
            shape.0 >= 1,
            shape.1 >= 1,
    {
        proof {
            lemma_grid_holds_all(self.visibles(), column_estimate as nat);
        }
        if self.visibles > 1 {
            let columns = column_estimate;
            let rows = (self.visibles + columns - 1) / columns;
            if rows > columns {
                (columns + 1, rows - 1)
            } else {
                (columns, rows)
            }
        } else {
            (1, 1)
        }
    }

    /// Number of columns of the grid.
    pub fn columns(&self, column_estimate: usize) -> (n: usize)
        requires
            grid_inputs_ok(self.visibles(), column_estimate as nat),
        ensures
            n == grid_shape(self.visibles(), column_estimate as nat).0,
    {
        self.grid(column_estimate).0
    }

    /// Number of rows of the grid.
    pub fn rows(&self, column_estimate: usize) -> (n: usize)
        requires
            grid_inputs_ok(self.visibles(), column_estimate as nat),
        ensures
            n == grid_shape(self.visibles(), column_estimate as nat).1,
    {
        self.grid(column_estimate).1
    }

    /// Width of a cell: the picture width divided by the number of columns.
    pub fn width(&self, column_estimate: usize) -> (w: usize)
        requires
            grid_inputs_ok(self.visibles(), column_estimate as nat),
        ensures
            w == (self.resolution().width as int) / (grid_shape(self.visibles(), column_estimate as nat).0 as int),
    {
        self.resolution.width / self.columns(column_estimate)
    }

    /// Size of a cell, given its height.
    pub fn uni_size(&self, column_estimate: usize, cell_height: usize) -> (s: Size)
        requires
            grid_inputs_ok(self.visibles(), column_estimate as nat),
        ensures
            s.width == (self.resolution().width as int) / (grid_shape(self.visibles(), column_estimate as nat).0 as int),
            s.height == cell_height,
    {
        Size { width: self.width(column_estimate), height: cell_height }
    }

    /// Height of a cell, given its height.
    pub fn height(&self, cell_height: usize) -> (h: usize)
        ensures
            h == cell_height,
    {
        cell_height
    }

    /// Space above (and below) the grid that centers it vertically.
    pub fn padding(&self, column_estimate: usize, cell_height: usize) -> (p: usize)
        requires
            grid_inputs_ok(self.visibles(), column_estimate as nat),
            cell_height * grid_shape(self.visibles(), column_estimate as nat).1 <= self.resolution().height,
        ensures
            p == (self.resolution().height - cell_height * grid_shape(self.visibles(), column_estimate as nat).1) / 2,
    {
        let rows = self.rows(column_estimate);
        (self.resolution.height - cell_height * rows) / 2
    }

    /// View of the stream at `stream_position`: none for a stream that is not visible;
    /// otherwise cells are filled row by row, every cell has the same size, and the grid is
    /// centered vertically.
    pub fn calculate_stream_view(&self, stream_position: usize, column_estimate: usize, cell_height: usize) -> (view: Option<View>)
        requires
            grid_inputs_ok(self.visibles(), column_estimate as nat),
            cell_height * grid_shape(self.visibles(), column_estimate as nat).1 <= self.resolution().height,
            stream_position < self.visibles() ==> grid_cell(
                self.resolution(),
                self.visibles(),
                column_estimate as nat,
                cell_height as nat,
                stream_position as nat,
            ).1 <= usize::MAX,
        ensures
            stream_position >= self.visibles() ==> view is None,
            stream_position < self.visibles() ==> ({
                let (x, y) = grid_cell(self.resolution(), self.visibles(), column_estimate as nat, cell_height as nat, stream_position as nat);
                view == Some(View {
                    pos: Position { x: x as i64, y: y as i64 },
                    size: Size {
                        width: ((self.resolution().width as int) / (grid_shape(self.visibles(), column_estimate as nat).0 as int)) as usize,
                        height: cell_height,
                    },
                })
            }),
    {
        if stream_position >= self.visibles {
            return None;
        }
        proof {
            lemma_grid_holds_all(self.visibles(), column_estimate as nat);
        }
        let columns = self.columns(column_estimate);
        let row = stream_position / columns;
        let column = stream_position % columns;
        let width = self.width(column_estimate);
        let padding = self.padding(column_estimate, cell_height);
        proof {
            let w = width as int;
            let cols = columns as int;
            lemma_mod_pos_bound(stream_position as int, cols);
            lemma_fundamental_div_mod(self.resolution().width as int, cols);
            lemma_mod_pos_bound(self.resolution().width as int, cols);
            assert(w * (column as int) <= self.resolution().width) by (nonlinear_arith)
                requires
                    0 <= column < cols,
                    w >= 0,
                    self.resolution().width as int == cols * w + (self.resolution().width as int) % cols,
                    (self.resolution().width as int) % cols >= 0,
            ;
        }
        let x = width * column;
        let y = cell_height * row + padding;
        Some(View { pos: Position { x: x as i64, y: y as i64 }, size: Size { width, height: cell_height } })
    }
}

/// Every visible stream lies within the picture, and no two visible streams overlap.
pub proof fn law_grid_cells_fit_and_do_not_overlap(
    resolution: Size,
    visibles: nat,
    c: nat,
    cell_height: nat,
    n1: nat,
    n2: nat,
)
    requires
        grid_inputs_ok(visibles, c),
        cell_height * grid_shape(visibles, c).1 <= resolution.height,
        n1 < visibles,
        n2 < visibles,
    ensures
        ({
            let (columns, rows) = grid_shape(visibles, c);
            let width = (resolution.width as int) / (columns as int);
            let (x1, y1) = grid_cell(resolution, visibles, c, cell_height, n1);
            let (x2, y2) = grid_cell(resolution, visibles, c, cell_height, n2);
            &&& 0 <= x1 && x1 + width <= resolution.width
            &&& 0 <= y1 && y1 + cell_height <= resolution.height
            &&& n1 != n2 ==> (x1 + width <= x2 || x2 + width <= x1 || y1 + cell_height <= y2 || y2 + cell_height <= y1)
        }),
{
    lemma_grid_holds_all(visibles, c);
    let (columns, rows) = grid_shape(visibles, c);
    let cols = columns as int;
    let w = (resolution.width as int) / cols;
    let h = cell_height as int;
    let padding = (resolution.height - h * rows) / 2;
    lemma_fundamental_div_mod(resolution.width as int, cols);
    lemma_mod_pos_bound(resolution.width as int, cols);
    lemma_fundamental_div_mod(n1 as int, cols);
    lemma_mod_pos_bound(n1 as int, cols);
    lemma_fundamental_div_mod(n2 as int, cols);
    lemma_mod_pos_bound(n2 as int, cols);
    let r1 = n1 as int / cols;
    let k1 = n1 as int % cols;
    let r2 = n2 as int / cols;
    let k2 = n2 as int % cols;
    assert(w >= 0 && r1 >= 0 && r2 >= 0) by (nonlinear_arith)
        requires
            cols >= 1,
            resolution.width >= 0,
            n1 >= 0,
            n2 >= 0,
            w == (resolution.width as int) / cols,
            r1 == n1 as int / cols,
            r2 == n2 as int / cols,
    ;
    assert(r1 < rows && r2 < rows) by (nonlinear_arith)
        requires
            n1 == cols * r1 + k1,
            n2 == cols * r2 + k2,
            0 <= k1,
            0 <= k2,
            cols >= 1,
            n1 < visibles,
            n2 < visibles,
            cols * rows >= visibles,
    ;
    assert(w * (k1 + 1) <= resolution.width) by (nonlinear_arith)
        requires
            0 <= k1 < cols,
            w >= 0,
            resolution.width == cols * w + (resolution.width as int) % cols,
            (resolution.width as int) % cols >= 0,
    ;
    assert(h * (r1 + 1) <= h * rows) by (nonlinear_arith)
        requires
            r1 < rows,
            h >= 0,
    ;
    assert(0 <= w * k1 && 0 <= h * r1) by (nonlinear_arith)
        requires
            w >= 0,
            k1 >= 0,
            h >= 0,
            r1 >= 0,
    ;
    assert(grid_cell(resolution, visibles, c, cell_height, n1) == (w * k1, h * r1 + padding));
    assert(grid_cell(resolution, visibles, c, cell_height, n2) == (w * k2, h * r2 + padding));
    assert(h * (r1 + 1) == h * r1 + h) by (nonlinear_arith);
    assert(w * (k1 + 1) == w * k1 + w) by (nonlinear_arith);
    assert(0 <= h * rows && h * rows <= resolution.height);
    if n1 != n2 {
        if k1 != k2 {
            if k1 < k2 {
                assert(w * k1 + w <= w * k2) by (nonlinear_arith)
                    requires
                        k1 < k2,
                        w >= 0,
                ;
            } else {
                assert(w * k2 + w <= w * k1) by (nonlinear_arith)
                    requires
                        k2 < k1,
                        w >= 0,
                ;
            }
        } else {
            assert(r1 != r2);
            if r1 < r2 {
                assert(h * r1 + h <= h * r2) by (nonlinear_arith)
                    requires
                        r1 < r2,
                        h >= 0,
                ;
            } else {
                assert(h * r2 + h <= h * r1) by (nonlinear_arith)
                    requires
                        r2 < r1,
                        h >= 0,
                ;
            }
        }
    }
}

} // verus!
