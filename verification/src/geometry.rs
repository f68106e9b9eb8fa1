//! Grid geometry: tile sizes, tile origins and the order of emission.

use vstd::prelude::*;
use vstd::arithmetic::div_mod::{lemma_fundamental_div_mod, lemma_fundamental_div_mod_converse};
use vstd::arithmetic::mul::lemma_mul_is_commutative;

verus! {

/// The mathematical description of a slicing grid: a picture of `width` by
/// `height` pixels cut into `columns` by `rows` tiles of equal size.
pub struct Grid {
    pub width: nat,
    pub height: nat,
    pub columns: nat,
    pub rows: nat,
}

impl Grid {
    /// A grid has at least one column and one row.
    pub open spec fn valid(self) -> bool {
        self.columns >= 1 && self.rows >= 1
    }

    /// Width of every tile: the source width divided by the number of
    /// columns, rounded down.
    pub open spec fn tile_width(self) -> nat {
        self.width / self.columns
    }

    /// Height of every tile: the source height divided by the number of
    /// rows, rounded down.
    pub open spec fn tile_height(self) -> nat {
        self.height / self.rows
    }

    /// Number of tiles in the grid.
    pub open spec fn tile_count(self) -> nat {
        self.columns * self.rows
    }

    /// Width of the part of the source that the tiles cover.
    pub open spec fn covered_width(self) -> nat {
        self.columns * self.tile_width()
    }

    /// Height of the part of the source that the tiles cover.
    pub open spec fn covered_height(self) -> nat {
        self.rows * self.tile_height()
    }

    /// A tile has no pixels when there are more columns than pixel columns,
    /// or more rows than pixel rows.
    pub open spec fn degenerate(self) -> bool {
        self.columns > self.width || self.rows > self.height
    }

    /// Whether `(column, row)` names a tile of the grid (zero-based).
    pub open spec fn has_tile(self, column: int, row: int) -> bool {
        0 <= column < self.columns && 0 <= row < self.rows
    }

    /// Leftmost source column of the tiles in grid column `column`.
    pub open spec fn origin_x(self, column: int) -> int {
        column * self.tile_width()
    }

    /// Topmost source row of the tiles in grid row `row`.
    pub open spec fn origin_y(self, row: int) -> int {
        row * self.tile_height()
    }

    /// Position in the order of emission of tile `(column, row)`: columns
    /// one after the other, each from its top row to its bottom row.
    pub open spec fn index_of(self, column: int, row: int) -> int {
        column * self.rows + row
    }

    /// Grid column of the tile at position `index` in the order of emission.
    pub open spec fn column_of(self, index: int) -> int {
        index / (self.rows as int)
    }

    /// Grid row of the tile at position `index` in the order of emission.
    pub open spec fn row_of(self, index: int) -> int {
        index % (self.rows as int)
    }

    /// Whether tile `(column, row)` holds the source pixel `(x, y)`.
    pub open spec fn tile_holds(self, column: int, row: int, x: int, y: int) -> bool {
        &&& self.has_tile(column, row)
        &&& self.origin_x(column) <= x < self.origin_x(column) + self.tile_width()
        &&& self.origin_y(row) <= y < self.origin_y(row) + self.tile_height()
    }

    /// Whether some tile holds the source pixel `(x, y)`.
    pub open spec fn covers(self, x: int, y: int) -> bool {
        exists|column: int, row: int| self.tile_holds(column, row, x, y)
    }
}

/// Along one axis: `count` pieces of length `extent / count` laid end to end
/// from zero stay inside `extent`.
pub proof fn lemma_pieces_fit(extent: nat, count: nat, k: int)
    requires
        count >= 1,
        0 <= k < count,
    ensures
        0 <= k * (extent / count),
        k * (extent / count) + extent / count <= count * (extent / count),
        count * (extent / count) <= extent,
{
    let piece: int = (extent / count) as int;
    let n: int = count as int;
    let e: int = extent as int;
    assert(0 <= k * piece) by (nonlinear_arith)
        requires
            0 <= k,
            0 <= piece,
    ;
    assert(k * piece + piece <= n * piece) by (nonlinear_arith)
        requires
            k + 1 <= n,
            0 <= piece,
    ;
    assert(n * piece <= e) by {
        lemma_fundamental_div_mod(e, n);
    }
}

/// Along one axis: position `p` lies in piece `k` exactly when `k` is
/// `p / piece`, and then its offset in the piece is `p % piece`.
pub proof fn lemma_piece_of_position(piece: nat, k: int, p: int)
    requires
        0 <= k,
        k * piece <= p < k * piece + piece,
    ensures
        piece > 0,
        k == p / (piece as int),
        p - k * piece == p % (piece as int),
{
    let d: int = piece as int;
    let r: int = p - k * d;
    assert(d * k == k * d) by {
        lemma_mul_is_commutative(d, k);
    }
    lemma_fundamental_div_mod_converse(p, d, k, r);
}

/// Every tile lies inside the covered part of the source, and the covered
/// part inside the source.
pub proof fn lemma_tile_within_source(grid: Grid, column: int, row: int)
    requires
        grid.valid(),
        grid.has_tile(column, row),
    ensures
        0 <= grid.origin_x(column),
        0 <= grid.origin_y(row),
        grid.origin_x(column) + grid.tile_width() <= grid.covered_width() <= grid.width,
        grid.origin_y(row) + grid.tile_height() <= grid.covered_height() <= grid.height,
{
    lemma_pieces_fit(grid.width, grid.columns, column);
    lemma_pieces_fit(grid.height, grid.rows, row);
}

/// A source pixel lies in some tile exactly when it lies in the covered
/// part of the source; pixels to the right of it or below it are in no tile.
/// A covered pixel `(x, y)` lies in tile `(x / tile_width, y / tile_height)`
/// and in no other.
pub proof fn lemma_covered_region(grid: Grid, x: int, y: int)
    requires
        grid.valid(),
        0 <= x,
        0 <= y,
    ensures
        grid.covers(x, y) <==> x < grid.covered_width() && y < grid.covered_height(),
        forall|column: int, row: int|
            grid.tile_holds(column, row, x, y) ==> column == x / (grid.tile_width() as int) && row
                == y / (grid.tile_height() as int),
        grid.covers(x, y) ==> grid.tile_holds(
            x / (grid.tile_width() as int),
            y / (grid.tile_height() as int),
            x,
            y,
        ),
{
    let tw: int = grid.tile_width() as int;
    let th: int = grid.tile_height() as int;
    assert forall|column: int, row: int| grid.tile_holds(column, row, x, y) implies column == x / tw
        && row == y / th && x < grid.covered_width() && y < grid.covered_height() by {
        lemma_piece_of_position(grid.tile_width(), column, x);
        lemma_piece_of_position(grid.tile_height(), row, y);
        lemma_tile_within_source(grid, column, row);
    }
    if x < grid.covered_width() && y < grid.covered_height() {
        lemma_position_in_piece(grid.tile_width(), grid.columns, x);
        lemma_position_in_piece(grid.tile_height(), grid.rows, y);
        assert(grid.tile_holds(x / tw, y / th, x, y));
    }
}

/// Along one axis: a position below `count * piece` lies in piece
/// `p / piece`, which is one of the `count` pieces.
pub proof fn lemma_position_in_piece(piece: nat, count: nat, p: int)
    requires
        0 <= p < count * piece,
    ensures
        piece > 0,
        0 <= p / (piece as int) < count,
        (p / (piece as int)) * piece <= p < (p / (piece as int)) * piece + piece,
{
    let d: int = piece as int;
    let n: int = count as int;
    assert(d > 0) by (nonlinear_arith)
        requires
            0 <= p < n * d,
            0 <= d,
    ;
    lemma_fundamental_div_mod(p, d);
    let q: int = p / d;
    assert(d * q == q * d) by {
        lemma_mul_is_commutative(d, q);
    }
    assert(0 <= q < n) by (nonlinear_arith)
        requires
            0 <= p < n * d,
            d > 0,
            p == q * d + p % d,
            0 <= p % d < d,
    ;
}

/// The order of emission numbers the tiles of the grid one to one: every
/// tile has a position below the tile count, and every such position gives
/// back the tile it belongs to.
pub proof fn lemma_emission_order(grid: Grid, column: int, row: int, index: int)
    requires
        grid.valid(),
    ensures
        grid.has_tile(column, row) ==> {
            &&& 0 <= grid.index_of(column, row) < grid.tile_count()
            &&& grid.column_of(grid.index_of(column, row)) == column
            &&& grid.row_of(grid.index_of(column, row)) == row
        },
        0 <= index < grid.tile_count() ==> {
            &&& grid.has_tile(grid.column_of(index), grid.row_of(index))
            &&& grid.index_of(grid.column_of(index), grid.row_of(index)) == index
        },
{
    let n: int = grid.rows as int;
    if grid.has_tile(column, row) {
        let k: int = column * n + row;
        assert(0 <= column * n && column * n + n <= grid.columns * n) by (nonlinear_arith)
            requires
                0 <= column,
                column + 1 <= grid.columns,
                n >= 1,
        ;
        assert(n * column == column * n) by {
            lemma_mul_is_commutative(n, column);
        }
        lemma_fundamental_div_mod_converse(k, n, column, row);
    }
    if 0 <= index < grid.tile_count() {
        lemma_mul_is_commutative(grid.columns as int, n);
        lemma_position_in_piece(grid.rows, grid.columns, index);
        lemma_fundamental_div_mod(index, n);
        lemma_mul_is_commutative(n, index / n);
    }
}

/// A slicing plan: the size of a source picture and the number of columns
/// and rows to cut it into. The plan is fixed once made.
#[derive(Clone, Copy, Debug, PartialEq, Eq)]
pub struct GridPlan {
    width: u32,
    height: u32,
    columns: u8,
    rows: u8,
}

impl View for GridPlan {
    type V = Grid;

    closed spec fn view(&self) -> Grid {
        Grid {
            width: self.width as nat,
            height: self.height as nat,
            columns: self.columns as nat,
            rows: self.rows as nat,
        }
    }
}

impl GridPlan {
    /// A plan describes a valid grid whose numbers fit the machine types
    /// that carry them.
    pub open spec fn wf(&self) -> bool {
        &&& self@.valid()
        &&& self@.width <= u32::MAX
        &&& self@.height <= u32::MAX
        &&& self@.columns <= u8::MAX
        &&& self@.rows <= u8::MAX
    }

    /// Plans the cutting of a `width` by `height` source into `x_slices`
    /// columns and `y_slices` rows.
    pub fn new(width: u32, height: u32, x_slices: u8, y_slices: u8) -> (plan: GridPlan)
        requires
            x_slices >= 1,
            y_slices >= 1,
        ensures
            plan.wf(),
            plan@ == (Grid {
                width: width as nat,
                height: height as nat,
                columns: x_slices as nat,
                rows: y_slices as nat,
            }),
    {
        GridPlan { width, height, columns: x_slices, rows: y_slices }
    }

    /// Width of the source in pixels.
    pub fn width(&self) -> (w: u32)
        ensures
            w == self@.width,
    {
        self.width
    }

    /// Height of the source in pixels.
    pub fn height(&self) -> (h: u32)
        ensures
            h == self@.height,
    {
        self.height
    }

    /// Number of columns of the grid.
    pub fn columns(&self) -> (n: u32)
        ensures
            n == self@.columns,
    {
        self.columns as u32
    }

    /// Number of rows of the grid.
    pub fn rows(&self) -> (n: u32)
        ensures
            n == self@.rows,
    {
        self.rows as u32
    }

    /// Width of every tile.
    pub fn tile_width(&self) -> (w: u32)
        requires
            self.wf(),
        ensures
            w == self@.tile_width(),
    {
        self.width / (self.columns as u32)
    }

    /// Height of every tile.
    pub fn tile_height(&self) -> (h: u32)
        requires
            self.wf(),
        ensures
            h == self@.tile_height(),
    {
        self.height / (self.rows as u32)
    }

    /// Number of tiles that the plan emits.
    pub fn tile_count(&self) -> (n: u32)
        requires
            self.wf(),
        ensures
            n == self@.tile_count(),
            1 <= n <= 65025,
    {
        proof {
            lemma_count_bounds(self@.columns, self@.rows);
        }
        (self.columns as u32) * (self.rows as u32)
    }

    /// Whether the tiles of this plan have no pixels.
    pub fn is_degenerate(&self) -> (d: bool)
        requires
            self.wf(),
        ensures
            d == self@.degenerate(),
            d == (self@.tile_width() == 0 || self@.tile_height() == 0),
    {
        proof {
            lemma_piece_is_empty(self@.width, self@.columns);
            lemma_piece_is_empty(self@.height, self@.rows);
        }
        (self.columns as u32) > self.width || (self.rows as u32) > self.height
    }

    /// Top left corner, in the source, of tile `(column, row)`.
    pub fn origin(&self, column: u32, row: u32) -> (corner: (u32, u32))
        requires
            self.wf(),
            self@.has_tile(column as int, row as int),
        ensures
            corner.0 == self@.origin_x(column as int),
            corner.1 == self@.origin_y(row as int),
            corner.0 + self@.tile_width() <= self@.width,
            corner.1 + self@.tile_height() <= self@.height,
    {
        proof {
            lemma_tile_within_source(self@, column as int, row as int);
        }
        (column * self.tile_width(), row * self.tile_height())
    }

    /// Grid coordinates `(column, row)` of the tile at position `index` in
    /// the order of emission: columns one after the other, each from its
    /// top row to its bottom row.
    pub fn coordinates(&self, index: u32) -> (tile: (u32, u32))
        requires
            self.wf(),
            index < self@.tile_count(),
        ensures
            tile.0 == self@.column_of(index as int),
            tile.1 == self@.row_of(index as int),
            self@.has_tile(tile.0 as int, tile.1 as int),
            self@.index_of(tile.0 as int, tile.1 as int) == index,
    {
        proof {
            lemma_emission_order(self@, 0, 0, index as int);
        }
        (index / (self.rows as u32), index % (self.rows as u32))
    }
}

/// The tile count of a grid of at most 255 columns and 255 rows.
proof fn lemma_count_bounds(columns: nat, rows: nat)
    requires
        1 <= columns <= 255,
        1 <= rows <= 255,
    ensures
        1 <= columns * rows <= 65025,
{
    assert(1 <= columns * rows <= 65025) by (nonlinear_arith)
        requires
            1 <= columns <= 255,
            1 <= rows <= 255,
    ;
}

/// Along one axis: a piece is empty exactly when there are more pieces
/// than positions.
pub proof fn lemma_piece_is_empty(extent: nat, count: nat)
    requires
        count >= 1,
    ensures
        extent / count == 0 <==> count > extent,
{
    let e: int = extent as int;
    let n: int = count as int;
    lemma_fundamental_div_mod(e, n);
    assert(e / n == 0 <==> n > e) by (nonlinear_arith)
        requires
            n >= 1,
            e >= 0,
            e == n * (e / n) + e % n,
            0 <= e % n < n,
    ;
}

} // verus!
