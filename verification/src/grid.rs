//! Fixed-size block grids.
//!
//! A `BlockGrid` is a tagged union over three fixed shapes (3x3, 3x4, 4x4)
//! holding one element per cell in row-major order.  Square grids support a
//! 90-degree rotation; the non-square 3x4 shape deliberately does not rotate.

use vstd::prelude::*;

verus! {

/// The three fixed shapes a block grid can take.
#[derive(Clone, Copy, Debug, PartialEq, Eq, Structural)]
pub enum GridShape {
    ThreeByThree,
    ThreeByFour,
    FourByFour,
}

impl GridShape {
    /// Number of rows of a grid of this shape.
    pub open spec fn spec_rows(self) -> nat {
        match self {
            GridShape::ThreeByThree => 3,
            GridShape::ThreeByFour => 3,
            GridShape::FourByFour => 4,
        }
    }

    /// Number of columns of a grid of this shape.
    pub open spec fn spec_cols(self) -> nat {
        match self {
            GridShape::ThreeByThree => 3,
            GridShape::ThreeByFour => 4,
            GridShape::FourByFour => 4,
        }
    }

    /// A shape is square when its row and column counts agree; only square
    /// shapes rotate.
    pub open spec fn is_square(self) -> bool {
        self.spec_rows() == self.spec_cols()
    }

    pub fn rows(self) -> (r: usize)
        ensures
            r == self.spec_rows(),
    {
        match self {
            GridShape::ThreeByThree => 3,
            GridShape::ThreeByFour => 3,
            GridShape::FourByFour => 4,
        }
    }

    pub fn cols(self) -> (r: usize)
        ensures
            r == self.spec_cols(),
    {
        match self {
            GridShape::ThreeByThree => 3,
            GridShape::ThreeByFour => 4,
            GridShape::FourByFour => 4,
        }
    }
}

/// A fixed-shape grid of `T` cells, stored row-major.
#[derive(Debug)]
pub struct BlockGrid<T> {
    pub shape: GridShape,
    pub cells: Vec<T>,
}

/// Row-major position of the cell `src` that a 90-degree rotation moves to
/// position `k`: for a square side `n`, `rotated[j][n - 1 - i] = original[i][j]`,
/// so the cell at destination row `r`, column `c` comes from row `n - 1 - c`,
/// column `r`.  Non-square shapes do not rotate and keep every cell in place.
pub open spec fn rotate_src(shape: GridShape, k: int) -> int {
    if shape.is_square() {
        let n = shape.spec_rows() as int;
        (n - 1 - (k % n)) * n + k / n
    } else {
        k
    }
}

/// The cell sequence of a grid of the given shape after one 90-degree rotation.
pub open spec fn spec_rotate<T>(shape: GridShape, cells: Seq<T>) -> Seq<T> {
    Seq::new(cells.len(), |k: int| cells[rotate_src(shape, k)])
}

impl<T> BlockGrid<T> {
    /// The cell vector is exactly large enough for the shape.
    pub open spec fn wf(self) -> bool {
        self.cells@.len() == self.shape.spec_rows() * self.shape.spec_cols()
    }

    pub open spec fn spec_shape(self) -> GridShape {
        self.shape
    }

    pub open spec fn spec_cells(self) -> Seq<T> {
        self.cells@
    }

    /// The cell at row `r`, column `c`.
    pub open spec fn cell(self, r: int, c: int) -> T {
        self.cells@[r * self.shape.spec_cols() + c]
    }

    pub fn shape(&self) -> (s: GridShape)
        ensures
            s == self.spec_shape(),
    {
        self.shape
    }

    /// Whether this grid and `rhs` have the same shape, regardless of the
    /// element types.
    pub fn is_same_size<T2>(&self, rhs: &BlockGrid<T2>) -> (r: bool)
        ensures
            r == (self.spec_shape() == rhs.spec_shape()),
    {
        self.shape == rhs.shape
    }
}

impl<T: Copy> BlockGrid<T> {
    /// A grid of the given shape with every cell set to `fill`.
    pub fn new_filled(shape: GridShape, fill: T) -> (r: Self)
        ensures
            r.wf(),
            r.spec_shape() == shape,
            forall|k: int| 0 <= k < r.spec_cells().len() ==> r.spec_cells()[k] == fill,
    {
        let rows = shape.rows();
        let cols = shape.cols();
        assert(rows <= 4 && cols <= 4);
        assert(rows * cols <= 16) by (nonlinear_arith)
            requires
                rows <= 4,
                cols <= 4,
        ;
        let n = rows * cols;
        let mut cells: Vec<T> = Vec::new();
        let mut k: usize = 0;
        while k < n
            invariant
                k <= n,
                cells@.len() == k,
                forall|m: int| 0 <= m < k ==> cells@[m] == fill,
            decreases n - k,
        {
            cells.push(fill);
            k = k + 1;
        }
        BlockGrid { shape, cells }
    }

    /// The cell at `(row, col)`.
    pub fn get(&self, row: usize, col: usize) -> (r: T)
        requires
            self.wf(),
            row < self.spec_shape().spec_rows(),
            col < self.spec_shape().spec_cols(),
        ensures
            r == self.cell(row as int, col as int),
    {
        let cols = self.shape.cols();
        proof {
            lemma_row_major_bound(
                self.shape.spec_rows() as int,
                self.shape.spec_cols() as int,
                row as int,
                col as int,
            );
        }
        self.cells[row * cols + col]
    }

    /// Replace the cell at `(row, col)`.
    pub fn set_cell(&mut self, row: usize, col: usize, v: T)
        requires
            old(self).wf(),
            row < old(self).spec_shape().spec_rows(),
            col < old(self).spec_shape().spec_cols(),
        ensures
            final(self).wf(),
            final(self).spec_shape() == old(self).spec_shape(),
            final(self).spec_cells() == old(self).spec_cells().update(
                row as int * old(self).spec_shape().spec_cols() + col as int,
                v,
            ),
    {
        let cols = self.shape.cols();
        proof {
            lemma_row_major_bound(
                self.shape.spec_rows() as int,
                self.shape.spec_cols() as int,
                row as int,
                col as int,
            );
        }
        self.cells.set(row * cols + col, v);
    }

    /// The cells of row `r`, in column order.
    pub fn row(&self, r: usize) -> (out: Vec<T>)
        requires
            self.wf(),
            r < self.spec_shape().spec_rows(),
        ensures
            out@.len() == self.spec_shape().spec_cols(),
            forall|c: int|
                0 <= c < out@.len() ==> out@[c] == self.cell(r as int, c),
    {
        let cols = self.shape.cols();
        let mut out: Vec<T> = Vec::new();
        let mut c: usize = 0;
        proof {
            lemma_row_major_bound(
                self.shape.spec_rows() as int,
                self.shape.spec_cols() as int,
                r as int,
                cols as int - 1,
            );
        }
        while c < cols
            invariant
                c <= cols,
                out@.len() == c,
                self.wf(),
                r < self.spec_shape().spec_rows(),
                cols == self.spec_shape().spec_cols(),
                r as int * cols as int + cols as int <= self.spec_cells().len(),
                forall|m: int| 0 <= m < c ==> out@[m] == self.cell(r as int, m),
            decreases cols - c,
        {
            out.push(self.cells[r * cols + c]);
            c = c + 1;
        }
        out
    }

    /// One 90-degree rotation.  For a square side `n` the cell at
    /// `original[i][j]` moves to `rotated[j][n - 1 - i]`; the non-square 3x4
    /// shape is returned unchanged.
    pub fn rotate(&self) -> (r: Self)
        requires
            self.wf(),
        ensures
            r.wf(),
            r.spec_shape() == self.spec_shape(),
            r.spec_cells() == spec_rotate(self.spec_shape(), self.spec_cells()),
            self.spec_shape().is_square() ==> forall|i: int, j: int|
                0 <= i < self.spec_shape().spec_rows() && 0 <= j
                    < self.spec_shape().spec_rows() ==> #[trigger] r.cell(
                    j,
                    self.spec_shape().spec_rows() - 1 - i,
                ) == self.cell(i, j),
            !self.spec_shape().is_square() ==> r.spec_cells() == self.spec_cells(),
    {
        let rows = self.shape.rows();
        let cols = self.shape.cols();
        let square = rows == cols;
        assert(rows <= 4 && cols <= 4);
        assert(rows * cols <= 16) by (nonlinear_arith)
            requires
                rows <= 4,
                cols <= 4,
        ;
        let n = rows * cols;
        let mut cells: Vec<T> = Vec::new();
        let mut k: usize = 0;
        while k < n
            invariant
                k <= n,
                cells@.len() == k,
                self.wf(),
                rows == self.spec_shape().spec_rows(),
                cols == self.spec_shape().spec_cols(),
                square == self.spec_shape().is_square(),
                n == rows * cols,
                forall|m: int|
                    0 <= m < k ==> cells@[m] == self.spec_cells()[rotate_src(
                        self.spec_shape(),
                        m,
                    )],
            decreases n - k,
        {
            let src: usize = if square {
                let r = k / rows;
                let c = k % rows;
                proof {
                    lemma_rotate_src_bound(rows as int, k as int);
                }
                (rows - 1 - c) * rows + r
            } else {
                k
            };
            cells.push(self.cells[src]);
            k = k + 1;
        }
        let out = BlockGrid { shape: self.shape, cells };
        proof {
            assert(out.spec_cells() =~= spec_rotate(self.spec_shape(), self.spec_cells()));
            if self.spec_shape().is_square() {
                lemma_rotate_cellwise(*self, out);
            }
        }
        out
    }
}

/// In a grid of `rows` x `cols`, the row-major index of `(r, c)` is in range.
proof fn lemma_row_major_bound(rows: int, cols: int, r: int, c: int)
    requires
        0 <= r < rows,
        0 <= c < cols,
    ensures
        0 <= r * cols + c < rows * cols,
        (r * cols + c) / cols == r,
        (r * cols + c) % cols == c,
{
    assert(r * cols + c < rows * cols && 0 <= r * cols + c) by (nonlinear_arith)
        requires
            0 <= r < rows,
            0 <= c < cols,
    ;
    assert((r * cols + c) / cols == r && (r * cols + c) % cols == c) by (nonlinear_arith)
        requires
            0 <= r,
            0 <= c < cols,
    ;
}

/// The rotation source index stays inside the square grid.
proof fn lemma_rotate_src_bound(n: int, k: int)
    requires
        1 <= n,
        0 <= k < n * n,
    ensures
        0 <= k / n < n,
        0 <= k % n < n,
        0 <= (n - 1 - (k % n)) * n + k / n < n * n,
{
    assert(0 <= k / n < n && 0 <= k % n < n) by (nonlinear_arith)
        requires
            1 <= n,
            0 <= k < n * n,
    ;
    assert(0 <= (n - 1 - (k % n)) * n + k / n < n * n) by (nonlinear_arith)
        requires
            1 <= n,
            0 <= k / n < n,
            0 <= k % n < n,
    ;
}

/// Restate a rotation of a square grid cell by cell.
proof fn lemma_rotate_cellwise<T>(g: BlockGrid<T>, out: BlockGrid<T>)
    requires
        g.wf(),
        g.spec_shape().is_square(),
        out.spec_shape() == g.spec_shape(),
        out.spec_cells() == spec_rotate(g.spec_shape(), g.spec_cells()),
    ensures
        forall|i: int, j: int|
            0 <= i < g.spec_shape().spec_rows() && 0 <= j < g.spec_shape().spec_rows()
                ==> #[trigger] out.cell(j, g.spec_shape().spec_rows() - 1 - i) == g.cell(i, j),
{
    let n = g.spec_shape().spec_rows() as int;
    assert forall|i: int, j: int|
        0 <= i < n && 0 <= j < n implies #[trigger] out.cell(j, n - 1 - i) == g.cell(i, j) by {
        let k = j * n + (n - 1 - i);
        lemma_row_major_bound(n, n, j, n - 1 - i);
        assert(out.cell(j, n - 1 - i) == out.spec_cells()[k]);
        assert(out.spec_cells()[k] == g.spec_cells()[rotate_src(g.spec_shape(), k)]);
        assert(rotate_src(g.spec_shape(), k) == (n - 1 - (n - 1 - i)) * n + j);
        assert((n - 1 - (n - 1 - i)) * n + j == i * n + j);
    }
}

/// Rotating a square grid four times restores the original grid, for every
/// element type; the non-square shape never changes under rotation at all.
pub proof fn lemma_rotate_four_times_identity<T>(shape: GridShape, cells: Seq<T>)
    requires
        cells.len() == shape.spec_rows() * shape.spec_cols(),
    ensures
        spec_rotate(
            shape,
            spec_rotate(shape, spec_rotate(shape, spec_rotate(shape, cells))),
        ) == cells,
{
    let c1 = spec_rotate(shape, cells);
    let c2 = spec_rotate(shape, c1);
    let c3 = spec_rotate(shape, c2);
    let c4 = spec_rotate(shape, c3);
    if shape.is_square() {
        let n = shape.spec_rows() as int;
        assert forall|k: int| 0 <= k < cells.len() implies c4[k] == cells[k] by {
            lemma_rotate_src_bound(n, k);
            let k1 = rotate_src(shape, k);
            lemma_rotate_src_bound(n, k1);
            let k2 = rotate_src(shape, k1);
            lemma_rotate_src_bound(n, k2);
            let k3 = rotate_src(shape, k2);
            lemma_rotate_src_bound(n, k3);
            let r = k / n;
            let c = k % n;
            vstd::arithmetic::div_mod::lemma_fundamental_div_mod(k, n);
            lemma_row_major_bound(n, n, n - 1 - c, r);
            assert(k1 == (n - 1 - c) * n + r);
            assert(k1 / n == n - 1 - c && k1 % n == r);
            lemma_row_major_bound(n, n, n - 1 - r, n - 1 - c);
            assert(k2 == (n - 1 - r) * n + (n - 1 - c));
            assert(k2 / n == n - 1 - r && k2 % n == n - 1 - c);
            lemma_row_major_bound(n, n, c, n - 1 - r);
            assert(k3 == c * n + (n - 1 - r));
            assert(k3 / n == c && k3 % n == n - 1 - r);
            lemma_row_major_bound(n, n, r, c);
            assert(rotate_src(shape, k3) == r * n + c);
            assert(c4[k] == cells[r * n + c]);
        }
        assert(c4 =~= cells);
    } else {
        assert(c4 =~= cells);
    }
}

/// A cell position inside a block grid: `x` is the column, `y` the row.
#[derive(Clone, Copy, Debug, PartialEq, Eq, Structural)]
pub struct GridPos {
    pub x: u32,
    pub y: u32,
}

/// An axis-aligned rectangle of grid cells, both corners inclusive.
#[derive(Clone, Copy, Debug, PartialEq, Eq, Structural)]
pub struct GridRect {
    pub min: GridPos,
    pub max: GridPos,
}

impl GridRect {
    /// The smallest rectangle containing both corners, whichever way round
    /// they are given.
    pub fn from_corners(a: GridPos, b: GridPos) -> (r: GridRect)
        ensures
            r.min.x == if a.x <= b.x { a.x } else { b.x },
            r.min.y == if a.y <= b.y { a.y } else { b.y },
            r.max.x == if a.x >= b.x { a.x } else { b.x },
            r.max.y == if a.y >= b.y { a.y } else { b.y },
    {
        let min = GridPos { x: if a.x <= b.x { a.x } else { b.x }, y: if a.y <= b.y { a.y } else { b.y } };
        let max = GridPos { x: if a.x >= b.x { a.x } else { b.x }, y: if a.y >= b.y { a.y } else { b.y } };
        GridRect { min, max }
    }
}

/// How the geometric center of a grid is defined: one center cell for 3x3
/// grids, or the average of a 2x2 block of cells for the wider shapes.
#[derive(Clone, Copy, Debug, PartialEq, Eq, Structural)]
pub enum OriginType {
    Single(GridPos),
    QuadAvg(GridPos, GridPos, GridPos, GridPos),
}

/// The computed center of a grid of positions: a single cell value, or the
/// bounding rectangle of the 2x2 block whose average is the center.
#[derive(Clone, Copy, Debug, PartialEq, Eq, Structural)]
pub enum Origin {
    Single(GridPos),
    QuadAvg(GridRect),
}

impl<T> BlockGrid<T> {
    /// Which cells of this grid define its geometric center.
    pub fn origin_type(&self) -> (r: OriginType)
        ensures
            r == self.spec_shape().spec_origin_type(),
    {
        match self.shape {
            GridShape::ThreeByThree => OriginType::Single(GridPos { x: 1, y: 1 }),
            GridShape::ThreeByFour => OriginType::QuadAvg(
                GridPos { x: 1, y: 0 },
                GridPos { x: 1, y: 1 },
                GridPos { x: 2, y: 0 },
                GridPos { x: 2, y: 1 },
            ),
            GridShape::FourByFour => OriginType::QuadAvg(
                GridPos { x: 1, y: 1 },
                GridPos { x: 1, y: 2 },
                GridPos { x: 2, y: 1 },
                GridPos { x: 2, y: 2 },
            ),
        }
    }
}

impl GridShape {
    /// The origin cells of each shape, as fixed positions.
    pub open spec fn spec_origin_type(self) -> OriginType {
        match self {
            GridShape::ThreeByThree => OriginType::Single(GridPos { x: 1, y: 1 }),
            GridShape::ThreeByFour => OriginType::QuadAvg(
                GridPos { x: 1, y: 0 },
                GridPos { x: 1, y: 1 },
                GridPos { x: 2, y: 0 },
                GridPos { x: 2, y: 1 },
            ),
            GridShape::FourByFour => OriginType::QuadAvg(
                GridPos { x: 1, y: 1 },
                GridPos { x: 1, y: 2 },
                GridPos { x: 2, y: 1 },
                GridPos { x: 2, y: 2 },
            ),
        }
    }
}

impl BlockGrid<GridPos> {
    /// The center of a grid whose cells hold positions: the single center
    /// cell's value for 3x3 grids, or the rectangle spanned by the 2x2 origin
    /// block for the wider shapes.
    pub fn origin(&self) -> (r: Origin)
        requires
            self.wf(),
        ensures
            self.spec_shape() == GridShape::ThreeByThree ==> r == Origin::Single(
                self.cell(1, 1),
            ),
            self.spec_shape() == GridShape::ThreeByFour ==> (r matches Origin::QuadAvg(
                rect,
            ) && rect == spec_corner_rect(self.cell(0, 1), self.cell(1, 2))),
            self.spec_shape() == GridShape::FourByFour ==> (r matches Origin::QuadAvg(
                rect,
            ) && rect == spec_corner_rect(self.cell(1, 1), self.cell(2, 2))),
    {
        match self.shape {
            GridShape::ThreeByThree => Origin::Single(self.get(1, 1)),
            GridShape::ThreeByFour => Origin::QuadAvg(
                GridRect::from_corners(self.get(0, 1), self.get(1, 2)),
            ),
            GridShape::FourByFour => Origin::QuadAvg(
                GridRect::from_corners(self.get(1, 1), self.get(2, 2)),
            ),
        }
    }
}

/// The rectangle `GridRect::from_corners` builds from two corners.
pub open spec fn spec_corner_rect(a: GridPos, b: GridPos) -> GridRect {
    GridRect {
        min: GridPos {
            x: if a.x <= b.x { a.x } else { b.x },
            y: if a.y <= b.y { a.y } else { b.y },
        },
        max: GridPos {
            x: if a.x >= b.x { a.x } else { b.x },
            y: if a.y >= b.y { a.y } else { b.y },
        },
    }
}

/// What one `set_cell` does, cell by cell: the chosen cell takes the new
/// value and every other cell keeps its old one.
pub proof fn lemma_set_cell_effect<T>(pre: BlockGrid<T>, post: BlockGrid<T>, r: int, c: int, v: T)
    requires
        pre.wf(),
        post.spec_shape() == pre.spec_shape(),
        0 <= r < pre.spec_shape().spec_rows(),
        0 <= c < pre.spec_shape().spec_cols(),
        post.spec_cells() == pre.spec_cells().update(
            r * pre.spec_shape().spec_cols() + c,
            v,
        ),
    ensures
        post.wf(),
        post.cell(r, c) == v,
        forall|r2: int, c2: int|
            0 <= r2 < pre.spec_shape().spec_rows() && 0 <= c2 < pre.spec_shape().spec_cols()
                && !(r2 == r && c2 == c) ==> #[trigger] post.cell(r2, c2) == pre.cell(r2, c2),
{
    let rows = pre.spec_shape().spec_rows() as int;
    let cols = pre.spec_shape().spec_cols() as int;
    lemma_row_major_bound(rows, cols, r, c);
    assert forall|r2: int, c2: int|
        0 <= r2 < rows && 0 <= c2 < cols && !(r2 == r && c2 == c) implies #[trigger] post.cell(
        r2,
        c2,
    ) == pre.cell(r2, c2) by {
        lemma_row_major_bound(rows, cols, r2, c2);
        if r2 * cols + c2 == r * cols + c {
            assert((r2 * cols + c2) / cols == r2 && (r * cols + c) / cols == r);
            assert(r2 == r && c2 == c);
        }
    }
}

/// Decompose a row-major cell index back into its row and column.
pub proof fn lemma_cell_index_decompose(shape: GridShape, k: int)
    requires
        0 <= k < shape.spec_rows() * shape.spec_cols(),
    ensures
        0 <= k / (shape.spec_cols() as int) < shape.spec_rows(),
        0 <= k % (shape.spec_cols() as int) < shape.spec_cols(),
        (k / (shape.spec_cols() as int)) * (shape.spec_cols() as int) + k % (
        shape.spec_cols() as int) == k,
{
    let rows = shape.spec_rows() as int;
    let cols = shape.spec_cols() as int;
    vstd::arithmetic::div_mod::lemma_fundamental_div_mod(k, cols);
    assert(0 <= k / cols < rows && 0 <= k % cols < cols) by (nonlinear_arith)
        requires
            1 <= cols,
            0 <= k < rows * cols,
            k == cols * (k / cols) + k % cols,
            0 <= k % cols < cols,
    ;
    assert((k / cols) * cols + k % cols == k) by (nonlinear_arith)
        requires
            k == cols * (k / cols) + k % cols,
    ;
}

} // verus!
