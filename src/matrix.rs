use vstd::prelude::*;

use crate::decimal::{decimal, push_decimal};

verus! {

/// Why a multiplication or a dot product could not be carried out.
#[derive(Debug, Clone, Copy, PartialEq, Eq, Structural)]
pub enum MatrixError {
    /// The inner dimensions of two operands disagree.
    DimensionMismatch,
    /// A completion channel was closed before it delivered its result.
    ChannelClosed,
}

/// `i64::MIN <= x <= i64::MAX`.
pub open spec fn in_i64(x: int) -> bool {
    i64::MIN <= x <= i64::MAX
}

/// Sum of `a[k] * b[k]` over the first `n` positions.
pub open spec fn dot_prefix(a: Seq<i64>, b: Seq<i64>, n: nat) -> int
    decreases n,
{
    if n == 0 {
        0
    } else {
        dot_prefix(a, b, (n - 1) as nat) + a[n - 1] * b[n - 1]
    }
}

/// The dot product of two sequences of equal length.
pub open spec fn dot(a: Seq<i64>, b: Seq<i64>) -> int {
    dot_prefix(a, b, a.len())
}

/// Every product and every running sum of the left-to-right dot product of
/// `a` and `b` is an `i64`.
pub open spec fn dot_fits(a: Seq<i64>, b: Seq<i64>) -> bool {
    forall|k: int|
        #![trigger a[k], b[k]]
        0 <= k < a.len() ==> in_i64(a[k] * b[k]) && in_i64(dot_prefix(a, b, (k + 1) as nat))
}

/// Row `i` of a row-major grid with `cols` columns.
pub open spec fn grid_row(cells: Seq<i64>, cols: nat, i: int) -> Seq<i64> {
    cells.subrange(i * cols, (i + 1) * cols)
}

/// Column `j` of a row-major grid with `rows` rows and `cols` columns.
pub open spec fn grid_col(cells: Seq<i64>, rows: nat, cols: nat, j: int) -> Seq<i64> {
    Seq::new(rows, |k: int| cells[k * cols + j])
}

/// A dense matrix stored row by row: row `i` occupies
/// `data[i * cols .. (i + 1) * cols]`.
#[derive(Debug, Clone)]
pub struct Matrix {
    data: Vec<i64>,
    rows: usize,
    cols: usize,
}

impl Matrix {
    /// Number of rows.
    pub closed spec fn nrows(&self) -> nat {
        self.rows as nat
    }

    /// Number of columns.
    pub closed spec fn ncols(&self) -> nat {
        self.cols as nat
    }

    /// The cells in row-major order.
    pub closed spec fn cells(&self) -> Seq<i64> {
        self.data@
    }

    /// The cells fill the grid exactly.
    pub open spec fn wf(&self) -> bool {
        self.cells().len() == self.nrows() * self.ncols()
    }

    /// The cell at row `i`, column `j`.
    pub open spec fn at(&self, i: int, j: int) -> i64 {
        self.cells()[i * self.ncols() + j]
    }

    /// Row `i`.
    pub open spec fn row_spec(&self, i: int) -> Seq<i64> {
        grid_row(self.cells(), self.ncols(), i)
    }

    /// Column `j`.
    pub open spec fn col_spec(&self, j: int) -> Seq<i64> {
        grid_col(self.cells(), self.nrows(), self.ncols(), j)
    }

    /// Wraps a copy of `data`, read as `rows` rows of `cols` cells each.
    pub fn new(data: &[i64], rows: usize, cols: usize) -> (r: Matrix)
        requires
            data@.len() == rows * cols,
        ensures
            r.wf(),
            r.nrows() == rows,
            r.ncols() == cols,
            r.cells() == data@,
    {
        Matrix { data: vstd::slice::slice_to_vec(data), rows, cols }
    }

    /// A `rows` by `cols` matrix of zeros.
    pub fn init(rows: usize, cols: usize) -> (r: Matrix)
        requires
            rows * cols <= usize::MAX,
        ensures
            r.wf(),
            r.nrows() == rows,
            r.ncols() == cols,
            r.cells() == Seq::new((rows * cols) as nat, |k: int| 0i64),
    {
        let n: usize = rows * cols;
        let data: Vec<i64> = vec![0i64; n];
        proof {
            assert(data@ =~= Seq::new((rows * cols) as nat, |k: int| 0i64));
        }
        Matrix { data, rows, cols }
    }
}


/// Row `i` times column `j` of the product of `a` and `b`.
pub open spec fn product_at(a: &Matrix, b: &Matrix, i: int, j: int) -> int {
    dot(a.row_spec(i), b.col_spec(j))
}

/// The dot product of row `i` of `a` and column `j` of `b` stays in `i64` at
/// every step.
pub open spec fn cell_fits(a: &Matrix, b: &Matrix, i: int, j: int) -> bool {
    dot_fits(a.row_spec(i), b.col_spec(j))
}

/// Every cell of the product of `a` and `b` can be computed in `i64`.
pub open spec fn product_fits(a: &Matrix, b: &Matrix) -> bool {
    forall|i: int, j: int|
        0 <= i < a.nrows() && 0 <= j < b.ncols() ==> #[trigger] cell_fits(a, b, i, j)
}

/// What a compatible product of `a` and `b` needs to be computed without
/// overflow: its cells fit in `i64` and their count fits in `usize`.
pub open spec fn product_ok(a: &Matrix, b: &Matrix) -> bool {
    a.ncols() == b.nrows() ==> a.nrows() * b.ncols() <= usize::MAX && product_fits(a, b)
}

/// `m` has the shape of the product of `a` and `b`, and each of its cells is
/// the dot product of the matching row of `a` and column of `b`.
pub open spec fn is_product(m: &Matrix, a: &Matrix, b: &Matrix) -> bool {
    &&& m.wf()
    &&& m.nrows() == a.nrows()
    &&& m.ncols() == b.ncols()
    &&& forall|i: int, j: int|
        0 <= i < a.nrows() && 0 <= j < b.ncols() ==> #[trigger] m.at(i, j) == product_at(a, b, i, j)
}

/// In a grid of `rows` by `cols`, the cell `(i, j)` has a flat index in range,
/// and distinct cells have distinct flat indices.
pub proof fn lemma_grid_index(i: int, j: int, i2: int, j2: int, rows: int, cols: int)
    requires
        0 <= i < rows,
        0 <= j < cols,
        0 <= i2 < rows,
        0 <= j2 < cols,
    ensures
        0 <= i * cols + j < rows * cols,
        (i * cols + j == i2 * cols + j2) ==> (i == i2 && j == j2),
{
    assert(0 <= i * cols + j < rows * cols) by (nonlinear_arith)
        requires
            0 <= i < rows,
            0 <= j < cols,
    ;
    if i < i2 {
        assert(i * cols + j < i2 * cols + j2) by (nonlinear_arith)
            requires
                i < i2,
                0 <= j < cols,
                0 <= j2,
        ;
    } else if i2 < i {
        assert(i2 * cols + j2 < i * cols + j) by (nonlinear_arith)
            requires
                i2 < i,
                0 <= j2 < cols,
                0 <= j,
        ;
    }
}

impl Matrix {
    /// Row `i` has `cols` cells, the cells `(i, 0)`, `(i, 1)`, ...
    pub proof fn lemma_row(&self, i: int)
        requires
            self.wf(),
            0 <= i < self.nrows(),
        ensures
            i * self.ncols() + self.ncols() <= self.cells().len(),
            (i + 1) * self.ncols() == i * self.ncols() + self.ncols(),
            0 <= i * self.ncols(),
            self.row_spec(i).len() == self.ncols(),
            forall|k: int| 0 <= k < self.ncols() ==> #[trigger] self.row_spec(i)[k] == self.at(i, k),
    {
        let c = self.ncols() as int;
        let r = self.nrows() as int;
        assert((i + 1) * c == i * c + c) by (nonlinear_arith);
        assert(i * c + c <= r * c) by (nonlinear_arith)
            requires
                0 <= i < r,
                0 <= c,
        ;
        assert(0 <= i * c) by (nonlinear_arith)
            requires
                0 <= i,
                0 <= c,
        ;
    }

    /// The cell at row `i`, column `j`.
    pub fn get(&self, i: usize, j: usize) -> (r: i64)
        requires
            self.wf(),
            i < self.nrows(),
            j < self.ncols(),
        ensures
            r == self.at(i as int, j as int),
    {
        let len: usize = self.data.len();
        proof {
            lemma_grid_index(i as int, j as int, i as int, j as int, self.rows as int, self.cols as int);
        }
        self.data[i * self.cols + j]
    }

    /// Overwrites the cell at row `i`, column `j`.
    pub fn set(&mut self, i: usize, j: usize, v: i64)
        requires
            old(self).wf(),
            i < old(self).nrows(),
            j < old(self).ncols(),
        ensures
            final(self).wf(),
            final(self).nrows() == old(self).nrows(),
            final(self).ncols() == old(self).ncols(),
            final(self).cells() == old(self).cells().update(i * old(self).ncols() + j, v),
    {
        let len: usize = self.data.len();
        proof {
            lemma_grid_index(i as int, j as int, i as int, j as int, self.rows as int, self.cols as int);
        }
        let k: usize = i * self.cols + j;
        self.data.set(k, v);
    }

    /// Number of rows.
    pub fn row_count(&self) -> (r: usize)
        ensures
            r == self.nrows(),
    {
        self.rows
    }

    /// Number of columns.
    pub fn col_count(&self) -> (r: usize)
        ensures
            r == self.ncols(),
    {
        self.cols
    }

    /// The cells in row-major order.
    pub fn data(&self) -> (r: &Vec<i64>)
        ensures
            r@ == self.cells(),
    {
        &self.data
    }

    /// Overwrites the cell at flat row-major position `k`.
    pub fn store(&mut self, k: usize, v: i64)
        requires
            old(self).wf(),
            k < old(self).cells().len(),
        ensures
            final(self).wf(),
            final(self).nrows() == old(self).nrows(),
            final(self).ncols() == old(self).ncols(),
            final(self).cells() == old(self).cells().update(k as int, v),
    {
        self.data.set(k, v);
    }

    /// A copy of row `i`.
    pub fn rows(&self, i: usize) -> (r: Vec<i64>)
        requires
            self.wf(),
            i < self.nrows(),
        ensures
            r@ == self.row_spec(i as int),
    {
        let len: usize = self.data.len();
        proof {
            self.lemma_row(i as int);
        }
        let start: usize = i * self.cols;
        let end: usize = start + self.cols;
        let mut r: Vec<i64> = Vec::new();
        let mut k: usize = start;
        while k < end
            invariant
                self.wf(),
                start == i * self.ncols(),
                end == i * self.ncols() + self.ncols(),
                start <= k <= end,
                end <= self.cells().len(),
                r@ == self.cells().subrange(start as int, k as int),
            decreases end - k,
        {
            r.push(self.data[k]);
            proof {
                assert(r@ =~= self.cells().subrange(start as int, k + 1));
            }
            k = k + 1;
        }
        r
    }

    /// A copy of column `j`: the cells `j`, `j + cols`, `j + 2 * cols`, ...
    pub fn cols(&self, j: usize) -> (r: Vec<i64>)
        requires
            self.wf(),
            j < self.ncols(),
        ensures
            r@ == self.col_spec(j as int),
    {
        let len: usize = self.data.len();
        let mut r: Vec<i64> = Vec::new();
        let mut i: usize = 0;
        while i < self.rows
            invariant
                self.wf(),
                j < self.ncols(),
                i <= self.nrows(),
                len == self.cells().len(),
                r@ == self.col_spec(j as int).subrange(0, i as int),
            decreases self.rows - i,
        {
            proof {
                lemma_grid_index(i as int, j as int, i as int, j as int, self.rows as int, self.cols as int);
            }
            r.push(self.data[i * self.cols + j]);
            proof {
                assert(r@ =~= self.col_spec(j as int).subrange(0, i + 1));
            }
            i = i + 1;
        }
        proof {
            assert(r@ =~= self.col_spec(j as int));
        }
        r
    }
}

/// A read-only sequence of numbers, the operand of a dot product.
pub struct Vector {
    data: Vec<i64>,
}

impl View for Vector {
    type V = Seq<i64>;

    closed spec fn view(&self) -> Seq<i64> {
        self.data@
    }
}

impl Vector {
    /// Wraps a copy of `data`.
    pub fn new(data: &[i64]) -> (r: Vector)
        ensures
            r@ == data@,
    {
        Vector { data: vstd::slice::slice_to_vec(data) }
    }

    /// The number of entries.
    pub fn len(&self) -> (r: usize)
        ensures
            r == self@.len(),
    {
        self.data.len()
    }

    /// The entries, as a slice.
    pub fn as_slice(&self) -> (r: &[i64])
        ensures
            r@ == self@,
    {
        self.data.as_slice()
    }
}

/// The sum of `a[k] * b[k]`, accumulated from zero, left to right; an error
/// exactly when the lengths differ.
pub fn dot_product(a: Vector, b: Vector) -> (r: Result<i64, MatrixError>)
    requires
        a@.len() == b@.len() ==> dot_fits(a@, b@),
    ensures
        r is Err <==> a@.len() != b@.len(),
        r matches Err(e) ==> e == MatrixError::DimensionMismatch,
        r matches Ok(v) ==> v == dot(a@, b@),
{
    if a.len() != b.len() {
        return Err(MatrixError::DimensionMismatch);
    }
    let n: usize = a.len();
    let mut sum: i64 = 0;
    let mut i: usize = 0;
    while i < n
        invariant
            n == a@.len(),
            a@.len() == b@.len(),
            dot_fits(a@, b@),
            i <= n,
            sum == dot_prefix(a@, b@, i as nat),
        decreases n - i,
    {
        let x: i64 = a.data[i];
        let y: i64 = b.data[i];
        proof {
            assert(in_i64(a@[i as int] * b@[i as int]));
        }
        sum = sum + x * y;
        i = i + 1;
    }
    Ok(sum)
}

/// Whether every product and running sum of the dot product of `a` and `b`
/// fits in `i64`.
pub fn products_fit(a: &[i64], b: &[i64]) -> (r: bool)
    requires
        a@.len() == b@.len(),
    ensures
        r == dot_fits(a@, b@),
{
    let n: usize = a.len();
    let mut sum: i64 = 0;
    let mut i: usize = 0;
    while i < n
        invariant
            n == a@.len(),
            a@.len() == b@.len(),
            i <= n,
            sum == dot_prefix(a@, b@, i as nat),
            forall|k: int|
                #![trigger a@[k], b@[k]]
                0 <= k < i ==> in_i64(a@[k] * b@[k]) && in_i64(dot_prefix(a@, b@, (k + 1) as nat)),
        decreases n - i,
    {
        match a[i].checked_mul(b[i]) {
            None => {
                return false;
            },
            Some(p) => match sum.checked_add(p) {
                None => {
                    return false;
                },
                Some(s) => {
                    sum = s;
                },
            },
        }
        i = i + 1;
    }
    true
}

/// Row `i` of `a` times column `j` of `b`.
fn cell_product(a: &Matrix, b: &Matrix, i: usize, j: usize) -> (r: i64)
    requires
        a.wf(),
        b.wf(),
        a.ncols() == b.nrows(),
        i < a.nrows(),
        j < b.ncols(),
        cell_fits(a, b, i as int, j as int),
    ensures
        r == product_at(a, b, i as int, j as int),
{
    let ghost row = a.row_spec(i as int);
    let ghost col = b.col_spec(j as int);
    proof {
        a.lemma_row(i as int);
    }
    let n: usize = a.cols;
    let mut sum: i64 = 0;
    let mut k: usize = 0;
    while k < n
        invariant
            a.wf(),
            b.wf(),
            n == a.ncols(),
            a.ncols() == b.nrows(),
            i < a.nrows(),
            j < b.ncols(),
            row == a.row_spec(i as int),
            col == b.col_spec(j as int),
            row.len() == n,
            col.len() == n,
            dot_fits(row, col),
            k <= n,
            sum == dot_prefix(row, col, k as nat),
        decreases n - k,
    {
        let x: i64 = a.get(i, k);
        let y: i64 = b.get(k, j);
        proof {
            a.lemma_row(i as int);
            assert(a.row_spec(i as int)[k as int] == x);
            assert(row[k as int] == x);
            assert(col[k as int] == y);
            assert(in_i64(row[k as int] * col[k as int]));
        }
        sum = sum + x * y;
        k = k + 1;
    }
    sum
}

/// The product of `a` and `b`, computed one cell after another; an error
/// exactly when the columns of `a` do not match the rows of `b`.
pub fn multiply(a: &Matrix, b: &Matrix) -> (r: Result<Matrix, MatrixError>)
    requires
        a.wf(),
        b.wf(),
        product_ok(a, b),
    ensures
        r is Err <==> a.ncols() != b.nrows(),
        r matches Err(e) ==> e == MatrixError::DimensionMismatch,
        r matches Ok(m) ==> is_product(&m, a, b),
{
    if a.cols != b.rows {
        return Err(MatrixError::DimensionMismatch);
    }
    let mut result = Matrix::init(a.rows, b.cols);
    let mut i: usize = 0;
    while i < a.rows
        invariant
            a.wf(),
            b.wf(),
            a.ncols() == b.nrows(),
            product_fits(a, b),
            result.wf(),
            result.nrows() == a.nrows(),
            result.ncols() == b.ncols(),
            i <= a.nrows(),
            forall|i2: int, j2: int|
                0 <= i2 < i && 0 <= j2 < b.ncols() ==> #[trigger] result.at(i2, j2) == product_at(a, b, i2, j2),
        decreases a.rows - i,
    {
        let mut j: usize = 0;
        while j < b.cols
            invariant
                a.wf(),
                b.wf(),
                a.ncols() == b.nrows(),
                product_fits(a, b),
                result.wf(),
                result.nrows() == a.nrows(),
                result.ncols() == b.ncols(),
                i < a.nrows(),
                j <= b.ncols(),
                forall|i2: int, j2: int|
                    0 <= i2 && 0 <= j2 < b.ncols() && (i2 < i || (i2 == i && j2 < j)) && i2 < a.nrows()
                        ==> #[trigger] result.at(i2, j2) == product_at(a, b, i2, j2),
            decreases b.cols - j,
        {
            proof {
                assert(cell_fits(a, b, i as int, j as int));
            }
            let v: i64 = cell_product(a, b, i, j);
            let ghost before = result;
            result.set(i, j, v);
            proof {
                assert forall|i2: int, j2: int|
                    0 <= j2 < b.ncols() && (i2 < i || (i2 == i && j2 <= j)) && 0 <= i2 < a.nrows()
                        implies #[trigger] result.at(i2, j2) == product_at(a, b, i2, j2) by {
                    lemma_grid_index(i2, j2, i as int, j as int, a.nrows() as int, b.ncols() as int);
                    if i2 != i || j2 != j {
                        let t = i2 * result.ncols() + j2;
                        let u = i * result.ncols() + j;
                        assert(t != u);
                        lemma_grid_index(i as int, j as int, i2, j2, a.nrows() as int, b.ncols() as int);
                        assert(result.cells()[t] == before.cells()[t]);
                        assert(result.at(i2, j2) == before.at(i2, j2));
                    }
                }
            }
            j = j + 1;
        }
        i = i + 1;
    }
    Ok(result)
}


/// The first `n` cells of row `i` of `m`, each followed by a space.
pub open spec fn cells_text(m: &Matrix, i: int, n: nat) -> Seq<char>
    decreases n,
{
    if n == 0 {
        Seq::empty()
    } else {
        cells_text(m, i, (n - 1) as nat) + decimal(m.at(i, n - 1) as int) + seq![' ']
    }
}

/// Row `i` of `m` as one line: `| a b c |` and a line break.
pub open spec fn row_text(m: &Matrix, i: int) -> Seq<char> {
    seq!['|', ' '] + cells_text(m, i, m.ncols()) + seq!['|', '\n']
}

/// The first `n` rows of `m`, one line each.
pub open spec fn grid_text(m: &Matrix, n: nat) -> Seq<char>
    decreases n,
{
    if n == 0 {
        Seq::empty()
    } else {
        grid_text(m, (n - 1) as nat) + row_text(m, n - 1)
    }
}

impl Matrix {
    /// The matrix as text, one line per row, each cell followed by a space:
    /// `| 1 2 3 |\n| 4 5 6 |\n`.
    pub fn to_string(&self) -> (r: String)
        requires
            self.wf(),
        ensures
            r@ == grid_text(self, self.nrows()),
    {
        let mut s = String::new();
        let mut i: usize = 0;
        while i < self.rows
            invariant
                self.wf(),
                i <= self.nrows(),
                s@ == grid_text(self, i as nat),
            decreases self.rows - i,
        {
            proof {
                reveal_strlit("| ");
                reveal_strlit(" ");
                reveal_strlit("|\n");
            }
            let ghost start = s@;
            s.append("| ");
            let mut j: usize = 0;
            while j < self.cols
                invariant
                    self.wf(),
                    i < self.nrows(),
                    j <= self.ncols(),
                    s@ == start + seq!['|', ' '] + cells_text(self, i as int, j as nat),
                decreases self.cols - j,
            {
                push_decimal(&mut s, self.get(i, j));
                proof {
                    reveal_strlit(" ");
                }
                s.append(" ");
                proof {
                    assert(s@ =~= start + seq!['|', ' '] + cells_text(self, i as int, (j + 1) as nat));
                }
                j = j + 1;
            }
            s.append("|\n");
            proof {
                assert(s@ =~= grid_text(self, (i + 1) as nat));
            }
            i = i + 1;
        }
        s
    }
}

} // verus!
