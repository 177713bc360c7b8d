//! The verified parts of the parallel product: the dispatcher turns the output
//! grid into one task per cell, routes each task to a worker by round robin,
//! a worker turns a task into a result, and the collector writes the results
//! into the output matrix.
use vstd::arithmetic::div_mod::{lemma_fundamental_div_mod, lemma_mod_pos_bound};
use vstd::prelude::*;

use crate::matrix::{
    dot, dot_fits, dot_product, is_product, lemma_grid_index, product_at, Matrix, MatrixError, Vector,
};

verus! {

/// The number of workers of a parallel product.
pub const NUM_THREADS: usize = 4;

/// The work of one output cell: its row-major position in the output, a copy
/// of the row of the left operand and a copy of the column of the right one.
#[derive(Debug)]
pub struct MsgInput {
    idx: usize,
    row: Vec<i64>,
    col: Vec<i64>,
}

/// The result of one task: the position of its cell and the cell's value.
#[derive(Debug)]
pub struct MsgOutput {
    idx: usize,
    result: i64,
}

impl MsgInput {
    /// The position of the task's cell in the output.
    pub closed spec fn index(&self) -> nat {
        self.idx as nat
    }

    /// The row operand.
    pub closed spec fn row_seq(&self) -> Seq<i64> {
        self.row@
    }

    /// The column operand.
    pub closed spec fn col_seq(&self) -> Seq<i64> {
        self.col@
    }

    pub fn new(idx: usize, row: Vec<i64>, col: Vec<i64>) -> (r: MsgInput)
        ensures
            r.index() == idx,
            r.row_seq() == row@,
            r.col_seq() == col@,
    {
        MsgInput { idx, row, col }
    }

    /// The position of the task's cell in the output.
    pub fn idx(&self) -> (r: usize)
        ensures
            r == self.index(),
    {
        self.idx
    }

    /// The row operand.
    pub fn row(&self) -> (r: &[i64])
        ensures
            r@ == self.row_seq(),
    {
        self.row.as_slice()
    }

    /// The column operand.
    pub fn col(&self) -> (r: &[i64])
        ensures
            r@ == self.col_seq(),
    {
        self.col.as_slice()
    }
}

impl MsgOutput {
    /// The position of the result's cell in the output.
    pub closed spec fn index(&self) -> nat {
        self.idx as nat
    }

    /// The cell's value.
    pub closed spec fn value(&self) -> i64 {
        self.result
    }

    pub fn new(idx: usize, result: i64) -> (r: MsgOutput)
        ensures
            r.index() == idx,
            r.value() == result,
    {
        MsgOutput { idx, result }
    }

    /// The position of the result's cell in the output.
    pub fn idx(&self) -> (r: usize)
        ensures
            r == self.index(),
    {
        self.idx
    }

    /// The cell's value.
    pub fn result(&self) -> (r: i64)
        ensures
            r == self.value(),
    {
        self.result
    }
}

/// The task of the cell `(i, j)` in a plan whose output has `cols` columns.
pub open spec fn task_at(ts: Seq<MsgInput>, cols: nat, i: int, j: int) -> MsgInput {
    ts[i * cols + j]
}

/// `ts` is the plan of the product of `a` and `b`: one task per output cell,
/// in row-major order, each holding its own position, the row of `a` and the
/// column of `b` of its cell.
pub open spec fn is_plan(ts: Seq<MsgInput>, a: &Matrix, b: &Matrix) -> bool {
    &&& ts.len() == a.nrows() * b.ncols()
    &&& forall|k: int| 0 <= k < ts.len() ==> (#[trigger] ts[k]).index() == k
    &&& forall|i: int, j: int|
        0 <= i < a.nrows() && 0 <= j < b.ncols() ==> {
            let t = #[trigger] task_at(ts, b.ncols(), i, j);
            t.row_seq() == a.row_spec(i) && t.col_seq() == b.col_spec(j)
        }
}

/// `o` is what a worker returns for the task `t`.
pub open spec fn is_result(t: MsgInput, o: MsgOutput) -> bool {
    o.index() == t.index() && o.value() == dot(t.row_seq(), t.col_seq())
}

/// `outs` holds, in order, the result of each task of `ts`.
pub open spec fn completes(ts: Seq<MsgInput>, outs: Seq<MsgOutput>) -> bool {
    outs.len() == ts.len() && forall|k: int| 0 <= k < ts.len() ==> is_result(#[trigger] ts[k], outs[k])
}

/// `base` with each result of `outs` written at its position, in order.
pub open spec fn assemble(base: Seq<i64>, outs: Seq<MsgOutput>) -> Seq<i64>
    decreases outs.len(),
{
    if outs.len() == 0 {
        base
    } else {
        let o = outs.last();
        assemble(base, outs.drop_last()).update(o.index() as int, o.value())
    }
}

/// `n` zeros.
pub open spec fn zeros(n: nat) -> Seq<i64> {
    Seq::new(n, |k: int| 0i64)
}

/// The worker that the task at position `idx` goes to, out of `pool_size`.
pub fn worker_for(idx: usize, pool_size: usize) -> (r: usize)
    requires
        pool_size > 0,
    ensures
        r == idx % pool_size,
        r < pool_size,
{
    idx % pool_size
}


/// In row-major order over `cols` columns, a cell before `(i, j)` has a
/// smaller flat position.
proof fn lemma_row_major_before(i2: int, j2: int, i: int, j: int, cols: int)
    requires
        0 <= i2,
        0 <= j2 < cols,
        0 <= j,
        i2 < i || (i2 == i && j2 < j),
    ensures
        i2 * cols + j2 < i * cols + j,
{
    if i2 < i {
        assert(i2 * cols + j2 < i * cols + j) by (nonlinear_arith)
            requires
                i2 < i,
                0 <= j2 < cols,
                0 <= j,
        ;
    }
}

/// The tasks of the product of `a` and `b`, one per output cell in row-major
/// order; an error, before any task is made, exactly when the columns of `a`
/// do not match the rows of `b`.
pub fn plan_tasks(a: &Matrix, b: &Matrix) -> (r: Result<Vec<MsgInput>, MatrixError>)
    requires
        a.wf(),
        b.wf(),
        a.ncols() == b.nrows() ==> a.nrows() * b.ncols() <= usize::MAX,
    ensures
        r is Err <==> a.ncols() != b.nrows(),
        r matches Err(e) ==> e == MatrixError::DimensionMismatch,
        r matches Ok(ts) ==> is_plan(ts@, a, b),
{
    if a.col_count() != b.row_count() {
        return Err(MatrixError::DimensionMismatch);
    }
    let ar: usize = a.row_count();
    let bc: usize = b.col_count();
    let mut ts: Vec<MsgInput> = Vec::new();
    let mut i: usize = 0;
    while i < ar
        invariant
            a.wf(),
            b.wf(),
            a.ncols() == b.nrows(),
            ar == a.nrows(),
            bc == b.ncols(),
            ar * bc <= usize::MAX,
            i <= ar,
            ts@.len() == i * bc,
            forall|k: int| 0 <= k < ts@.len() ==> (#[trigger] ts@[k]).index() == k,
            forall|i2: int, j2: int|
                0 <= i2 < i && 0 <= j2 < bc ==> {
                    let t = #[trigger] task_at(ts@, bc as nat, i2, j2);
                    t.row_seq() == a.row_spec(i2) && t.col_seq() == b.col_spec(j2)
                },
        decreases ar - i,
    {
        let mut j: usize = 0;
        while j < bc
            invariant
                a.wf(),
                b.wf(),
                a.ncols() == b.nrows(),
                ar == a.nrows(),
                bc == b.ncols(),
                ar * bc <= usize::MAX,
                i < ar,
                j <= bc,
                ts@.len() == i * bc + j,
                forall|k: int| 0 <= k < ts@.len() ==> (#[trigger] ts@[k]).index() == k,
                forall|i2: int, j2: int|
                    0 <= i2 && 0 <= j2 < bc && (i2 < i || (i2 == i && j2 < j)) ==> {
                        let t = #[trigger] task_at(ts@, bc as nat, i2, j2);
                        t.row_seq() == a.row_spec(i2) && t.col_seq() == b.col_spec(j2)
                    },
            decreases bc - j,
        {
            proof {
                lemma_grid_index(i as int, j as int, i as int, j as int, ar as int, bc as int);
            }
            let idx: usize = i * bc + j;
            let t = MsgInput::new(idx, a.rows(i), b.cols(j));
            let ghost before = ts@;
            ts.push(t);
            proof {
                assert forall|i2: int, j2: int|
                    0 <= i2 && 0 <= j2 < bc && (i2 < i || (i2 == i && j2 <= j)) implies {
                        let t = #[trigger] task_at(ts@, bc as nat, i2, j2);
                        t.row_seq() == a.row_spec(i2) && t.col_seq() == b.col_spec(j2)
                    } by {
                    if i2 != i || j2 != j {
                        lemma_row_major_before(i2, j2, i as int, j as int, bc as int);
                        assert(task_at(ts@, bc as nat, i2, j2) == task_at(before, bc as nat, i2, j2));
                    }
                }
            }
            j = j + 1;
        }
        proof {
            assert((i + 1) * bc == i * bc + bc) by (nonlinear_arith);
        }
        i = i + 1;
    }
    Ok(ts)
}

/// A worker's step: the dot product of the task's row and column, tagged with
/// the task's position; an error exactly when their lengths differ.
pub fn run_task(input: &MsgInput) -> (r: Result<MsgOutput, MatrixError>)
    requires
        input.row_seq().len() == input.col_seq().len() ==> dot_fits(input.row_seq(), input.col_seq()),
    ensures
        r is Err <==> input.row_seq().len() != input.col_seq().len(),
        r matches Err(e) ==> e == MatrixError::DimensionMismatch,
        r matches Ok(o) ==> is_result(*input, o),
{
    let row = Vector::new(input.row());
    let col = Vector::new(input.col());
    match dot_product(row, col) {
        Ok(v) => Ok(MsgOutput::new(input.idx(), v)),
        Err(e) => Err(e),
    }
}

/// The collector: a `rows` by `cols` matrix of zeros with each result written
/// at its position, in the order of `outs`.
pub fn collect(rows: usize, cols: usize, outs: &Vec<MsgOutput>) -> (r: Matrix)
    requires
        rows * cols <= usize::MAX,
        forall|k: int| 0 <= k < outs@.len() ==> (#[trigger] outs@[k]).index() < rows * cols,
    ensures
        r.wf(),
        r.nrows() == rows,
        r.ncols() == cols,
        r.cells() == assemble(zeros((rows * cols) as nat), outs@),
{
    let mut result = Matrix::init(rows, cols);
    proof {
        assert(result.cells() =~= assemble(zeros((rows * cols) as nat), outs@.take(0)));
    }
    let mut k: usize = 0;
    while k < outs.len()
        invariant
            rows * cols <= usize::MAX,
            forall|k: int| 0 <= k < outs@.len() ==> (#[trigger] outs@[k]).index() < rows * cols,
            k <= outs@.len(),
            result.wf(),
            result.nrows() == rows,
            result.ncols() == cols,
            result.cells() == assemble(zeros((rows * cols) as nat), outs@.take(k as int)),
        decreases outs@.len() - k,
    {
        let o = &outs[k];
        result.store(o.idx(), o.result());
        proof {
            let next = outs@.take(k + 1);
            assert(next.drop_last() =~= outs@.take(k as int));
            assert(next.last() == outs@[k as int]);
        }
        k = k + 1;
    }
    proof {
        assert(outs@.take(k as int) =~= outs@);
    }
    result
}


/// The cells of the product of `a` and `b` in row-major order.
pub open spec fn product_cells(a: &Matrix, b: &Matrix) -> Seq<i64> {
    Seq::new(
        a.nrows() * b.ncols(),
        |t: int| product_at(a, b, t / (b.ncols() as int), t % (b.ncols() as int)) as i64,
    )
}

/// A flat position `t` in a grid of `rows` by `cols` is the cell
/// `(t / cols, t % cols)`.
proof fn lemma_split_position(t: int, rows: int, cols: int)
    requires
        0 <= t < rows * cols,
        0 <= rows,
        0 <= cols,
    ensures
        cols > 0,
        0 <= t / cols < rows,
        0 <= t % cols < cols,
        (t / cols) * cols + t % cols == t,
{
    assert(cols > 0) by (nonlinear_arith)
        requires
            0 <= t < rows * cols,
            0 <= rows,
            0 <= cols,
    ;
    lemma_fundamental_div_mod(t, cols);
    lemma_mod_pos_bound(t, cols);
    let i = t / cols;
    let j = t % cols;
    assert(i * cols == cols * i) by (nonlinear_arith);
    assert(0 <= i < rows) by (nonlinear_arith)
        requires
            t == i * cols + j,
            0 <= j < cols,
            0 <= t < rows * cols,
    ;
}

/// Writing results in order, when the result at place `k` is for position
/// `k`, leaves each result at its own position.
proof fn lemma_assemble_in_order(base: Seq<i64>, outs: Seq<MsgOutput>)
    requires
        outs.len() <= base.len(),
        forall|k: int| 0 <= k < outs.len() ==> (#[trigger] outs[k]).index() == k,
    ensures
        assemble(base, outs).len() == base.len(),
        forall|t: int|
            0 <= t < base.len() ==> #[trigger] assemble(base, outs)[t] == if t < outs.len() {
                outs[t].value()
            } else {
                base[t]
            },
    decreases outs.len(),
{
    if outs.len() > 0 {
        let init = outs.drop_last();
        assert forall|k: int| 0 <= k < init.len() implies (#[trigger] init[k]).index() == k by {
            assert(init[k] == outs[k]);
        }
        lemma_assemble_in_order(base, init);
    }
}

/// A matrix that is the product of `a` and `b` holds `product_cells(a, b)`.
pub proof fn lemma_product_cells(m: &Matrix, a: &Matrix, b: &Matrix)
    requires
        is_product(m, a, b),
    ensures
        m.cells() == product_cells(a, b),
{
    let n = a.nrows() * b.ncols();
    let bc = b.ncols() as int;
    assert forall|t: int| 0 <= t < n implies m.cells()[t] == #[trigger] product_cells(a, b)[t] by {
        lemma_split_position(t, a.nrows() as int, bc);
        assert(m.at(t / bc, t % bc) == product_at(a, b, t / bc, t % bc));
    }
    assert(m.cells() =~= product_cells(a, b));
}

/// When every task of the plan of `a` times `b` has been completed, the
/// collected cells are `product_cells(a, b)`.
pub proof fn lemma_collected_cells(a: &Matrix, b: &Matrix, ts: Seq<MsgInput>, outs: Seq<MsgOutput>)
    requires
        a.wf(),
        b.wf(),
        a.ncols() == b.nrows(),
        is_plan(ts, a, b),
        completes(ts, outs),
    ensures
        assemble(zeros(a.nrows() * b.ncols()), outs) == product_cells(a, b),
{
    let n = a.nrows() * b.ncols();
    let bc = b.ncols() as int;
    assert forall|k: int| 0 <= k < outs.len() implies (#[trigger] outs[k]).index() == k by {
        assert(is_result(ts[k], outs[k]));
    }
    lemma_assemble_in_order(zeros(n), outs);
    let got = assemble(zeros(n), outs);
    assert forall|t: int| 0 <= t < n implies got[t] == #[trigger] product_cells(a, b)[t] by {
        lemma_split_position(t, a.nrows() as int, bc);
        let i = t / bc;
        let j = t % bc;
        assert(task_at(ts, b.ncols(), i, j) == ts[t]);
        assert(is_result(ts[t], outs[t]));
    }
    assert(got =~= product_cells(a, b));
}

/// The parallel product agrees with the serial one: when every task of the
/// plan of `a` times `b` has been completed by a worker, the collected cells
/// are exactly those of the serial product `m`.
pub proof fn lemma_parallel_matches_serial(
    a: &Matrix,
    b: &Matrix,
    ts: Seq<MsgInput>,
    outs: Seq<MsgOutput>,
    m: &Matrix,
)
    requires
        a.wf(),
        b.wf(),
        a.ncols() == b.nrows(),
        is_plan(ts, a, b),
        completes(ts, outs),
        is_product(m, a, b),
    ensures
        m.cells() == assemble(zeros(a.nrows() * b.ncols()), outs),
{
    lemma_product_cells(m, a, b);
    lemma_collected_cells(a, b, ts, outs);
}

/// The parallel product is deterministic: two runs on the same operands,
/// whatever worker ran each task and whenever it finished, collect the same
/// cells.
pub proof fn lemma_parallel_deterministic(
    a: &Matrix,
    b: &Matrix,
    ts1: Seq<MsgInput>,
    outs1: Seq<MsgOutput>,
    ts2: Seq<MsgInput>,
    outs2: Seq<MsgOutput>,
)
    requires
        a.wf(),
        b.wf(),
        a.ncols() == b.nrows(),
        is_plan(ts1, a, b),
        completes(ts1, outs1),
        is_plan(ts2, a, b),
        completes(ts2, outs2),
    ensures
        assemble(zeros(a.nrows() * b.ncols()), outs1) == assemble(zeros(a.nrows() * b.ncols()), outs2),
{
    lemma_collected_cells(a, b, ts1, outs1);
    lemma_collected_cells(a, b, ts2, outs2);
}

} // verus!
