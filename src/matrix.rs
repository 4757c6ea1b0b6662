use vstd::prelude::*;

use crate::collector::{
    assembled, collect_all, empty_collector, is_arrangement, is_complete, lemma_collect_all_characterized,
    lemma_collection_order_irrelevant, lemma_reply_for_unique, rearranged, replies_fit, Collector,
};
use crate::job::{
    job_result, route, route_spec, run_job, JobModel, MatrixError, MsgInput, OutputModel, NUM_THREADS,
};
use crate::text::{decimal, decimal_text, join, lemma_join_push};
use crate::vector::{dot, dot_fits, dot_prefix, Vector};
use vstd::arithmetic::div_mod::{lemma_fundamental_div_mod, lemma_fundamental_div_mod_converse};
use std::collections::VecDeque;
use vstd::string::*;

verus! {

/// A dense matrix as its rows laid end to end.
pub ghost struct MatrixModel {
    pub data: Seq<i64>,
    pub rows: nat,
    pub cols: nat,
}

impl MatrixModel {
    pub open spec fn wf(self) -> bool {
        self.data.len() == self.rows * self.cols
    }
}

/// Row `i` of `m`.
pub open spec fn row_of(m: MatrixModel, i: int) -> Seq<i64> {
    m.data.subrange(i * m.cols, (i + 1) * m.cols)
}

/// Column `j` of `m`, top to bottom.
pub open spec fn col_of(m: MatrixModel, j: int) -> Seq<i64> {
    Seq::new(m.rows, |k: int| m.data[k * m.cols + j])
}

/// The row-major index `idx` of a `rows x cols` result names row `idx / cols` and column
/// `idx % cols`; its job pairs that row of `a` with that column of `b`.
pub open spec fn cell_job(a: MatrixModel, b: MatrixModel, idx: int) -> JobModel {
    JobModel {
        idx: idx as nat,
        row: row_of(a, idx / (b.cols as int)),
        col: col_of(b, idx % (b.cols as int)),
    }
}

/// Every cell of `a * b` can be computed within `i64`.
pub open spec fn product_fits(a: MatrixModel, b: MatrixModel) -> bool {
    forall|idx: int|
        0 <= idx < a.rows * b.cols ==> #[trigger] dot_fits(
            cell_job(a, b, idx).row,
            cell_job(a, b, idx).col,
        )
}

/// The product `a * b`: cell `(i, j)` is the dot product of row `i` of `a` and column `j`
/// of `b`.
pub open spec fn product(a: MatrixModel, b: MatrixModel) -> MatrixModel {
    MatrixModel {
        data: Seq::new(
            a.rows * b.cols,
            |idx: int| dot(cell_job(a, b, idx).row, cell_job(a, b, idx).col) as i64,
        ),
        rows: a.rows,
        cols: b.cols,
    }
}

/// What `multiply` returns for operands `a` and `b`.
pub open spec fn multiply_result(a: MatrixModel, b: MatrixModel) -> Result<MatrixModel, MatrixError> {
    if a.cols != b.rows {
        Err(MatrixError::DimensionMismatch)
    } else if !product_fits(a, b) {
        Err(MatrixError::Overflow)
    } else {
        Ok(product(a, b))
    }
}

/// Row `i` of `m` as text: its elements in decimal, separated by single spaces.
pub open spec fn row_text(m: MatrixModel, i: int) -> Seq<char> {
    join(Seq::new(m.cols, |j: int| decimal(m.data[i * m.cols + j] as int)), seq![' '])
}

/// `m` as text: its rows between braces, separated by a comma and a space; a 2 x 2 matrix
/// reads `{22 28, 49 64}`.
pub open spec fn display_text(m: MatrixModel) -> Seq<char> {
    seq!['{'] + join(Seq::new(m.rows, |i: int| row_text(m, i)), seq![',', ' ']) + seq!['}']
}

/// `m` as text with its dimensions: `Matrix(row=2, col=2, {22 28, 49 64})`.
pub open spec fn debug_text(m: MatrixModel) -> Seq<char> {
    "Matrix(row="@ + decimal(m.rows as int) + ", col="@ + decimal(m.cols as int) + ", "@
        + display_text(m) + ")"@
}

/// A dense matrix stored row by row: `[[1, 2], [3, 4]]` is `[1, 2, 3, 4]`.
pub struct Matrix {
    data: Vec<i64>,
    row: usize,
    col: usize,
}

impl View for Matrix {
    type V = MatrixModel;

    closed spec fn view(&self) -> MatrixModel {
        MatrixModel { data: self.data@, rows: self.row as nat, cols: self.col as nat }
    }
}

impl Matrix {
    #[verifier::type_invariant]
    spec fn inv(self) -> bool {
        self.data@.len() == self.row * self.col
    }

    /// Builds a `row x col` matrix from its elements, row after row.
    pub fn new(data: Vec<i64>, row: usize, col: usize) -> (m: Matrix)
        requires
            data@.len() == row * col,
        ensures
            m@ == (MatrixModel { data: data@, rows: row as nat, cols: col as nat }),
    {
        Matrix { data, row, col }
    }

    pub fn row(&self) -> (r: usize)
        ensures
            r == self@.rows,
            self@.wf(),
    {
        proof {
            use_type_invariant(self);
        }
        self.row
    }

    pub fn col(&self) -> (c: usize)
        ensures
            c == self@.cols,
            self@.wf(),
    {
        proof {
            use_type_invariant(self);
        }
        self.col
    }

    pub fn data(&self) -> (d: &Vec<i64>)
        ensures
            d@ == self@.data,
            self@.wf(),
    {
        proof {
            use_type_invariant(self);
        }
        &self.data
    }

    /// Row `i` as text, as `row_text` gives it.
    fn row_to_string(&self, i: usize) -> (s: String)
        requires
            i < self@.rows,
        ensures
            s@ == row_text(self@, i as int),
    {
        proof {
            use_type_invariant(self);
        }
        let ghost cells = Seq::new(self.col as nat, |j: int| decimal(self@.data[i * self.col + j] as int));
        let len = self.data.len();
        let mut s = String::new();
        let mut j: usize = 0;
        while j < self.col
            invariant
                len == self.data@.len(),
                i < self.row,
                j <= self.col,
                self.data@.len() == self.row * self.col,
                cells == Seq::new(self.col as nat, |t: int| decimal(self@.data[i * self.col + t] as int)),
                s@ == join(cells.take(j as int), seq![' ']),
            decreases self.col - j,
        {
            proof {
                lemma_row_within(i as int, self.row as int, self.col as int);
            }
            let t = decimal_text(self.data[i * self.col + j] as i128);
            if j > 0 {
                s.append(" ");
                proof {
                    reveal_strlit(" ");
                    lemma_join_push(cells.take(j as int), seq![' '], cells[j as int]);
                    assert(cells.take(j as int).push(cells[j as int]) =~= cells.take(j + 1));
                }
            } else {
                assert(cells.take(1) =~= seq![cells[0]]);
            }
            s.append(t.as_str());
            j = j + 1;
        }
        assert(cells.take(self.col as int) =~= cells);
        s
    }

    /// The matrix as text, as `display_text` gives it.
    pub fn to_display_string(&self) -> (s: String)
        ensures
            s@ == display_text(self@),
    {
        let ghost rows = Seq::new(self@.rows, |i: int| row_text(self@, i));
        let mut s = String::from_str("{");
        proof {
            reveal_strlit("{");
        }
        let mut i: usize = 0;
        while i < self.row
            invariant
                i <= self.row,
                rows == Seq::new(self@.rows, |r: int| row_text(self@, r)),
                s@ == seq!['{'] + join(rows.take(i as int), seq![',', ' ']),
            decreases self.row - i,
        {
            let t = self.row_to_string(i);
            if i > 0 {
                s.append(", ");
                proof {
                    reveal_strlit(", ");
                    lemma_join_push(rows.take(i as int), seq![',', ' '], rows[i as int]);
                    assert(rows.take(i as int).push(rows[i as int]) =~= rows.take(i + 1));
                }
            } else {
                assert(rows.take(1) =~= seq![rows[0]]);
            }
            s.append(t.as_str());
            i = i + 1;
        }
        assert(rows.take(self.row as int) =~= rows);
        s.append("}");
        proof {
            reveal_strlit("}");
        }
        s
    }

    /// The matrix as text with its dimensions, as `debug_text` gives it.
    pub fn to_debug_string(&self) -> (s: String)
        ensures
            s@ == debug_text(self@),
    {
        let mut s = String::from_str("Matrix(row=");
        s.append(decimal_text(self.row as i128).as_str());
        s.append(", col=");
        s.append(decimal_text(self.col as i128).as_str());
        s.append(", ");
        s.append(self.to_display_string().as_str());
        s.append(")");
        s
    }

    /// Copies row `i` out as a vector of its own.
    pub fn row_vector(&self, i: usize) -> (v: Vector)
        requires
            i < self@.rows,
        ensures
            v@ == row_of(self@, i as int),
    {
        proof {
            use_type_invariant(self);
            lemma_row_within(i as int, self.row as int, self.col as int);
        }
        let len = self.data.len();
        let start = i * self.col;
        let end = start + self.col;
        let mut out: Vec<i64> = Vec::with_capacity(self.col);
        let mut k = start;
        while k < end
            invariant
                start <= k <= end,
                end <= len,
                len == self.data@.len(),
                start == i * self.col,
                end == start + self.col,
                out@ == self.data@.subrange(start as int, k as int),
            decreases end - k,
        {
            out.push(self.data[k]);
            k = k + 1;
        }
        Vector::new(out)
    }

    /// Copies column `j` out as a vector of its own: every `col`-th element from `j` on.
    pub fn col_vector(&self, j: usize) -> (v: Vector)
        requires
            j < self@.cols,
        ensures
            v@ == col_of(self@, j as int),
    {
        proof {
            use_type_invariant(self);
        }
        let len = self.data.len();
        let mut out: Vec<i64> = Vec::with_capacity(self.row);
        let mut k: usize = 0;
        while k < self.row
            invariant
                k <= self.row,
                j < self.col,
                self.data@.len() == self.row * self.col,
                len == self.data@.len(),
                out@ == Seq::new(k as nat, |t: int| self.data@[t * self.col + j]),
            decreases self.row - k,
        {
            proof {
                lemma_row_within(k as int, self.row as int, self.col as int);
            }
            out.push(self.data[k * self.col + j]);
            k = k + 1;
        }
        Vector::new(out)
    }
}

/// Row `i` of a `rows x cols` buffer lies inside it.
proof fn lemma_row_within(i: int, rows: int, cols: int)
    requires
        0 <= i < rows,
        0 <= cols,
    ensures
        0 <= i * cols,
        (i + 1) * cols <= rows * cols,
        i * cols + cols == (i + 1) * cols,
{
    assert((i + 1) * cols <= rows * cols) by (nonlinear_arith)
        requires
            0 <= i < rows,
            0 <= cols,
    ;
    assert(0 <= i * cols) by (nonlinear_arith)
        requires
            0 <= i,
            0 <= cols,
    ;
    assert(i * cols + cols == (i + 1) * cols) by (nonlinear_arith);
}

/// An index below `rows * cols` names a row below `rows` and a column below `cols`.
proof fn lemma_cell_within(idx: int, rows: int, cols: int)
    requires
        0 <= rows,
        0 <= idx < rows * cols,
    ensures
        cols > 0,
        0 <= idx / cols < rows,
        0 <= idx % cols < cols,
{
    if cols <= 0 {
        assert(rows * cols <= 0) by (nonlinear_arith)
            requires
                cols <= 0,
                0 <= rows,
        ;
    }
    assert(0 <= idx / cols < rows) by (nonlinear_arith)
        requires
            cols > 0,
            0 <= idx < rows * cols,
    ;
}

/// Builds the job for result cell `idx` of `a * b`.
pub fn job_for(a: &Matrix, b: &Matrix, idx: usize) -> (job: MsgInput)
    requires
        a@.cols == b@.rows,
        idx < a@.rows * b@.cols,
    ensures
        job@ == cell_job(a@, b@, idx as int),
{
    let c = b.col();
    proof {
        lemma_cell_within(idx as int, a@.rows as int, c as int);
    }
    let row = a.row_vector(idx / c);
    let col = b.col_vector(idx % c);
    MsgInput::new(idx, row, col)
}

/// Splits `a * b` into one job per result cell, in row-major order.
pub fn plan_jobs(a: &Matrix, b: &Matrix) -> (r: Result<Vec<MsgInput>, MatrixError>)
    requires
        a@.cols == b@.rows ==> a@.rows * b@.cols <= usize::MAX,
    ensures
        a@.cols != b@.rows ==> r == Err::<Vec<MsgInput>, MatrixError>(MatrixError::DimensionMismatch),
        a@.cols == b@.rows ==> r is Ok,
        r is Ok ==> r->Ok_0@.len() == a@.rows * b@.cols && forall|idx: int|
            0 <= idx < a@.rows * b@.cols ==> #[trigger] r->Ok_0@[idx]@ == cell_job(a@, b@, idx),
{
    if a.col() != b.row() {
        return Err(MatrixError::DimensionMismatch);
    }
    let n = a.row() * b.col();
    let mut jobs: Vec<MsgInput> = Vec::with_capacity(n);
    let mut idx: usize = 0;
    while idx < n
        invariant
            n == a@.rows * b@.cols,
            a@.cols == b@.rows,
            idx <= n,
            jobs@.len() == idx,
            forall|t: int| 0 <= t < idx ==> #[trigger] jobs@[t]@ == cell_job(a@, b@, t),
        decreases n - idx,
    {
        jobs.push(job_for(a, b, idx));
        idx = idx + 1;
    }
    Ok(jobs)
}

/// Both operands of the job for a cell of `a * b` have the shared dimension as length.
proof fn lemma_cell_job_lengths(a: MatrixModel, b: MatrixModel, idx: int)
    requires
        a.wf(),
        b.wf(),
        a.cols == b.rows,
        0 <= idx < a.rows * b.cols,
    ensures
        cell_job(a, b, idx).row.len() == a.cols,
        cell_job(a, b, idx).col.len() == b.rows,
{
    lemma_cell_within(idx, a.rows as int, b.cols as int);
    lemma_row_within(idx / (b.cols as int), a.rows as int, a.cols as int);
}

/// Queue `q` holds, in order, the jobs of the cells `w`, `w + NUM_THREADS`,
/// `w + 2 * NUM_THREADS`, ... of `a * b`, starting from the `from`-th of them.
pub open spec fn holds_round(q: Seq<MsgInput>, a: MatrixModel, b: MatrixModel, w: int, from: int) -> bool {
    forall|s: int| 0 <= s < q.len() ==> #[trigger] q[s]@ == cell_job(a, b, w + (from + s) * NUM_THREADS)
}

/// Queue `w`, holding jobs `from` to `from + len - 1` of its round, reaches every cell of
/// its round below `n` and none beyond.
pub open spec fn round_complete(w: int, from: int, len: int, n: int) -> bool {
    &&& w + (from + len) * NUM_THREADS >= n
    &&& from + len == 0 || w + (from + len - 1) * NUM_THREADS < n
}

/// Once the workers above `w` have answered their whole queues and worker `w` the first
/// `s` jobs of its own, cell `t` has been answered.
spec fn answered(t: int, w: int, s: int) -> bool {
    t % (NUM_THREADS as int) > w || (t % (NUM_THREADS as int) == w && t / (NUM_THREADS as int) < s)
}

/// Sends the job of every cell of `a * b`, in row-major order, to the inbound queue of the
/// worker that `route` picks; each queue keeps its jobs in the order they came.
pub fn dispatch(a: &Matrix, b: &Matrix) -> (queues: Vec<VecDeque<MsgInput>>)
    requires
        a@.cols == b@.rows,
        a@.rows * b@.cols <= usize::MAX,
    ensures
        queues@.len() == NUM_THREADS,
        forall|w: int|
            0 <= w < NUM_THREADS ==> holds_round(#[trigger] queues@[w]@, a@, b@, w, 0) && round_complete(
                w,
                0,
                queues@[w]@.len() as int,
                (a@.rows * b@.cols) as int,
            ),
{
    let n = a.row() * b.col();
    let mut queues: Vec<VecDeque<MsgInput>> = Vec::new();
    let mut w: usize = 0;
    while w < NUM_THREADS
        invariant
            w <= NUM_THREADS,
            queues@.len() == w,
            forall|v: int| 0 <= v < w ==> (#[trigger] queues@[v]@).len() == 0,
        decreases NUM_THREADS - w,
    {
        queues.push(VecDeque::new());
        w = w + 1;
    }
    let mut idx: usize = 0;
    while idx < n
        invariant
            a@.cols == b@.rows,
            n == a@.rows * b@.cols,
            idx <= n,
            queues@.len() == NUM_THREADS,
            forall|v: int|
                0 <= v < NUM_THREADS ==> holds_round(#[trigger] queues@[v]@, a@, b@, v, 0) && round_complete(
                    v,
                    0,
                    queues@[v]@.len() as int,
                    idx as int,
                ),
        decreases n - idx,
    {
        let job = job_for(a, b, idx);
        let w = route(idx, NUM_THREADS);
        let ghost before = queues@;
        let ghost len = before[w as int]@.len() as int;
        proof {
            lemma_fundamental_div_mod_converse(
                idx as int,
                NUM_THREADS as int,
                idx as int / NUM_THREADS as int,
                w as int,
            );
        }
        assert(len == idx as int / NUM_THREADS as int);
        let mut q = queues.remove(w);
        q.push_back(job);
        queues.insert(w, q);
        proof {
            assert forall|v: int| 0 <= v < NUM_THREADS implies holds_round(#[trigger] queues@[v]@, a@, b@, v, 0)
                && round_complete(v, 0, queues@[v]@.len() as int, idx + 1) by {
                if v != w {
                    assert(queues@[v] == before[v]);
                    let l = before[v]@.len() as int;
                    if v + l * NUM_THREADS == idx {
                        lemma_fundamental_div_mod_converse(idx as int, NUM_THREADS as int, l, v);
                    }
                } else {
                    assert(queues@[v]@ == before[v]@.push(job));
                }
            }
        }
        idx = idx + 1;
    }
    queues
}

/// Multiplies `a` by `b` as a pool of `NUM_THREADS` workers would: the job of every
/// result cell is sent to the inbound queue of the worker that `route` picks; each worker
/// answers its queue in order; and a collector writes each reply into its cell. Replies
/// are collected worker after worker, not in the order the jobs were sent.
pub fn multiply(a: &Matrix, b: &Matrix) -> (r: Result<Matrix, MatrixError>)
    requires
        a@.cols == b@.rows ==> a@.rows * b@.cols <= usize::MAX,
    ensures
        match r {
            Ok(m) => multiply_result(a@, b@) == Ok::<MatrixModel, MatrixError>(m@),
            Err(e) => multiply_result(a@, b@) == Err::<MatrixModel, MatrixError>(e),
        },
{
    if a.col() != b.row() {
        return Err(MatrixError::DimensionMismatch);
    }
    let rows = a.row();
    let cols = b.col();
    let n = rows * cols;
    let ghost p = product(a@, b@);
    let mut queues = dispatch(a, b);
    let mut collector = Collector::new(rows, cols);
    let mut left: usize = NUM_THREADS;
    while left > 0
        invariant
            a@.wf(),
            b@.wf(),
            a@.cols == b@.rows,
            rows == a@.rows,
            cols == b@.cols,
            n == rows * cols,
            p == product(a@, b@),
            left <= NUM_THREADS,
            queues@.len() == left,
            forall|w: int|
                0 <= w < left ==> holds_round(#[trigger] queues@[w]@, a@, b@, w, 0) && round_complete(
                    w,
                    0,
                    queues@[w]@.len() as int,
                    n as int,
                ),
            collector.wf(),
            collector@.rows == rows,
            collector@.cols == cols,
            collector@.slots.len() == n,
            forall|t: int|
                0 <= t < n ==> #[trigger] collector@.slots[t] == if t % NUM_THREADS as int >= left {
                    Some(p.data[t])
                } else {
                    None
                },
            forall|t: int|
                0 <= t < n && t % NUM_THREADS as int >= left ==> #[trigger] dot_fits(
                    cell_job(a@, b@, t).row,
                    cell_job(a@, b@, t).col,
                ),
        decreases left,
    {
        let mut q = queues.pop().unwrap();
        left = left - 1;
        let w = left;
        let mut s: usize = 0;
        while q.len() > 0
            invariant
                a@.wf(),
                b@.wf(),
                a@.cols == b@.rows,
                rows == a@.rows,
                cols == b@.cols,
                n == rows * cols,
                p == product(a@, b@),
                w == left,
                left < NUM_THREADS,
                holds_round(q@, a@, b@, w as int, s as int),
                round_complete(w as int, s as int, q@.len() as int, n as int),
                collector.wf(),
                collector@.rows == rows,
                collector@.cols == cols,
                collector@.slots.len() == n,
                forall|t: int|
                    0 <= t < n ==> #[trigger] collector@.slots[t] == if answered(t, w as int, s as int) {
                        Some(p.data[t])
                    } else {
                        None
                    },
                forall|t: int|
                    0 <= t < n && answered(t, w as int, s as int) ==> #[trigger] dot_fits(
                        cell_job(a@, b@, t).row,
                        cell_job(a@, b@, t).col,
                    ),
            decreases q@.len(),
        {
            let ghost before_q = q@;
            let job = q.pop_front().unwrap();
            let ghost cell: int = w + s * NUM_THREADS;
            assert(before_q[0]@ == cell_job(a@, b@, cell));
            proof {
                lemma_fundamental_div_mod_converse(cell, NUM_THREADS as int, s as int, w as int);
                lemma_cell_job_lengths(a@, b@, cell);
            }
            let out = match run_job(job) {
                Ok(out) => out,
                Err(e) => {
                    assert(!product_fits(a@, b@));
                    return Err(e);
                },
            };
            let ghost before = collector@;
            match collector.record(out) {
                Ok(()) => {},
                Err(e) => {
                    assert(before.slots[cell] is None);
                    return Err(e);
                },
            }
            proof {
                assert(collector@.slots == before.slots.update(cell, Some(p.data[cell])));
                assert forall|t: int| 0 <= t < n implies #[trigger] collector@.slots[t] == if answered(t, w as int, s + 1) {
                    Some(p.data[t])
                } else {
                    None
                } by {
                    lemma_fundamental_div_mod(t, NUM_THREADS as int);
                }
                assert forall|t: int|
                    0 <= t < n && answered(t, w as int, s + 1) implies #[trigger] dot_fits(
                    cell_job(a@, b@, t).row,
                    cell_job(a@, b@, t).col,
                ) by {
                    lemma_fundamental_div_mod(t, NUM_THREADS as int);
                }
                assert forall|k: int| 0 <= k < q@.len() implies #[trigger] q@[k]@ == cell_job(
                    a@,
                    b@,
                    w + (s + 1 + k) * NUM_THREADS,
                ) by {
                    assert(q@[k] == before_q[k + 1]);
                }
            }
            s = s + 1;
        }
        proof {
            assert(q@.len() == 0);
            assert(w + s * NUM_THREADS >= n);
            assert forall|t: int| 0 <= t < n implies #[trigger] answered(t, w as int, s as int) == (t
                % NUM_THREADS as int >= w) by {
                let k = NUM_THREADS as int;
                lemma_fundamental_div_mod(t, k);
                if t % k == w {
                    assert(t / k < s) by (nonlinear_arith)
                        requires
                            t == k * (t / k) + w,
                            t < n,
                            w + s * k >= n,
                            k > 0,
                    ;
                }
            }
        }
    }
    assert(product_fits(a@, b@));
    let ghost full = collector@;
    let result = collector.finish();
    proof {
        assert forall|t: int| 0 <= t < n implies #[trigger] full.slots[t] is Some by {
            lemma_fundamental_div_mod(t, NUM_THREADS as int);
        }
    }
    match result {
        Ok(m) => {
            assert(m@.data =~= p.data);
            Ok(m)
        },
        Err(e) => Err(e),
    }
}

/// `a * b` multiplies as `multiply` does; it is only defined where `multiply` succeeds,
/// and stops the program elsewhere.
impl core::ops::Mul for Matrix {
    type Output = Matrix;

    fn mul(self, rhs: Matrix) -> (m: Matrix)
        ensures
            m@ == product(self@, rhs@),
    {
        match multiply(&self, &rhs) {
            Ok(m) => m,
            Err(_) => vstd::pervasive::unreached(),
        }
    }
}

/// Verified callers may write `a * b` only where the product can be formed; what it
/// returns is stated by `mul` itself.
impl vstd::std_specs::ops::MulSpecImpl for Matrix {
    open spec fn obeys_mul_spec() -> bool {
        false
    }

    open spec fn mul_req(self, rhs: Matrix) -> bool {
        &&& self@.cols == rhs@.rows ==> self@.rows * rhs@.cols <= usize::MAX
        &&& multiply_result(self@, rhs@) is Ok
    }

    open spec fn mul_spec(self, rhs: Matrix) -> Matrix {
        choose|m: Matrix| m@ == product(self@, rhs@)
    }
}

/// The replies to the jobs of `a * b`, one per cell in row-major order.
pub open spec fn planned_replies(a: MatrixModel, b: MatrixModel) -> Seq<OutputModel> {
    Seq::new(a.rows * b.cols, |idx: int| job_result(cell_job(a, b, idx))->Ok_0)
}

/// Where `a * b` can be formed, every cell is computed by exactly one job: each job goes
/// to one of the workers, however many there are; each job is answered; and the replies,
/// collected in any order, write every cell exactly once, leave none unwritten, and
/// assemble the product.
pub proof fn lemma_jobs_cover_every_cell(a: MatrixModel, b: MatrixModel, order: Seq<int>, workers: nat)
    requires
        a.wf(),
        b.wf(),
        multiply_result(a, b) is Ok,
        is_arrangement(order, a.rows * b.cols),
        workers > 0,
    ensures
        forall|idx: int|
            0 <= idx < a.rows * b.cols ==> #[trigger] route_spec(idx as nat, workers) < workers,
        forall|idx: int| 0 <= idx < a.rows * b.cols ==> #[trigger] job_result(cell_job(a, b, idx)) is Ok,
        collect_all(empty_collector(a.rows, b.cols), rearranged(planned_replies(a, b), order)) is Ok,
        is_complete(
            collect_all(empty_collector(a.rows, b.cols), rearranged(planned_replies(a, b), order))->Ok_0,
        ),
        assembled(
            collect_all(empty_collector(a.rows, b.cols), rearranged(planned_replies(a, b), order))->Ok_0,
        ) == product(a, b),
{
    let n = a.rows * b.cols;
    let replies = planned_replies(a, b);
    let p = product(a, b);
    assert forall|idx: int| 0 <= idx < n implies #[trigger] job_result(cell_job(a, b, idx)) is Ok && replies[idx]
        == (OutputModel { idx: idx as nat, value: p.data[idx] }) by {
        lemma_cell_job_lengths(a, b, idx);
        assert(dot_fits(cell_job(a, b, idx).row, cell_job(a, b, idx).col));
    }
    assert(replies_fit(replies, n)) by {
        assert forall|x: int, y: int|
            0 <= x < replies.len() && 0 <= y < replies.len() && x != y implies #[trigger] replies[x].idx
            != #[trigger] replies[y].idx by {
            assert(replies[x].idx == x && replies[y].idx == y);
        }
    }
    lemma_collect_all_characterized(a.rows, b.cols, replies);
    lemma_collection_order_irrelevant(a.rows, b.cols, replies, order);
    let c = collect_all(empty_collector(a.rows, b.cols), replies)->Ok_0;
    assert forall|k: int| 0 <= k < n implies #[trigger] c.slots[k] == Some(p.data[k]) by {
        lemma_reply_for_unique(replies, n, k);
    }
    assert(assembled(c).data =~= p.data);
}

/// `a[i][0] * b[0][j] + ... + a[i][n-1] * b[n-1][j]`, summed left to right.
pub open spec fn entry_sum(a: MatrixModel, b: MatrixModel, i: int, j: int, n: int) -> int
    decreases n,
{
    if n <= 0 {
        0
    } else {
        entry_sum(a, b, i, j, n - 1) + a.data[i * a.cols + (n - 1)] * b.data[(n - 1) * b.cols + j]
    }
}

/// The product is the textbook one: cell `(i, j)`, stored at `i * cols + j`, is
/// `a[i][0] * b[0][j] + ... + a[i][k-1] * b[k-1][j]` for the shared dimension `k`.
pub proof fn lemma_product_is_textbook(a: MatrixModel, b: MatrixModel, i: int, j: int)
    requires
        a.wf(),
        b.wf(),
        a.cols == b.rows,
        0 <= i < a.rows,
        0 <= j < b.cols,
    ensures
        0 <= i * b.cols + j < a.rows * b.cols,
        product(a, b).data[i * b.cols + j] == entry_sum(a, b, i, j, a.cols as int) as i64,
{
    let c = b.cols as int;
    let idx = i * c + j;
    lemma_row_within(i, a.rows as int, c);
    lemma_fundamental_div_mod_converse(idx, c, i, j);
    lemma_row_within(i, a.rows as int, a.cols as int);
    lemma_dot_is_entry_sum(a, b, i, j, a.cols as int);
}

proof fn lemma_dot_is_entry_sum(a: MatrixModel, b: MatrixModel, i: int, j: int, n: int)
    requires
        a.wf(),
        b.wf(),
        a.cols == b.rows,
        0 <= i < a.rows,
        0 <= j < b.cols,
        0 <= n <= a.cols,
    ensures
        dot_prefix(row_of(a, i), col_of(b, j), n) == entry_sum(a, b, i, j, n),
    decreases n,
{
    if n > 0 {
        lemma_dot_is_entry_sum(a, b, i, j, n - 1);
        lemma_row_within(i, a.rows as int, a.cols as int);
        assert(row_of(a, i)[n - 1] == a.data[i * a.cols + (n - 1)]);
        assert(col_of(b, j)[n - 1] == b.data[(n - 1) * b.cols + j]);
    }
}

} // verus!
