use vstd::prelude::*;

use crate::vector::{dot_product, dot_result, Vector, VectorError};

verus! {

/// Number of workers that share the cells of one product.
pub const NUM_THREADS: usize = 4;

/// Why a product could not be assembled.
#[derive(Debug, Clone, Copy, PartialEq, Eq, Structural)]
pub enum MatrixError {
    /// The left operand's column count differs from the right operand's row count.
    DimensionMismatch,
    /// A job's row and column had different lengths.
    ElementLengthMismatch,
    /// A cell's products or running sums left the range of `i64`.
    Overflow,
    /// A worker's channel closed before its reply arrived.
    ChannelDisconnected,
    /// A reply named a cell outside the result.
    ResultOutOfRange,
    /// A second reply arrived for a cell that was already written.
    DuplicateResult,
    /// The collection ended with a cell that no reply had written.
    MissingResult,
}

/// What a job carries: the index of the cell it computes and the two operands.
pub ghost struct JobModel {
    pub idx: nat,
    pub row: Seq<i64>,
    pub col: Seq<i64>,
}

/// The reply of a job: the cell's index and its value.
pub ghost struct OutputModel {
    pub idx: nat,
    pub value: i64,
}

/// A job handed to a worker: one row of the left operand, one column of the right one,
/// and the index of the result cell they make.
pub struct MsgInput {
    idx: usize,
    row: Vector,
    col: Vector,
}

/// A worker's answer to one job.
#[derive(Debug, Clone, Copy, PartialEq, Eq)]
pub struct MsgOutput {
    idx: usize,
    value: i64,
}

impl View for MsgInput {
    type V = JobModel;

    closed spec fn view(&self) -> JobModel {
        JobModel { idx: self.idx as nat, row: self.row@, col: self.col@ }
    }
}

impl View for MsgOutput {
    type V = OutputModel;

    closed spec fn view(&self) -> OutputModel {
        OutputModel { idx: self.idx as nat, value: self.value }
    }
}

impl MsgInput {
    pub fn new(idx: usize, row: Vector, col: Vector) -> (m: MsgInput)
        ensures
            m@ == (JobModel { idx: idx as nat, row: row@, col: col@ }),
    {
        MsgInput { idx, row, col }
    }

    pub fn idx(&self) -> (i: usize)
        ensures
            i == self@.idx,
    {
        self.idx
    }
}

impl MsgOutput {
    pub fn new(idx: usize, value: i64) -> (m: MsgOutput)
        ensures
            m@ == (OutputModel { idx: idx as nat, value }),
    {
        MsgOutput { idx, value }
    }

    pub fn idx(&self) -> (i: usize)
        ensures
            i == self@.idx,
    {
        self.idx
    }

    pub fn value(&self) -> (v: i64)
        ensures
            v == self@.value,
    {
        self.value
    }
}

/// The worker that serves the job for cell `idx`, among `workers` of them.
pub open spec fn route_spec(idx: nat, workers: nat) -> nat {
    idx % workers
}

/// Picks the worker for a cell: cells go round the workers in turn, whatever they hold.
pub fn route(idx: usize, workers: usize) -> (w: usize)
    requires
        workers > 0,
    ensures
        w == route_spec(idx as nat, workers as nat),
        w < workers,
{
    idx % workers
}

/// What a worker answers to a job.
pub open spec fn job_result(job: JobModel) -> Result<OutputModel, MatrixError> {
    match dot_result(job.row, job.col) {
        Ok(v) => Ok(OutputModel { idx: job.idx, value: v }),
        Err(VectorError::LengthMismatch) => Err(MatrixError::ElementLengthMismatch),
        Err(VectorError::Overflow) => Err(MatrixError::Overflow),
    }
}

/// A worker's step: consumes the job and answers with the dot product of its operands,
/// tagged with the job's cell.
pub fn run_job(job: MsgInput) -> (r: Result<MsgOutput, MatrixError>)
    ensures
        match r {
            Ok(out) => job_result(job@) == Ok::<OutputModel, MatrixError>(out@),
            Err(e) => job_result(job@) == Err::<OutputModel, MatrixError>(e),
        },
{
    let MsgInput { idx, row, col } = job;
    match dot_product(row, col) {
        Ok(value) => Ok(MsgOutput { idx, value }),
        Err(VectorError::LengthMismatch) => Err(MatrixError::ElementLengthMismatch),
        Err(VectorError::Overflow) => Err(MatrixError::Overflow),
    }
}

} // verus!
