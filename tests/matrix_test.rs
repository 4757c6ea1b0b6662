use rs_concurrency::collector::Collector;
use rs_concurrency::job::{route, run_job, MatrixError, MsgInput, MsgOutput, NUM_THREADS};
use rs_concurrency::matrix::{dispatch, job_for, multiply, plan_jobs, Matrix};
use rs_concurrency::vector::{dot_product, Vector, VectorError};

fn naive_product(a: &[i64], b: &[i64], r: usize, k: usize, c: usize) -> Vec<i64> {
    let mut out = vec![0i64; r * c];
    for i in 0..r {
        for j in 0..c {
            let mut sum = 0i64;
            for t in 0..k {
                sum += a[i * k + t] * b[t * c + j];
            }
            out[i * c + j] = sum;
        }
    }
    out
}

#[test]
fn test_matrix_new() {
    let arr = [1, 2, 3, 4, 5, 6];
    let matrix = Matrix::new(arr.to_vec(), 2, 3);
    assert_eq!(matrix.row(), 2);
    assert_eq!(matrix.col(), 3);
}

#[test]
fn test_matrix_multiply() {
    let a = Matrix::new(vec![1, 2, 3, 4, 5, 6], 2, 3);
    let b = Matrix::new(vec![1, 2, 3, 4, 5, 6], 3, 2);

    let c = a * b;

    assert_eq!(c.col(), 2);
    assert_eq!(c.row(), 2);
    assert_eq!(*c.data(), vec![22, 28, 49, 64]);

    assert_eq!(c.to_debug_string(), "Matrix(row=2, col=2, {22 28, 49 64})");
}

#[test]
fn test_matrix_display() {
    let a = Matrix::new(vec![1, 2, 3, 4], 2, 2);
    let b = Matrix::new(vec![1, 2, 3, 4], 2, 2);

    let c = a * b;

    assert_eq!(c.col(), 2);
    assert_eq!(c.row(), 2);
    assert_eq!(*c.data(), vec![7, 10, 15, 22]);

    assert_eq!(c.to_debug_string(), "Matrix(row=2, col=2, {7 10, 15 22})");
}

#[test]
fn test_a_can_not_multiply_b() {
    let a = Matrix::new(vec![1, 2, 3, 4, 5, 6], 2, 3);
    let b = Matrix::new(vec![1, 2, 3, 4], 2, 2);
    let c = multiply(&a, &b);
    assert!(c.is_err())
}

#[test]
#[should_panic]
fn test_a_can_not_multiply_b_panic() {
    let a = Matrix::new(vec![1, 2, 3, 4, 5, 6], 2, 3);
    let b = Matrix::new(vec![1, 2, 3, 4], 2, 2);

    let _c = a * b;
}

#[test]
fn multiply_returns_product_and_display_text() {
    let a = Matrix::new(vec![1, 2, 3, 4, 5, 6], 2, 3);
    let b = Matrix::new(vec![1, 2, 3, 4, 5, 6], 3, 2);
    let c = multiply(&a, &b).unwrap();
    assert_eq!(*c.data(), vec![22, 28, 49, 64]);
    assert_eq!(c.to_display_string(), "{22 28, 49 64}");
}

#[test]
fn multiply_mismatch_is_dimension_error() {
    let a = Matrix::new(vec![1, 2, 3, 4, 5, 6], 2, 3);
    let b = Matrix::new(vec![1, 2, 3, 4], 2, 2);
    assert_eq!(multiply(&a, &b).err(), Some(MatrixError::DimensionMismatch));
    assert_eq!(plan_jobs(&a, &b).err(), Some(MatrixError::DimensionMismatch));
}

#[test]
fn multiply_is_repeatable() {
    let a = Matrix::new((0..12).map(|x| x * 7 - 30).collect(), 3, 4);
    let b = Matrix::new((0..20).map(|x| 11 - x * 3).collect(), 4, 5);
    let first = multiply(&a, &b).unwrap();
    let second = multiply(&a, &b).unwrap();
    assert_eq!(*first.data(), *second.data());
    assert_eq!(*first.data(), naive_product(a.data(), b.data(), 3, 4, 5));
}

#[test]
fn multiply_large_fills_every_cell() {
    let n = 100usize;
    let a_data: Vec<i64> = (0..n * n).map(|x| (x % 17) as i64 - 8).collect();
    let b_data: Vec<i64> = (0..n * n).map(|x| (x % 13) as i64 - 6).collect();
    let a = Matrix::new(a_data.clone(), n, n);
    let b = Matrix::new(b_data.clone(), n, n);
    let c = multiply(&a, &b).unwrap();
    assert_eq!(c.row(), n);
    assert_eq!(c.col(), n);
    assert_eq!(*c.data(), naive_product(&a_data, &b_data, n, n, n));
}

#[test]
fn multiply_overflow_is_reported() {
    let a = Matrix::new(vec![i64::MAX, 1], 1, 2);
    let b = Matrix::new(vec![1, 1], 2, 1);
    assert_eq!(multiply(&a, &b).err(), Some(MatrixError::Overflow));
}

#[test]
fn multiply_with_empty_inner_dimension_gives_zeros() {
    let a = Matrix::new(vec![], 2, 0);
    let b = Matrix::new(vec![], 0, 3);
    let c = multiply(&a, &b).unwrap();
    assert_eq!(*c.data(), vec![0; 6]);
    assert_eq!(c.to_display_string(), "{0 0 0, 0 0 0}");
}

#[test]
fn display_of_negative_and_empty_matrices() {
    let m = Matrix::new(vec![-5, 0, 12, -300], 2, 2);
    assert_eq!(m.to_display_string(), "{-5 0, 12 -300}");
    assert_eq!(m.to_debug_string(), "Matrix(row=2, col=2, {-5 0, 12 -300})");
    let single = Matrix::new(vec![42], 1, 1);
    assert_eq!(single.to_display_string(), "{42}");
    let none = Matrix::new(vec![], 0, 0);
    assert_eq!(none.to_display_string(), "{}");
    let flat = Matrix::new(vec![], 2, 0);
    assert_eq!(flat.to_display_string(), "{, }");
}

#[test]
fn dot_product_sums_products() {
    let a = Vector::new(vec![1, 2, 3]);
    let b = Vector::new(vec![4, -5, 6]);
    assert_eq!(dot_product(a, b), Ok(12));
    assert_eq!(dot_product(Vector::new(vec![]), Vector::new(vec![])), Ok(0));
}

#[test]
fn dot_product_errors() {
    let a = Vector::new(vec![1, 2, 3]);
    let b = Vector::new(vec![4, 5]);
    assert_eq!(dot_product(a, b), Err(VectorError::LengthMismatch));
    let big = Vector::new(vec![i64::MAX, i64::MAX]);
    let two = Vector::new(vec![2, 0]);
    assert_eq!(dot_product(big, two), Err(VectorError::Overflow));
    let partial = Vector::new(vec![i64::MAX, 1]);
    let ones = Vector::new(vec![1, 1]);
    assert_eq!(dot_product(partial, ones), Err(VectorError::Overflow));
}

#[test]
fn row_and_column_vectors() {
    let m = Matrix::new(vec![1, 2, 3, 4, 5, 6], 2, 3);
    assert_eq!(m.row_vector(1).as_slice(), &[4, 5, 6]);
    assert_eq!(m.col_vector(2).as_slice(), &[3, 6]);
    assert_eq!(m.col_vector(0).len(), 2);
    assert_eq!(m.col_vector(0).get(1), 4);
}

#[test]
fn routing_is_round_robin() {
    assert_eq!(route(0, NUM_THREADS), 0);
    assert_eq!(route(5, NUM_THREADS), 1);
    assert_eq!(route(7, 3), 1);
    assert_eq!(route(9, 1), 0);
}

#[test]
fn jobs_cover_each_cell_once() {
    let a = Matrix::new(vec![1, 2, 3, 4, 5, 6], 2, 3);
    let b = Matrix::new(vec![1, 2, 3, 4, 5, 6], 3, 2);
    let jobs = plan_jobs(&a, &b).unwrap();
    assert_eq!(jobs.len(), 4);
    for (k, job) in jobs.iter().enumerate() {
        assert_eq!(job.idx(), k);
    }
    let values: Vec<i64> = jobs.into_iter().map(|j| run_job(j).unwrap().value()).collect();
    assert_eq!(values, vec![22, 28, 49, 64]);
}

#[test]
fn run_job_answers_with_cell_and_value() {
    let a = Matrix::new(vec![1, 2, 3, 4, 5, 6], 2, 3);
    let b = Matrix::new(vec![1, 2, 3, 4, 5, 6], 3, 2);
    let out = run_job(job_for(&a, &b, 2)).unwrap();
    assert_eq!(out.idx(), 2);
    assert_eq!(out.value(), 49);
    let bad = MsgInput::new(3, Vector::new(vec![1, 2]), Vector::new(vec![1]));
    assert_eq!(run_job(bad).err(), Some(MatrixError::ElementLengthMismatch));
    let big = MsgInput::new(0, Vector::new(vec![i64::MIN]), Vector::new(vec![-1]));
    assert_eq!(run_job(big).err(), Some(MatrixError::Overflow));
}

#[test]
fn collector_accepts_any_order() {
    let mut c = Collector::new(2, 2);
    for (idx, value) in [(3usize, 64i64), (0, 22), (2, 49), (1, 28)] {
        assert_eq!(c.record(MsgOutput::new(idx, value)), Ok(()));
    }
    let m = c.finish().unwrap();
    assert_eq!(*m.data(), vec![22, 28, 49, 64]);
    assert_eq!(m.row(), 2);
    assert_eq!(m.col(), 2);
}

#[test]
fn collector_refuses_bad_replies() {
    let mut c = Collector::new(1, 2);
    assert_eq!(c.record(MsgOutput::new(2, 1)), Err(MatrixError::ResultOutOfRange));
    assert_eq!(c.record(MsgOutput::new(1, 5)), Ok(()));
    assert_eq!(c.record(MsgOutput::new(1, 6)), Err(MatrixError::DuplicateResult));
    assert_eq!(c.finish().err(), Some(MatrixError::MissingResult));
}

#[test]
fn dispatch_routes_round_robin_in_order() {
    let a = Matrix::new(vec![1, 2, 3, 4, 5, 6], 2, 3);
    let b = Matrix::new(vec![1, 0, 0, 0, 1, 0, 0, 0, 1], 3, 3);
    let queues = dispatch(&a, &b);
    assert_eq!(queues.len(), NUM_THREADS);
    let cells: Vec<Vec<usize>> = queues
        .iter()
        .map(|q| q.iter().map(|job| job.idx()).collect())
        .collect();
    assert_eq!(cells, vec![vec![0, 4], vec![1, 5], vec![2], vec![3]]);
}

#[test]
fn dispatch_with_fewer_cells_than_workers() {
    let a = Matrix::new(vec![3], 1, 1);
    let b = Matrix::new(vec![4], 1, 1);
    let queues = dispatch(&a, &b);
    let lens: Vec<usize> = queues.iter().map(|q| q.len()).collect();
    assert_eq!(lens, vec![1, 0, 0, 0]);
    assert_eq!(*multiply(&a, &b).unwrap().data(), vec![12]);
}

#[test]
fn mismatch_is_reported_even_for_huge_outer_dimensions() {
    let a = Matrix::new(vec![1, 2], 2, 1);
    let b = Matrix::new(vec![], 0, usize::MAX);
    assert_eq!(multiply(&a, &b).err(), Some(MatrixError::DimensionMismatch));
    assert_eq!(plan_jobs(&a, &b).err(), Some(MatrixError::DimensionMismatch));
}
