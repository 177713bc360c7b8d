use concurrency::{
    collect, dot_product, multiply, plan_tasks, products_fit, run_task, worker_for, Matrix, MatrixError,
    MsgInput, MsgOutput, Vector, NUM_THREADS,
};

/// Runs the parallel pipeline on one thread: plans the tasks, routes each to
/// its worker's queue, lets every worker run its queue, then collects the
/// results in the order the tasks were issued.
fn product_by_workers(a: &Matrix, b: &Matrix, pool_size: usize) -> Result<Matrix, MatrixError> {
    let tasks = plan_tasks(a, b)?;
    let mut queues: Vec<Vec<MsgInput>> = (0..pool_size).map(|_| Vec::new()).collect();
    let n = tasks.len();
    for t in tasks {
        let w = worker_for(t.idx(), pool_size);
        queues[w].push(t);
    }
    let mut done: Vec<Option<MsgOutput>> = (0..n).map(|_| None).collect();
    for queue in &queues {
        for t in queue {
            let out = run_task(t)?;
            let k = out.idx();
            done[k] = Some(out);
        }
    }
    let mut outs = Vec::new();
    for d in done {
        outs.push(d.ok_or(MatrixError::ChannelClosed)?);
    }
    Ok(collect(a.row_count(), b.col_count(), &outs))
}

#[test]
fn test_multiply() {
    let a = Matrix::new(&[1, 2, 3, 4, 5, 6], 2, 3);
    let b = Matrix::new(&[10, 11, 20, 21, 30, 31], 3, 2);
    let result = multiply(&a, &b).unwrap();
    assert_eq!(*result.data(), vec![140, 146, 320, 335], "Matrix multiplication failed");
}

#[test]
fn test_display() {
    let a = Matrix::new(&[1, 2, 3, 4, 5, 6], 2, 3);
    assert_eq!(a.to_string(), "| 1 2 3 |\n| 4 5 6 |\n", "Matrix display failed");
}

#[test]
fn test_vector_dot_product() {
    let a = Vector::new(&[1, 2, 3]);
    let b = Vector::new(&[4, 5, 6]);
    let result = dot_product(a, b).unwrap();
    assert_eq!(result, 32, "Vector dot product failed");
}

#[test]
fn test_multiply_thread() {
    let a = Matrix::new(&[1, 2, 3, 4, 5, 6], 2, 3);
    let b = Matrix::new(&[10, 11, 20, 21, 30, 31], 3, 2);
    let result = product_by_workers(&a, &b, NUM_THREADS).unwrap();
    assert_eq!(*result.data(), vec![140, 146, 320, 335], "Matrix multiplication failed");
}

#[test]
fn test_multiply_thread_large() {
    let a = Matrix::new(&[1; 1000], 100, 10);
    let b = Matrix::new(&[1; 1000], 10, 100);
    let result = product_by_workers(&a, &b, NUM_THREADS).unwrap();
    assert_eq!(*result.data(), vec![10; 10000], "Matrix multiplication failed");
}

#[test]
fn test_multiply_thread_invalid() {
    let a = Matrix::new(&[1, 2, 3, 4, 5, 6], 2, 3);
    let b = Matrix::new(&[10, 11, 20, 21], 2, 2);
    let result = product_by_workers(&a, &b, NUM_THREADS);
    assert!(result.is_err(), "Matrix multiplication should fail");
}

#[test]
fn test_multiply_thread_invalid_vector() {
    let a = Vector::new(&[1, 2, 3]);
    let b = Vector::new(&[4, 5]);
    let result = dot_product(a, b);
    assert!(result.is_err(), "Vector dot product should fail");
}

#[test]
fn mismatched_shapes_give_dimension_mismatch() {
    let a = Matrix::new(&[1, 2, 3, 4, 5, 6], 2, 3);
    let b = Matrix::new(&[10, 11, 20, 21], 2, 2);
    assert_eq!(multiply(&a, &b).unwrap_err(), MatrixError::DimensionMismatch);
    assert_eq!(plan_tasks(&a, &b).unwrap_err(), MatrixError::DimensionMismatch);
    assert_eq!(product_by_workers(&a, &b, 3).unwrap_err(), MatrixError::DimensionMismatch);
}

#[test]
fn unequal_vectors_give_dimension_mismatch() {
    let r = dot_product(Vector::new(&[1, 2, 3]), Vector::new(&[4, 5]));
    assert_eq!(r, Err(MatrixError::DimensionMismatch));
}

#[test]
fn dot_product_of_empty_vectors_is_zero() {
    assert_eq!(dot_product(Vector::new(&[]), Vector::new(&[])), Ok(0));
}

#[test]
fn dot_product_with_negatives() {
    assert_eq!(dot_product(Vector::new(&[-1, 2, -3]), Vector::new(&[4, -5, 6])), Ok(-32));
}

#[test]
fn parallel_agrees_with_serial() {
    let a_data: Vec<i64> = (0..20 * 30).map(|x| x - 250).collect();
    let b_data: Vec<i64> = (0..30 * 40).map(|x| 7 - x).collect();
    let a = Matrix::new(&a_data, 20, 30);
    let b = Matrix::new(&b_data, 30, 40);
    let serial = multiply(&a, &b).unwrap();
    for pool in [1, 2, 3, NUM_THREADS, 7] {
        let parallel = product_by_workers(&a, &b, pool).unwrap();
        assert_eq!(parallel.data(), serial.data());
        assert_eq!(parallel.row_count(), 20);
        assert_eq!(parallel.col_count(), 40);
    }
}

#[test]
fn repeated_products_are_identical() {
    let a = Matrix::new(&[3, -1, 4, 1, -5, 9], 3, 2);
    let b = Matrix::new(&[2, 6, -5, 3], 2, 2);
    let first = product_by_workers(&a, &b, NUM_THREADS).unwrap();
    let second = product_by_workers(&a, &b, NUM_THREADS).unwrap();
    assert_eq!(first.data(), second.data());
    assert_eq!(*first.data(), vec![11, 15, 3, 27, -55, -3]);
}

#[test]
fn all_ones_product_is_inner_size() {
    let a = Matrix::new(&[1; 1000], 100, 10);
    let b = Matrix::new(&[1; 1000], 10, 100);
    let result = multiply(&a, &b).unwrap();
    assert!(result.data().iter().all(|&v| v == 10));
    assert_eq!(result.data().len(), 10000);
}

#[test]
fn empty_products() {
    let a = Matrix::new(&[], 0, 3);
    let b = Matrix::new(&[1, 2, 3], 3, 1);
    let r = multiply(&a, &b).unwrap();
    assert_eq!((r.row_count(), r.col_count()), (0, 1));
    assert!(r.data().is_empty());
    let c = Matrix::new(&[], 2, 0);
    let d = Matrix::new(&[], 0, 2);
    let z = product_by_workers(&c, &d, NUM_THREADS).unwrap();
    assert_eq!(*z.data(), vec![0, 0, 0, 0]);
}

#[test]
fn init_is_all_zero() {
    let m = Matrix::init(2, 3);
    assert_eq!(*m.data(), vec![0; 6]);
    assert_eq!(m.to_string(), "| 0 0 0 |\n| 0 0 0 |\n");
}

#[test]
fn rows_and_columns_are_copies() {
    let m = Matrix::new(&[1, 2, 3, 4, 5, 6], 2, 3);
    assert_eq!(m.rows(1), vec![4, 5, 6]);
    assert_eq!(m.cols(2), vec![3, 6]);
    assert_eq!(m.cols(0), vec![1, 4]);
}

#[test]
fn get_set_and_store() {
    let mut m = Matrix::init(2, 2);
    m.set(1, 0, 7);
    m.store(1, -3);
    assert_eq!(m.get(1, 0), 7);
    assert_eq!(m.get(0, 1), -3);
    assert_eq!(*m.data(), vec![0, -3, 7, 0]);
}

#[test]
fn display_of_negative_and_extreme_values() {
    let m = Matrix::new(&[-7, 0, i64::MIN, i64::MAX], 2, 2);
    assert_eq!(m.to_string(), "| -7 0 |\n| -9223372036854775808 9223372036854775807 |\n");
    assert_eq!(Matrix::new(&[], 0, 0).to_string(), "");
}

#[test]
fn tasks_cover_the_grid_in_row_major_order() {
    let a = Matrix::new(&[1, 2, 3, 4, 5, 6], 2, 3);
    let b = Matrix::new(&[10, 11, 20, 21, 30, 31], 3, 2);
    let tasks = plan_tasks(&a, &b).unwrap();
    assert_eq!(tasks.len(), 4);
    for (k, t) in tasks.iter().enumerate() {
        assert_eq!(t.idx(), k);
        assert_eq!(t.row(), a.rows(k / 2).as_slice());
        assert_eq!(t.col(), b.cols(k % 2).as_slice());
    }
    let out = run_task(&tasks[3]).unwrap();
    assert_eq!((out.idx(), out.result()), (3, 335));
}

#[test]
fn run_task_rejects_unequal_operands() {
    let t = MsgInput::new(0, vec![1, 2], vec![3]);
    assert_eq!(run_task(&t).unwrap_err(), MatrixError::DimensionMismatch);
}

#[test]
fn round_robin_routing() {
    assert_eq!(worker_for(0, 4), 0);
    assert_eq!(worker_for(5, 4), 1);
    assert_eq!(worker_for(11, 4), 3);
    assert_eq!(worker_for(9, 1), 0);
}

#[test]
fn collect_writes_each_result_at_its_position() {
    let outs = vec![MsgOutput::new(2, 9), MsgOutput::new(0, -1), MsgOutput::new(2, 4)];
    let m = collect(2, 2, &outs);
    assert_eq!(*m.data(), vec![-1, 0, 4, 0]);
}

#[test]
fn overflow_is_detected_before_computing() {
    assert!(products_fit(&[1, 2, 3], &[4, 5, 6]));
    assert!(!products_fit(&[i64::MAX, 1], &[2, 1]));
    assert!(!products_fit(&[i64::MAX, 1], &[1, 1]));
    assert!(products_fit(&[i64::MAX, -1], &[1, 1]));
    assert!(products_fit(&[], &[]));
}
