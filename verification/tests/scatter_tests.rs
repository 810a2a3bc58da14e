use flight_dispatcher::scatter::{eval_scatter, scatter_partition, ScatterExpr};

#[test]
fn test_eval_scatter_literal_is_constant() {
    let rows = vec![4, 9, 0];
    let vals = eval_scatter(&ScatterExpr::Literal(2), &rows);
    assert_eq!(vals, vec![2, 2, 2]);
}

#[test]
fn test_eval_scatter_column_is_row_value() {
    let rows = vec![4, 9, 0];
    let vals = eval_scatter(&ScatterExpr::Column("number".to_string()), &rows);
    assert_eq!(vals, vec![4, 9, 0]);
}

#[test]
fn test_partition_by_value_mod_n_keeps_source_order() {
    let rows = vec![5, 3, 8, 1];
    let routing = vec![5, 3, 8, 1];
    let parts = scatter_partition(&rows, &routing, 3);
    assert_eq!(parts.len(), 3);
    assert_eq!(parts[0], vec![3]);
    assert_eq!(parts[1], vec![1]);
    assert_eq!(parts[2], vec![5, 8]);
    // no loss, no duplication across the union
    let total: usize = parts.iter().map(|p| p.len()).sum();
    assert_eq!(total, rows.len());
}

#[test]
fn test_partition_single_destination_is_identity() {
    let rows = vec![7, 7, 2, 0];
    let routing = vec![1, 99, 3, 4];
    let parts = scatter_partition(&rows, &routing, 1);
    assert_eq!(parts, vec![vec![7, 7, 2, 0]]);
}

#[test]
fn test_partition_empty_batch_gives_empty_groups() {
    let parts = scatter_partition(&Vec::new(), &Vec::new(), 2);
    assert_eq!(parts, vec![Vec::<u64>::new(), Vec::<u64>::new()]);
}
