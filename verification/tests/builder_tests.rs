use zkmatmul::builder::build;
use zkmatmul::cs::{ConstraintError, ConstraintSystem, LinComb, Term, VarKind};
use zkmatmul::field::{encode, fe_from_u64, fe_zero};
use zkmatmul::matrix::Matrix;

#[test]
fn scenario_true_product_is_satisfied() {
    // X is 5x4 of -1, W is 4x3 of 2, Y is 5x3 of -8: 4 * (-1 * 2) = -8.
    let x = Matrix::from_i64(&vec![vec![-1; 4]; 5]);
    let w = Matrix::from_i64(&vec![vec![2; 3]; 4]);
    let y = Matrix::from_i64(&vec![vec![-8; 3]; 5]);
    let mut cs = ConstraintSystem::new();
    assert!(build(&mut cs, &x, &w, &y).is_ok());
    // 20 public X vars, 12 private W vars, 15 groups of accumulator + output.
    assert_eq!(cs.vars.len(), 20 + 12 + 2 * 15);
    assert_eq!(cs.constraints.len(), 15);
    assert!(cs.check_satisfied().is_ok());
}

#[test]
fn scenario_altered_output_is_unsatisfied() {
    let x = Matrix::from_i64(&vec![vec![-1; 4]; 5]);
    let w = Matrix::from_i64(&vec![vec![2; 3]; 4]);
    let mut rows = vec![vec![-8i64; 3]; 5];
    rows[2][1] = -7;
    let y = Matrix::from_i64(&rows);
    let mut cs = ConstraintSystem::new();
    assert!(build(&mut cs, &x, &w, &y).is_ok());
    assert_eq!(cs.check_satisfied(), Err(ConstraintError::StatementMismatch));
}

#[test]
fn incompatible_inner_dimension_is_rejected_before_allocation() {
    // X is 5x4, W is 3x3: incompatible inner dimension.
    let x = Matrix::from_i64(&vec![vec![-1; 4]; 5]);
    let w = Matrix::from_i64(&vec![vec![2; 3]; 3]);
    let y = Matrix::from_i64(&vec![vec![-8; 3]; 5]);
    let mut cs = ConstraintSystem::new();
    assert_eq!(build(&mut cs, &x, &w, &y), Err(ConstraintError::DimensionMismatch));
    assert_eq!(cs.vars.len(), 0);
    assert_eq!(cs.constraints.len(), 0);
}

#[test]
fn empty_matrix_is_rejected() {
    let no_rows: Vec<Vec<i64>> = vec![];
    let empty = Matrix::from_i64(&no_rows);
    let w = Matrix::from_i64(&vec![vec![2; 3]; 4]);
    let y = Matrix::from_i64(&vec![vec![-8; 3]; 5]);
    let mut cs = ConstraintSystem::new();
    assert_eq!(build(&mut cs, &empty, &w, &y), Err(ConstraintError::DimensionMismatch));
    assert_eq!(cs.vars.len(), 0);
}

#[test]
fn ragged_matrix_is_rejected() {
    let x = Matrix::from_i64(&vec![vec![1, 2], vec![3]]);
    let w = Matrix::from_i64(&vec![vec![1], vec![1]]);
    let y = Matrix::from_i64(&vec![vec![1], vec![1]]);
    let mut cs = ConstraintSystem::new();
    assert_eq!(build(&mut cs, &x, &w, &y), Err(ConstraintError::DimensionMismatch));
    assert_eq!(cs.vars.len(), 0);
}

#[test]
fn wrong_output_shape_is_rejected() {
    let x = Matrix::from_i64(&vec![vec![1, 2]]);
    let w = Matrix::from_i64(&vec![vec![1, 1], vec![1, 1]]);
    let y = Matrix::from_i64(&vec![vec![3, 3, 3]]);
    let mut cs = ConstraintSystem::new();
    assert_eq!(build(&mut cs, &x, &w, &y), Err(ConstraintError::DimensionMismatch));
}

#[test]
fn statement_is_x_row_major_then_y_column_major() {
    // X = [[1], [2]] (2x1), W = [[3, 4]] (1x2), Y = X * W = [[3, 4], [6, 8]].
    let x = Matrix::from_i64(&vec![vec![1], vec![2]]);
    let w = Matrix::from_i64(&vec![vec![3, 4]]);
    let y = Matrix::from_i64(&vec![vec![3, 4], vec![6, 8]]);
    let mut cs = ConstraintSystem::new();
    assert!(build(&mut cs, &x, &w, &y).is_ok());
    assert!(cs.check_satisfied().is_ok());
    let st = cs.public_inputs();
    // X entries row-major, then Y entries column-major.
    let expected = [1i64, 2, 3, 6, 4, 8];
    assert_eq!(st.len(), expected.len());
    for (got, want) in st.iter().zip(expected.iter()) {
        assert_eq!(*got, encode(*want));
    }
}

#[test]
fn variable_kinds_follow_the_allocation_plan() {
    let x = Matrix::from_i64(&vec![vec![1], vec![2]]);
    let w = Matrix::from_i64(&vec![vec![3, 4]]);
    let y = Matrix::from_i64(&vec![vec![3, 4], vec![6, 8]]);
    let mut cs = ConstraintSystem::new();
    assert!(build(&mut cs, &x, &w, &y).is_ok());
    // 2 public X vars, 2 private W vars, then 4 accumulator/output pairs.
    assert_eq!(cs.vars.len(), 2 + 2 + 2 * 4);
    for p in 0..2 {
        assert_eq!(cs.vars[p].kind, VarKind::Public);
    }
    for p in 2..4 {
        assert_eq!(cs.vars[p].kind, VarKind::Private);
    }
    for c in 0..4 {
        assert_eq!(cs.vars[4 + 2 * c].kind, VarKind::Private);
        assert_eq!(cs.vars[4 + 2 * c].value, fe_zero());
        assert_eq!(cs.vars[4 + 2 * c + 1].kind, VarKind::Public);
    }
}

#[test]
fn hand_built_equality_constraint_is_evaluated() {
    let mut cs = ConstraintSystem::new();
    let z = cs.alloc_var(VarKind::Private, fe_zero()).unwrap();
    let out = cs.alloc_var(VarKind::Public, encode(3)).unwrap();
    assert_eq!(z, 0);
    assert_eq!(out, 1);
    let one = fe_from_u64(1);
    let lhs = LinComb { constant: encode(3), terms: vec![Term { coeff: one, var: z }] };
    let rhs = LinComb { constant: fe_zero(), terms: vec![Term { coeff: one, var: out }] };
    assert!(cs.enforce_equal(lhs, rhs).is_ok());
    assert!(cs.check_satisfied().is_ok());

    let mut cs2 = ConstraintSystem::new();
    let z2 = cs2.alloc_var(VarKind::Private, fe_zero()).unwrap();
    let out2 = cs2.alloc_var(VarKind::Public, encode(4)).unwrap();
    let lhs2 = LinComb { constant: encode(3), terms: vec![Term { coeff: one, var: z2 }] };
    let rhs2 = LinComb { constant: fe_zero(), terms: vec![Term { coeff: one, var: out2 }] };
    assert!(cs2.enforce_equal(lhs2, rhs2).is_ok());
    assert_eq!(cs2.check_satisfied(), Err(ConstraintError::StatementMismatch));
}

#[test]
fn negative_entries_multiply_correctly() {
    // 1x1 case: (-1) * 2 = -2, and an altered output is caught.
    let x = Matrix::from_i64(&vec![vec![-1]]);
    let w = Matrix::from_i64(&vec![vec![2]]);
    let good = Matrix::from_i64(&vec![vec![-2]]);
    let bad = Matrix::from_i64(&vec![vec![2]]);
    let mut cs = ConstraintSystem::new();
    assert!(build(&mut cs, &x, &w, &good).is_ok());
    assert!(cs.check_satisfied().is_ok());
    let mut cs2 = ConstraintSystem::new();
    assert!(build(&mut cs2, &x, &w, &bad).is_ok());
    assert!(cs2.check_satisfied().is_err());
}
