use noise_analysis::analyze::{analyze, out_variance, out_variances, AnalyzedDag};
use noise_analysis::error::AnalysisError;
use noise_analysis::config::NoiseBoundConfig;
use noise_analysis::operator::{
    FunctionTable, LevelledComplexity, Operator, OperatorIndex, Shape, Weights,
};
use noise_analysis::partitions::{
    InstructionPartition, HIGH_PRECISION_PARTITION, LOW_PRECISION_PARTITION,
};
use noise_analysis::precision_cut::PrecisionCut;
use noise_analysis::symbolic_variance::SymbolicVariance;
use noise_analysis::unparametrized::OperationDag;

const CONFIG: NoiseBoundConfig = NoiseBoundConfig {
    security_level: 128,
    ciphertext_modulus_log: 64,
};

fn at(i: usize) -> OperatorIndex {
    OperatorIndex { i }
}

fn cast_of(i: usize) -> Operator {
    Operator::UnsafeCast {
        input: at(i),
        out_precision: 4,
    }
}

fn input_op() -> Operator {
    Operator::Input {
        out_precision: 4,
        out_shape: Shape::number(),
    }
}

fn lut_of(i: usize) -> Operator {
    Operator::Lut {
        input: at(i),
        table: FunctionTable::unknown(),
        out_precision: 4,
    }
}

fn levelled_of(inputs: Vec<usize>, manp: u64) -> Operator {
    Operator::LevelledOp {
        inputs: inputs.into_iter().map(at).collect(),
        complexity: LevelledComplexity::zero(),
        manp,
        out_shape: Shape::number(),
        comment: String::new(),
    }
}

fn dot_of(inputs: Vec<usize>, weights: Vec<i64>) -> Operator {
    Operator::Dot {
        inputs: inputs.into_iter().map(at).collect(),
        weights: Weights::vector(weights),
    }
}

fn numbers(n: usize) -> Vec<Shape> {
    (0..n).map(|_| Shape::number()).collect()
}

fn home(p: usize) -> InstructionPartition {
    InstructionPartition::new(p)
}

fn with_alternatives(p: usize, alternatives: Vec<usize>) -> InstructionPartition {
    InstructionPartition {
        instruction_partition: p,
        alternative_output_representation: alternatives,
    }
}

fn unit_rows(n: usize) -> Vec<Vec<SymbolicVariance>> {
    (0..n)
        .map(|_| vec![SymbolicVariance::input(1, 0)])
        .collect()
}

#[test]
fn input_row_has_fresh_noise_at_home_and_nothing_elsewhere() {
    let row = out_variance(&input_op(), &vec![], &vec![], 2, &home(1)).unwrap();
    assert_eq!(row.len(), 2);
    assert!(row[1].equals(&SymbolicVariance::input(2, 1)));
    assert!(row[0].equals(&SymbolicVariance::unset(2)));
}

#[test]
fn lut_row_discards_the_noise_of_its_operand() {
    let noisy = SymbolicVariance::input(2, 0).scaled(1000).unwrap();
    let rows = vec![vec![noisy, SymbolicVariance::unset(2)]];
    let row = out_variance(&lut_of(0), &numbers(1), &rows, 2, &home(0)).unwrap();
    assert!(row[0].equals(&SymbolicVariance::after_pbs(2, 0)));
    assert!(row[1].is_unset());
    // the operand is not even read: a lookup of the other partition works too
    let row = out_variance(&lut_of(0), &numbers(1), &rows, 2, &home(1)).unwrap();
    assert!(row[1].equals(&SymbolicVariance::after_pbs(2, 1)));
    assert!(row[0].is_unset());
}

#[test]
fn cast_row_forwards_the_variance_of_its_operand() {
    let v = SymbolicVariance::after_pbs(2, 1).scaled(3).unwrap();
    let rows = vec![vec![SymbolicVariance::unset(2), v.clone()]];
    let row = out_variance(&cast_of(0), &numbers(1), &rows, 2, &home(1)).unwrap();
    assert!(row[1].equals(&v));
    assert!(row[0].is_unset());
}

#[test]
fn levelled_row_takes_the_worst_operand_then_amplifies() {
    let a = SymbolicVariance::after_pbs(2, 0).scaled(3).unwrap();
    let b = SymbolicVariance::input(2, 0).scaled(5).unwrap();
    let c = SymbolicVariance::after_pbs(2, 0).scaled(2).unwrap();
    let unset = SymbolicVariance::unset(2);
    let rows = vec![
        vec![a, unset.clone()],
        vec![b, unset.clone()],
        vec![c, unset],
    ];
    let row = out_variance(&levelled_of(vec![0, 1, 2], 8), &numbers(3), &rows, 2, &home(0))
        .unwrap();
    // max(3, 2) * 64 on the bootstrap noise, 5 * 64 on the input noise
    assert_eq!(row[0].coeff_pbs(0), 192);
    assert_eq!(row[0].coeff_input(0), 320);
    assert_eq!(row[0].coeff_pbs(1), 0);
    assert_eq!(row[0].coeff_input(1), 0);
    assert_eq!(row[0].partition(), Some(0));
    assert!(row[1].is_unset());
}

#[test]
fn weighted_reduction_of_unit_operands_is_the_sum_of_squares() {
    let weights = vec![1, -2, 3, -4];
    let op = dot_of(vec![0, 1, 2, 3], weights);
    let row = out_variance(&op, &numbers(4), &unit_rows(4), 1, &home(0)).unwrap();
    assert_eq!(row[0].coeff_input(0), 1 + 4 + 9 + 16);
    assert_eq!(row[0].coeff_pbs(0), 0);
    assert_eq!(row[0].coeff_partition_keyswitch_to_big(0, 0), 0);
}

#[test]
fn weighted_reduction_of_one_tensor_shares_the_operand() {
    let op = dot_of(vec![0], vec![1, -2, 3]);
    let rows = vec![vec![SymbolicVariance::after_pbs(1, 0)]];
    let row = out_variance(&op, &vec![Shape::vector(3)], &rows, 1, &home(0)).unwrap();
    assert_eq!(row[0].coeff_pbs(0), 14);
    // each row of a matrix reduced with the same weights
    let matrix = vec![Shape {
        dimensions_size: vec![2, 3],
    }];
    let row = out_variance(&op, &matrix, &rows, 1, &home(0)).unwrap();
    assert_eq!(row[0].coeff_pbs(0), 14);
}

#[test]
fn weighted_reduction_sums_different_operands() {
    let a = SymbolicVariance::after_pbs(2, 1)
        .after_partition_keyswitch_to_big(1, 0)
        .unwrap();
    let b = SymbolicVariance::after_pbs(2, 0);
    let unset = SymbolicVariance::unset(2);
    let rows = vec![vec![a, unset.clone()], vec![b, unset]];
    let row = out_variance(&dot_of(vec![0, 1], vec![3, -1]), &numbers(2), &rows, 2, &home(0))
        .unwrap();
    assert_eq!(row[0].coeff_pbs(1), 9);
    assert_eq!(row[0].coeff_partition_keyswitch_to_big(1, 0), 9);
    assert_eq!(row[0].coeff_pbs(0), 1);
    assert_eq!(row[0].partition(), Some(0));
}

#[test]
fn weighted_reduction_with_the_smallest_weight() {
    let op = dot_of(vec![0], vec![i64::MIN]);
    let row = out_variance(&op, &vec![Shape::vector(1)], &unit_rows(1), 1, &home(0)).unwrap();
    assert_eq!(row[0].coeff_input(0), 1u128 << 126);
    let op = dot_of(vec![0], vec![i64::MIN, i64::MIN, i64::MIN]);
    let row = out_variance(&op, &vec![Shape::vector(3)], &unit_rows(1), 1, &home(0)).unwrap();
    assert_eq!(row[0].coeff_input(0), 3u128 << 126);
    let op = dot_of(vec![0], vec![i64::MIN; 4]);
    assert_eq!(
        out_variance(&op, &vec![Shape::vector(4)], &unit_rows(1), 1, &home(0)),
        Err(AnalysisError::Overflow { operator: 1 })
    );
}

#[test]
fn weighted_reduction_without_weight_is_null() {
    let op = dot_of(vec![0], vec![]);
    let row = out_variance(&op, &vec![Shape::vector(0)], &unit_rows(1), 1, &home(0)).unwrap();
    assert!(row[0].equals(&SymbolicVariance::null_of(1, 0)));
    let op = dot_of(vec![0], vec![0, 0]);
    let row = out_variance(&op, &vec![Shape::vector(2)], &unit_rows(1), 1, &home(0)).unwrap();
    assert!(row[0].equals(&SymbolicVariance::null_of(1, 0)));
}

#[test]
fn alternative_columns_hold_the_converted_variance() {
    let rows = vec![vec![
        SymbolicVariance::unset(3),
        SymbolicVariance::after_pbs(3, 1).scaled(7).unwrap(),
        SymbolicVariance::unset(3),
    ]];
    let part = with_alternatives(1, vec![2]);
    let row = out_variance(&cast_of(0), &numbers(1), &rows, 3, &part).unwrap();
    assert_eq!(row.len(), 3);
    assert!(row[0].is_unset());
    assert!(row[1].equals(&rows[0][1]));
    assert_eq!(row[1].coeff_partition_keyswitch_to_big(1, 2), 0);
    assert_eq!(row[2].partition(), Some(2));
    assert_eq!(row[2].coeff_partition_keyswitch_to_big(1, 2), 1);
    for p in 0..3 {
        assert_eq!(row[2].coeff_pbs(p), row[1].coeff_pbs(p));
        assert_eq!(row[2].coeff_input(p), row[1].coeff_input(p));
    }
    assert!(row[2].equals(&rows[0][1].after_partition_keyswitch_to_big(1, 2).unwrap()));
}

#[test]
fn home_column_is_never_shadowed_by_an_alternative() {
    let part = with_alternatives(0, vec![0, 1, 0]);
    let row = out_variance(&input_op(), &vec![], &vec![], 2, &part).unwrap();
    assert!(row[0].equals(&SymbolicVariance::input(2, 0)));
    assert_eq!(row[0].coeff_partition_keyswitch_to_big(0, 0), 0);
    assert!(row[1].equals(
        &SymbolicVariance::input(2, 0)
            .after_partition_keyswitch_to_big(0, 1)
            .unwrap()
    ));
}

#[test]
fn conversion_coefficient_grows_where_the_home_variance_has_it_already() {
    // a value that went from 0 to 1 and back is converted to 1 once more
    let travelled = SymbolicVariance::after_pbs(2, 0)
        .after_partition_keyswitch_to_big(0, 1)
        .unwrap()
        .after_partition_keyswitch_to_big(1, 0)
        .unwrap();
    let rows = vec![vec![travelled, SymbolicVariance::unset(2)]];
    let part = with_alternatives(0, vec![1]);
    let row = out_variance(&cast_of(0), &numbers(1), &rows, 2, &part).unwrap();
    assert_eq!(row[0].coeff_partition_keyswitch_to_big(0, 1), 1);
    assert_eq!(row[1].coeff_partition_keyswitch_to_big(0, 1), 2);
    assert_eq!(row[1].coeff_partition_keyswitch_to_big(1, 0), 1);
}

#[test]
fn fault_partition_out_of_range() {
    assert_eq!(
        out_variance(&input_op(), &vec![], &vec![], 2, &home(2)),
        Err(AnalysisError::PartitionOutOfRange {
            operator: 0,
            partition: 2
        })
    );
    assert_eq!(
        out_variance(&input_op(), &vec![], &vec![], 0, &home(0)),
        Err(AnalysisError::PartitionOutOfRange {
            operator: 0,
            partition: 0
        })
    );
}

#[test]
fn fault_alternative_out_of_range() {
    let part = with_alternatives(0, vec![1, 2]);
    assert_eq!(
        out_variance(&input_op(), &vec![], &unit_rows(3), 2, &part),
        Err(AnalysisError::AlternativeOutOfRange { operator: 3 })
    );
}

#[test]
fn fault_round_not_expanded() {
    let op = Operator::Round {
        input: at(0),
        out_precision: 2,
    };
    assert_eq!(
        out_variance(&op, &numbers(1), &unit_rows(1), 1, &home(0)),
        Err(AnalysisError::RoundNotExpanded { operator: 1 })
    );
}

#[test]
fn fault_missing_input() {
    assert_eq!(
        out_variance(&levelled_of(vec![], 2), &numbers(1), &unit_rows(1), 1, &home(0)),
        Err(AnalysisError::MissingInput { operator: 1 })
    );
    assert_eq!(
        out_variance(&dot_of(vec![], vec![]), &numbers(1), &unit_rows(1), 1, &home(0)),
        Err(AnalysisError::MissingInput { operator: 1 })
    );
    // two operands, a shape for two weights, and three weights
    let op = Operator::Dot {
        inputs: vec![at(0), at(1)],
        weights: Weights {
            shape: Shape::vector(2),
            values: vec![1, 2, 3],
        },
    };
    assert_eq!(
        out_variance(&op, &numbers(2), &unit_rows(2), 1, &home(0)),
        Err(AnalysisError::MissingInput { operator: 2 })
    );
}

#[test]
fn fault_not_implemented_dot() {
    let op = Operator::Dot {
        inputs: vec![at(0), at(1)],
        weights: Weights {
            shape: Shape {
                dimensions_size: vec![2, 3],
            },
            values: vec![1; 6],
        },
    };
    let shapes = vec![Shape::vector(3), Shape::vector(3)];
    assert_eq!(
        out_variance(&op, &shapes, &unit_rows(2), 1, &home(0)),
        Err(AnalysisError::NotImplementedDot { operator: 2 })
    );
}

#[test]
fn fault_unsupported_dot() {
    let op = dot_of(vec![0, 1], vec![1, 2, 3]);
    assert_eq!(
        out_variance(&op, &numbers(2), &unit_rows(2), 1, &home(0)),
        Err(AnalysisError::UnsupportedDot { operator: 2 })
    );
}

#[test]
fn fault_operator_out_of_range() {
    assert_eq!(
        out_variance(&cast_of(1), &numbers(1), &unit_rows(1), 1, &home(0)),
        Err(AnalysisError::OperatorOutOfRange {
            operator: 1,
            input: 1
        })
    );
    // the shape of the first operand of a reduction is not known
    assert_eq!(
        out_variance(&dot_of(vec![0], vec![1]), &vec![], &unit_rows(1), 1, &home(0)),
        Err(AnalysisError::OperatorOutOfRange {
            operator: 1,
            input: 0
        })
    );
    // a later operand that does not come before the operator
    assert_eq!(
        out_variance(&dot_of(vec![0, 5], vec![1, 1]), &numbers(1), &unit_rows(1), 1, &home(0)),
        Err(AnalysisError::OperatorOutOfRange {
            operator: 1,
            input: 5
        })
    );
}

#[test]
fn fault_column_out_of_range() {
    let rows = vec![vec![SymbolicVariance::input(2, 0)]];
    assert_eq!(
        out_variance(&cast_of(0), &numbers(1), &rows, 2, &home(1)),
        Err(AnalysisError::ColumnOutOfRange {
            operator: 1,
            input: 0,
            partition: 1
        })
    );
}

#[test]
fn fault_zero_variance() {
    let rows = vec![unit_rows(1).remove(0), vec![SymbolicVariance::zero()]];
    assert_eq!(
        out_variance(&cast_of(1), &numbers(2), &rows, 1, &home(0)),
        Err(AnalysisError::ZeroVariance {
            operator: 2,
            input: 1
        })
    );
}

#[test]
fn fault_invalid_variance() {
    let rows = vec![vec![SymbolicVariance::input(3, 0)]];
    assert_eq!(
        out_variance(&cast_of(0), &numbers(1), &rows, 2, &home(0)),
        Err(AnalysisError::InvalidVariance {
            operator: 1,
            input: 0
        })
    );
}

#[test]
fn fault_unset_variance() {
    let rows = vec![vec![SymbolicVariance::input(2, 0), SymbolicVariance::unset(2)]];
    assert_eq!(
        out_variance(&cast_of(0), &numbers(1), &rows, 2, &home(1)),
        Err(AnalysisError::UnsetVariance {
            operator: 1,
            input: 0,
            partition: 1
        })
    );
    assert!(out_variance(&cast_of(0), &numbers(1), &rows, 2, &home(0)).is_ok());
}

#[test]
fn fault_partition_mismatch() {
    let rows = vec![vec![
        SymbolicVariance::input(2, 0),
        SymbolicVariance::input(2, 0),
    ]];
    assert_eq!(
        out_variance(&cast_of(0), &numbers(1), &rows, 2, &home(1)),
        Err(AnalysisError::PartitionMismatch {
            operator: 1,
            input: 0,
            expected: 1,
            observed: 0
        })
    );
}

#[test]
fn fault_overflow() {
    let big = SymbolicVariance::input(1, 0).scaled(u128::MAX).unwrap();
    let rows = vec![vec![big]];
    assert_eq!(
        out_variance(&levelled_of(vec![0], 2), &numbers(1), &rows, 1, &home(0)),
        Err(AnalysisError::Overflow { operator: 1 })
    );
    assert!(out_variance(&levelled_of(vec![0], 1), &numbers(1), &rows, 1, &home(0)).is_ok());
    assert_eq!(
        out_variance(&dot_of(vec![0, 0], vec![1, 1]), &numbers(1), &rows, 1, &home(0)),
        Err(AnalysisError::Overflow { operator: 1 })
    );
    // the conversion to another partition overflows
    let saturated = SymbolicVariance::after_pbs(2, 0)
        .after_partition_keyswitch_to_big(0, 1)
        .unwrap()
        .after_partition_keyswitch_to_big(1, 0)
        .unwrap()
        .scaled(u128::MAX)
        .unwrap();
    let rows = vec![vec![saturated, SymbolicVariance::unset(2)]];
    assert_eq!(
        out_variance(&cast_of(0), &numbers(1), &rows, 2, &with_alternatives(0, vec![1])),
        Err(AnalysisError::Overflow { operator: 1 })
    );
    assert!(out_variance(&cast_of(0), &numbers(1), &rows, 2, &home(0)).is_ok());
}

#[test]
fn the_first_read_that_fails_is_reported() {
    let rows = vec![
        vec![SymbolicVariance::input(2, 0), SymbolicVariance::unset(2)],
        vec![SymbolicVariance::zero(), SymbolicVariance::zero()],
    ];
    let expected_zero = Err(AnalysisError::ZeroVariance {
        operator: 2,
        input: 1,
    });
    let expected_unset = Err(AnalysisError::UnsetVariance {
        operator: 2,
        input: 0,
        partition: 1,
    });
    assert_eq!(
        out_variance(&levelled_of(vec![1, 0], 1), &numbers(2), &rows, 2, &home(1)),
        expected_zero
    );
    assert_eq!(
        out_variance(&levelled_of(vec![0, 1], 1), &numbers(2), &rows, 2, &home(1)),
        expected_unset
    );
    assert_eq!(
        out_variance(&dot_of(vec![0, 1], vec![1, 1]), &numbers(2), &rows, 2, &home(1)),
        expected_unset
    );
    // a read that fails comes before an overflow of what was read
    let big = SymbolicVariance::input(2, 1).scaled(u128::MAX).unwrap();
    let rows = vec![
        vec![SymbolicVariance::unset(2), big],
        vec![SymbolicVariance::input(2, 0), SymbolicVariance::unset(2)],
    ];
    assert_eq!(
        out_variance(&dot_of(vec![0, 1], vec![2, 1]), &numbers(2), &rows, 2, &home(1)),
        Err(AnalysisError::UnsetVariance {
            operator: 2,
            input: 1,
            partition: 1
        })
    );
}

#[test]
fn out_variances_needs_a_partition_for_every_operator() {
    let mut dag = OperationDag::new();
    let a = dag.add_input(4, Shape::number());
    let _b = dag.add_lut(a, FunctionTable::unknown(), 4);
    assert_eq!(
        out_variances(&dag, 1, &[home(0)]),
        Err(AnalysisError::InconsistentAssignment {
            nb_operators: 2,
            nb_assigned: 1
        })
    );
    assert_eq!(
        out_variances(&dag, 1, &[home(0), home(0), home(0)]),
        Err(AnalysisError::InconsistentAssignment {
            nb_operators: 2,
            nb_assigned: 3
        })
    );
    assert_eq!(out_variances(&OperationDag::new(), 1, &[]), Ok(vec![]));
}

#[test]
fn out_variances_fills_one_row_per_operator() {
    let mut dag = OperationDag::new();
    let a = dag.add_input(4, Shape::number());
    let b = dag.add_lut(a, FunctionTable::unknown(), 4);
    let c = dag.add_dot(vec![a, b], Weights::vector(vec![2, 3]));
    let _d = dag.add_levelled_op(vec![c, b], LevelledComplexity::zero(), 2, &Shape::number(), "");
    let parts = [
        with_alternatives(0, vec![]),
        with_alternatives(1, vec![0]),
        home(0),
        home(0),
    ];
    let rows = out_variances(&dag, 2, &parts).unwrap();
    assert_eq!(rows.len(), 4);
    assert!(rows.iter().all(|row| row.len() == 2));
    assert!(rows[0][0].equals(&SymbolicVariance::input(2, 0)));
    assert!(rows[0][1].is_unset());
    assert!(rows[1][1].equals(&SymbolicVariance::after_pbs(2, 1)));
    assert_eq!(rows[1][0].coeff_partition_keyswitch_to_big(1, 0), 1);
    assert_eq!(rows[1][0].coeff_pbs(1), 1);
    // 4 * input + 9 * (bootstrap of 1, converted)
    assert_eq!(rows[2][0].coeff_input(0), 4);
    assert_eq!(rows[2][0].coeff_pbs(1), 9);
    assert_eq!(rows[2][0].coeff_partition_keyswitch_to_big(1, 0), 9);
    assert!(rows[2][1].is_unset());
    // the worst of the two operands, times 4
    assert_eq!(rows[3][0].coeff_input(0), 16);
    assert_eq!(rows[3][0].coeff_pbs(1), 36);
    assert_eq!(rows[3][0].coeff_partition_keyswitch_to_big(1, 0), 36);
    assert!(rows[3][1].is_unset());
}

#[test]
fn out_variances_stops_at_the_first_fault() {
    let mut dag = OperationDag::new();
    let a = dag.add_input(4, Shape::number());
    let b = dag.add_lut(a, FunctionTable::unknown(), 4);
    let _c = dag.add_unsafe_cast(b, 4);
    // the lookup is of partition 1, and its result is read in partition 0
    assert_eq!(
        out_variances(&dag, 2, &[home(0), home(1), home(0)]),
        Err(AnalysisError::UnsetVariance {
            operator: 2,
            input: 1,
            partition: 0
        })
    );
    assert_eq!(
        out_variances(&dag, 2, &[home(0), home(3), home(5)]),
        Err(AnalysisError::PartitionOutOfRange {
            operator: 1,
            partition: 3
        })
    );
}

fn two_layers() -> OperationDag {
    let mut dag = OperationDag::new();
    let free_input = dag.add_input(8, Shape::number());
    let lut = dag.add_lut(free_input, FunctionTable::unknown(), 16);
    let rounded = dag.add_round_op(lut, 12);
    let _out = dag.add_lut(rounded, FunctionTable::unknown(), 16);
    dag
}

fn analyze_two_layers(default_partition: usize) -> AnalyzedDag {
    let p_cut = PrecisionCut { p_cut: vec![2] };
    analyze(&two_layers(), &CONFIG, &p_cut, default_partition).unwrap()
}

#[test]
fn every_home_column_is_computed_and_every_other_column_is_unset() {
    for default in [LOW_PRECISION_PARTITION, HIGH_PRECISION_PARTITION] {
        let dag = analyze_two_layers(default);
        assert_eq!(dag.nb_partitions, 2);
        assert_eq!(dag.operators.len(), 2 + 4 * 5 + 1);
        assert_eq!(dag.out_variances.len(), dag.operators.len());
        assert_eq!(dag.instrs_partition.len(), dag.operators.len());
        assert_eq!(dag.levelled_complexity, LevelledComplexity::zero());
        assert!(dag
            .operators
            .iter()
            .all(|op| !matches!(op, Operator::Round { .. })));
        for (op_i, row) in dag.out_variances.iter().enumerate() {
            assert_eq!(row.len(), dag.nb_partitions);
            let p = &dag.instrs_partition[op_i];
            let h = p.instruction_partition;
            assert!(!row[h].is_unset());
            assert!(!row[h].is_zero());
            assert_eq!(row[h].partition(), Some(h));
            assert_eq!(row[h].nb_partitions(), 2);
            for q in 0..dag.nb_partitions {
                if q == h {
                    continue;
                }
                if p.has_alternative(q) {
                    let converted = row[h].after_partition_keyswitch_to_big(h, q).unwrap();
                    assert!(row[q].equals(&converted));
                } else {
                    assert!(row[q].equals(&SymbolicVariance::unset(2)));
                }
            }
        }
    }
}

#[test]
fn a_bootstrapped_value_is_converted_with_one_unit_of_conversion_noise() {
    let dag = analyze_two_layers(LOW_PRECISION_PARTITION);
    let a = HIGH_PRECISION_PARTITION;
    let b = LOW_PRECISION_PARTITION;
    assert_eq!(dag.instrs_partition[1].instruction_partition, a);
    assert!(dag.instrs_partition[1].has_alternative(b));
    let row = &dag.out_variances[1];
    assert_eq!(row[a].coeff_partition_keyswitch_to_big(a, b), 0);
    assert_eq!(row[b].coeff_partition_keyswitch_to_big(a, b), 1);
    for p in [a, b] {
        assert_eq!(row[b].coeff_pbs(p), row[a].coeff_pbs(p));
        assert_eq!(row[b].coeff_input(p), row[a].coeff_input(p));
    }
    assert_eq!(row[a].coeff_pbs(a), 1);
}

#[test]
fn with_the_high_partition_preferred_the_inner_lookups_are_converted() {
    let dag = analyze_two_layers(HIGH_PRECISION_PARTITION);
    let high = HIGH_PRECISION_PARTITION;
    let low = LOW_PRECISION_PARTITION;
    // the first lookup stays in its block, of the high partition
    assert_eq!(dag.instrs_partition[1].instruction_partition, high);
    assert!(dag.instrs_partition[1].alternative_output_representation.is_empty());
    // the lookup that reads the lowest bit is of the low partition, and its
    // result is used in the high one
    assert_eq!(dag.instrs_partition[4].instruction_partition, low);
    assert_eq!(dag.instrs_partition[4].alternative_output_representation, vec![high]);
    let row = &dag.out_variances[4];
    assert_eq!(row[low].coeff_pbs(low), 1);
    assert_eq!(row[high].coeff_pbs(low), 1);
    assert_eq!(row[high].coeff_partition_keyswitch_to_big(low, high), 1);
    assert_eq!(row[low].coeff_partition_keyswitch_to_big(low, high), 0);
    // the bit is cleared in the high partition: 1 * lookup + 1 * converted bit
    let cleared = &dag.out_variances[5][high];
    assert_eq!(cleared.coeff_pbs(high), 1);
    assert_eq!(cleared.coeff_pbs(low), 1);
    assert_eq!(cleared.coeff_partition_keyswitch_to_big(low, high), 1);
}

#[test]
fn analysis_is_deterministic() {
    let first = analyze_two_layers(LOW_PRECISION_PARTITION);
    let second = analyze_two_layers(LOW_PRECISION_PARTITION);
    assert_eq!(first.out_variances, second.out_variances);
    assert_eq!(first, second);
    let mut dag = two_layers();
    let a = dag.add_input(3, Shape::number());
    let _bad = dag.add_levelled_op(vec![a], LevelledComplexity::zero(), u64::MAX, &Shape::number(), "");
    let last = dag.len() - 1;
    let _worse = dag.add_levelled_op(vec![at(last)], LevelledComplexity::zero(), 2, &Shape::number(), "");
    let p_cut = PrecisionCut { p_cut: vec![2] };
    let first = analyze(&dag, &CONFIG, &p_cut, 0);
    let second = analyze(&dag, &CONFIG, &p_cut, 0);
    assert_eq!(first, second);
    // (2^64 - 1)^2 fits in 128 bits, four times as much does not
    assert_eq!(first, Err(AnalysisError::Overflow { operator: 25 }));
}

#[test]
fn analysis_rejects_more_than_one_cut() {
    let p_cut = PrecisionCut { p_cut: vec![2, 4] };
    assert_eq!(
        analyze(&two_layers(), &CONFIG, &p_cut, 0),
        Err(AnalysisError::TooManyPrecisionCuts { nb_cuts: 2 })
    );
    // and says so before it looks at the circuit
    let mut bad = OperationDag::new();
    let input = bad.add_input(4, Shape::number());
    let _round = bad.add_round_op(input, 9);
    assert_eq!(
        analyze(&bad, &CONFIG, &p_cut, 0),
        Err(AnalysisError::TooManyPrecisionCuts { nb_cuts: 2 })
    );
    assert_eq!(
        analyze(&bad, &CONFIG, &PrecisionCut { p_cut: vec![2] }, 0),
        Err(AnalysisError::InvalidRound { operator: 1 })
    );
}

#[test]
fn analysis_without_cut_has_one_partition() {
    let p_cut = PrecisionCut { p_cut: vec![] };
    let dag = analyze(&two_layers(), &CONFIG, &p_cut, HIGH_PRECISION_PARTITION).unwrap();
    assert_eq!(dag.nb_partitions, 1);
    for (op_i, row) in dag.out_variances.iter().enumerate() {
        assert_eq!(row.len(), 1);
        assert_eq!(dag.instrs_partition[op_i].instruction_partition, 0);
        assert_eq!(row[0].partition(), Some(0));
        assert_eq!(row[0].coeff_partition_keyswitch_to_big(0, 0), 0);
    }
    assert!(dag.out_variances[0][0].equals(&SymbolicVariance::input(1, 0)));
    assert!(dag.out_variances[1][0].equals(&SymbolicVariance::after_pbs(1, 0)));
}

#[test]
fn analysis_reports_a_preferred_partition_that_does_not_exist() {
    let mut dag = two_layers();
    let _free = dag.add_input(3, Shape::number());
    let p_cut = PrecisionCut { p_cut: vec![2] };
    assert_eq!(
        analyze(&dag, &CONFIG, &p_cut, 7),
        Err(AnalysisError::PartitionOutOfRange {
            operator: 23,
            partition: 7
        })
    );
    assert!(analyze(&dag, &CONFIG, &p_cut, 1).is_ok());
}

#[test]
fn analysis_reports_faults_of_the_circuit() {
    let p_cut = PrecisionCut { p_cut: vec![2] };
    let mut dag = OperationDag::new();
    let a = dag.add_input(4, Shape::vector(3));
    let b = dag.add_input(4, Shape::vector(3));
    let _dot = dag.add_dot(
        vec![a, b],
        Weights {
            shape: Shape {
                dimensions_size: vec![2, 3],
            },
            values: vec![1; 6],
        },
    );
    assert_eq!(
        analyze(&dag, &CONFIG, &p_cut, 0),
        Err(AnalysisError::NotImplementedDot { operator: 2 })
    );
    let mut dag = OperationDag::new();
    let a = dag.add_input(4, Shape::vector(3));
    let _dot = dag.add_dot(vec![a], Weights::vector(vec![1, 2]));
    assert_eq!(
        analyze(&dag, &CONFIG, &p_cut, 0),
        Err(AnalysisError::UnsupportedDot { operator: 1 })
    );
}

#[test]
fn analysis_of_an_empty_circuit_is_empty() {
    let p_cut = PrecisionCut { p_cut: vec![2] };
    let dag = analyze(&OperationDag::new(), &CONFIG, &p_cut, 0).unwrap();
    assert_eq!(dag.nb_partitions, 1);
    assert!(dag.operators.is_empty());
    assert!(dag.instrs_partition.is_empty());
    assert!(dag.out_variances.is_empty());
}
