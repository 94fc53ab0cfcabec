use noise_analysis::error::AnalysisError;
use noise_analysis::operator::{
    dot_kind, DotKind, FunctionTable, LevelledComplexity, Operator, OperatorIndex, Shape, Weights,
};
use noise_analysis::partitionning::partitionning_with_preferred;
use noise_analysis::partitions::{
    InstructionPartition, HIGH_PRECISION_PARTITION, LOW_PRECISION_PARTITION,
};
use noise_analysis::precision_cut::PrecisionCut;
use noise_analysis::round::expand_round;
use noise_analysis::unparametrized::OperationDag;

fn tensor(dimensions_size: Vec<u64>) -> Shape {
    Shape { dimensions_size }
}

fn weights_of(shape: Vec<u64>, values: Vec<i64>) -> Weights {
    Weights {
        shape: tensor(shape),
        values,
    }
}

#[test]
fn shapes_are_built_and_compared_by_their_dimensions() {
    assert!(Shape::number().is_number());
    assert_eq!(Shape::number().rank(), 0);
    assert!(Shape::vector(3).is_vector());
    assert_eq!(Shape::vector(3).first_dim_size(), 3);
    assert!(Shape::vector(3).equals(&tensor(vec![3])));
    assert!(!Shape::vector(3).equals(&Shape::vector(4)));
    assert!(!Shape::vector(3).equals(&Shape::number()));
    assert!(Shape::duplicated(2, &Shape::vector(3)).equals(&tensor(vec![2, 3])));
    assert!(Shape::duplicated(2, &Shape::number()).equals(&Shape::vector(2)));
    assert!(tensor(vec![2, 3]).erase_first_dim().equals(&Shape::vector(3)));
    assert!(Shape::vector(3).erase_first_dim().equals(&Shape::number()));
    assert!(tensor(vec![2, 3]).clone().equals(&tensor(vec![2, 3])));
}

#[test]
fn weights_have_the_shape_of_their_values() {
    let n = Weights::number(7);
    assert!(n.shape.is_number());
    assert_eq!(n.values, vec![7]);
    let v = Weights::vector(vec![1, -1, 2]);
    assert!(v.shape.equals(&Shape::vector(3)));
    assert_eq!(v.values, vec![1, -1, 2]);
    assert_eq!(v.clone(), v);
}

#[test]
fn dot_kind_classifies_by_shapes() {
    // several numbers, one weight each
    assert_eq!(
        dot_kind(2, &Shape::number(), &Weights::vector(vec![1, 2])),
        DotKind::Simple
    );
    // one number with one weight laid out as a vector
    assert_eq!(
        dot_kind(1, &Shape::number(), &Weights::vector(vec![5])),
        DotKind::Simple
    );
    // one number with one weight laid out as a number
    assert_eq!(
        dot_kind(1, &Shape::number(), &Weights::number(5)),
        DotKind::Tensor
    );
    // one vector with weights of its shape
    assert_eq!(
        dot_kind(1, &Shape::vector(3), &Weights::vector(vec![1, 2, 3])),
        DotKind::Tensor
    );
    // several vectors with weights of the shape of all of them
    assert_eq!(
        dot_kind(
            2,
            &Shape::vector(3),
            &weights_of(vec![2, 3], vec![1, 2, 3, 4, 5, 6])
        ),
        DotKind::CompatibleTensor
    );
    // one matrix, each row reduced with the same weights
    assert_eq!(
        dot_kind(1, &tensor(vec![2, 3]), &Weights::vector(vec![1, 2, 3])),
        DotKind::Broadcast
    );
    // shapes that do not fit
    assert_eq!(
        dot_kind(2, &Shape::number(), &Weights::vector(vec![1, 2, 3])),
        DotKind::Unsupported
    );
    assert_eq!(
        dot_kind(1, &Shape::number(), &Weights::vector(vec![1, 2])),
        DotKind::Unsupported
    );
    assert_eq!(
        dot_kind(1, &Shape::vector(3), &Weights::vector(vec![1, 2])),
        DotKind::Unsupported
    );
}

#[test]
fn builders_infer_shapes_and_precisions() {
    let mut dag = OperationDag::new();
    assert_eq!(dag.len(), 0);
    assert!(dag.is_well_formed());
    let a = dag.add_input(5, Shape::vector(3));
    let b = dag.add_input(7, Shape::number());
    let lut = dag.add_lut(a, FunctionTable::unknown(), 4);
    let cast = dag.add_unsafe_cast(lut, 2);
    let dot = dag.add_dot(vec![a], Weights::vector(vec![1, 2, 3]));
    let simple = dag.add_dot(vec![b, dot], Weights::vector(vec![1, -1]));
    let levelled = dag.add_levelled_op(
        vec![b, a],
        LevelledComplexity::zero(),
        3,
        &tensor(vec![4, 4]),
        "conv",
    );
    let round = dag.add_round_op(b, 3);
    assert_eq!(
        [a.i, b.i, lut.i, cast.i, dot.i, simple.i, levelled.i, round.i],
        [0, 1, 2, 3, 4, 5, 6, 7]
    );
    assert_eq!(dag.len(), 8);
    assert_eq!(dag.out_precisions, vec![5, 7, 4, 2, 5, 7, 7, 3]);
    let shapes: Vec<Vec<u64>> = dag
        .out_shapes
        .iter()
        .map(|s| s.dimensions_size.clone())
        .collect();
    assert_eq!(
        shapes,
        vec![
            vec![3],
            vec![],
            vec![3],
            vec![3],
            vec![],
            vec![],
            vec![4, 4],
            vec![]
        ]
    );
    assert!(dag.is_well_formed());
    match &dag.operators[6] {
        Operator::LevelledOp {
            inputs,
            manp,
            comment,
            ..
        } => {
            assert_eq!(inputs, &vec![b, a]);
            assert_eq!(*manp, 3);
            assert_eq!(comment, "conv");
        }
        other => panic!("unexpected operator {other:?}"),
    }
}

#[test]
fn dot_of_a_matrix_and_a_vector_is_a_vector() {
    let mut dag = OperationDag::new();
    let m = dag.add_input(5, tensor(vec![2, 3]));
    let _dot = dag.add_dot(vec![m], Weights::vector(vec![1, 2, 3]));
    assert_eq!(dag.out_shapes[1].dimensions_size, vec![2]);
    let _other = dag.add_dot(vec![m, m], weights_of(vec![2, 2, 3], vec![0; 12]));
    assert_eq!(dag.out_shapes[2].dimensions_size, vec![2, 2, 3]);
}

#[test]
fn is_well_formed_rejects_forward_references_and_missing_operands() {
    let mut dag = OperationDag::new();
    let a = dag.add_input(5, Shape::number());
    let _lut = dag.add_lut(a, FunctionTable::unknown(), 4);
    assert!(dag.is_well_formed());

    let mut forward = OperationDag::new();
    forward.add_input(5, Shape::number());
    forward.operators.push(Operator::UnsafeCast {
        input: OperatorIndex { i: 1 },
        out_precision: 3,
    });
    forward.out_shapes.push(Shape::number());
    forward.out_precisions.push(3);
    assert!(!forward.is_well_formed());

    let mut empty_dot = OperationDag::new();
    empty_dot.operators.push(Operator::Dot {
        inputs: vec![],
        weights: Weights::vector(vec![]),
    });
    empty_dot.out_shapes.push(Shape::number());
    empty_dot.out_precisions.push(3);
    assert!(!empty_dot.is_well_formed());

    let mut short = OperationDag::new();
    short.add_input(5, Shape::number());
    short.out_shapes.pop();
    assert!(!short.is_well_formed());
}

#[test]
fn operator_inputs_and_kind() {
    let a = OperatorIndex { i: 0 };
    let b = OperatorIndex { i: 1 };
    let input = Operator::Input {
        out_precision: 3,
        out_shape: Shape::number(),
    };
    assert_eq!(input.inputs(), vec![]);
    assert!(!input.is_levelled());
    assert!(input.fits_at(0));
    let lut = Operator::Lut {
        input: a,
        table: FunctionTable::unknown(),
        out_precision: 3,
    };
    assert_eq!(lut.inputs(), vec![a]);
    assert!(!lut.is_levelled());
    assert!(lut.fits_at(1));
    assert!(!lut.fits_at(0));
    let dot = Operator::Dot {
        inputs: vec![a, b],
        weights: Weights::vector(vec![1, 1]),
    };
    assert_eq!(dot.inputs(), vec![a, b]);
    assert!(dot.is_levelled());
    assert!(dot.fits_at(2));
    assert!(!dot.fits_at(1));
    let cast = Operator::UnsafeCast {
        input: b,
        out_precision: 3,
    };
    assert!(cast.is_levelled());
    let round = Operator::Round {
        input: b,
        out_precision: 3,
    };
    assert!(!round.is_levelled());
    assert_eq!(round.inputs(), vec![b]);
}

#[test]
fn truncating_one_bit_adds_five_operators() {
    let mut dag = OperationDag::new();
    let input = dag.add_input(5, Shape::number());
    let truncated = dag.add_truncate_1_bit(input);
    assert_eq!(dag.len(), 6);
    assert_eq!(truncated.i, 5);
    assert_eq!(dag.out_precisions, vec![5, 5, 0, 5, 5, 4]);
    let expected = vec![
        Operator::Input {
            out_precision: 5,
            out_shape: Shape::number(),
        },
        Operator::Dot {
            inputs: vec![input],
            weights: Weights::number(32),
        },
        Operator::UnsafeCast {
            input: OperatorIndex { i: 1 },
            out_precision: 0,
        },
        Operator::Lut {
            input: OperatorIndex { i: 2 },
            table: FunctionTable::unknown(),
            out_precision: 5,
        },
        Operator::Dot {
            inputs: vec![input, OperatorIndex { i: 3 }],
            weights: Weights::vector(vec![1, -1]),
        },
        Operator::UnsafeCast {
            input: OperatorIndex { i: 4 },
            out_precision: 4,
        },
    ];
    assert_eq!(dag.operators, expected);
    assert!(dag.is_well_formed());
}

#[test]
fn expanded_round_clears_the_bits_one_by_one() {
    let mut dag = OperationDag::new();
    let input = dag.add_input(16, Shape::number());
    let same = dag.add_expanded_round(input, 16);
    assert_eq!(same, input);
    assert_eq!(dag.len(), 1);
    let rounded = dag.add_expanded_round(input, 13);
    assert_eq!(dag.len(), 16);
    assert_eq!(rounded.i, 15);
    assert_eq!(dag.out_precisions[rounded.i], 13);
    // the weights that move the lowest bit to the top: 2^16, 2^15, 2^14
    for (op_i, weight) in [(1, 1i64 << 16), (6, 1 << 15), (11, 1 << 14)] {
        match &dag.operators[op_i] {
            Operator::Dot { weights, .. } => assert_eq!(weights.values, vec![weight]),
            other => panic!("unexpected operator {other:?}"),
        }
    }
}

#[test]
fn expanded_round_reaches_62_bits() {
    let mut dag = OperationDag::new();
    let input = dag.add_input(62, Shape::number());
    let rounded = dag.add_expanded_round(input, 61);
    assert_eq!(dag.out_precisions[rounded.i], 61);
    match &dag.operators[1] {
        Operator::Dot { weights, .. } => assert_eq!(weights.values, vec![1i64 << 62]),
        other => panic!("unexpected operator {other:?}"),
    }
}

#[test]
fn expand_round_replaces_roundings_and_renumbers_operands() {
    let mut dag = OperationDag::new();
    let input = dag.add_input(6, Shape::number());
    let round = dag.add_round_op(input, 4);
    let lut = dag.add_lut(round, FunctionTable::unknown(), 6);
    let kept = dag.add_round_op(lut, 6);
    let _dot = dag.add_dot(vec![input, kept], Weights::vector(vec![2, 3]));
    let expanded = expand_round(&dag).unwrap();

    let mut expected = OperationDag::new();
    let input = expected.add_input(6, Shape::number());
    let round = expected.add_expanded_round(input, 4);
    let lut = expected.add_lut(round, FunctionTable::unknown(), 6);
    let _dot = expected.add_dot(vec![input, lut], Weights::vector(vec![2, 3]));
    assert_eq!(expanded, expected);
    assert_eq!(expanded.len(), 13);
    assert!(expanded.is_well_formed());
    assert!(expanded
        .operators
        .iter()
        .all(|op| !matches!(op, Operator::Round { .. })));
}

#[test]
fn expand_round_keeps_a_circuit_without_rounding() {
    let mut dag = OperationDag::new();
    let a = dag.add_input(6, Shape::vector(2));
    let b = dag.add_lut(a, FunctionTable { values: vec![1, 2] }, 3);
    let c = dag.add_unsafe_cast(b, 4);
    let _d = dag.add_levelled_op(vec![a, c], LevelledComplexity::zero(), 2, &Shape::vector(2), "x");
    assert_eq!(expand_round(&dag).unwrap(), dag);
    assert_eq!(expand_round(&OperationDag::new()).unwrap(), OperationDag::new());
}

#[test]
fn expand_round_rejects_a_rounding_to_more_bits() {
    let mut dag = OperationDag::new();
    let input = dag.add_input(4, Shape::number());
    let _ok = dag.add_round_op(input, 3);
    let _bad = dag.add_round_op(input, 5);
    assert_eq!(
        expand_round(&dag),
        Err(AnalysisError::InvalidRound { operator: 2 })
    );
}

#[test]
fn expand_round_rejects_a_rounding_from_more_than_62_bits() {
    let mut dag = OperationDag::new();
    let input = dag.add_input(63, Shape::number());
    let _kept = dag.add_round_op(input, 63);
    assert!(expand_round(&dag).is_ok());
    let _bad = dag.add_round_op(input, 62);
    assert_eq!(
        expand_round(&dag),
        Err(AnalysisError::InvalidRound { operator: 2 })
    );
}

#[test]
fn precision_cut_gives_the_partition_of_a_lookup() {
    let none = PrecisionCut { p_cut: vec![] };
    assert_eq!(none.lut_partition(0), 0);
    assert_eq!(none.lut_partition(255), 0);
    let one = PrecisionCut { p_cut: vec![2] };
    assert_eq!(one.lut_partition(0), LOW_PRECISION_PARTITION);
    assert_eq!(one.lut_partition(2), LOW_PRECISION_PARTITION);
    assert_eq!(one.lut_partition(3), HIGH_PRECISION_PARTITION);
    let three = PrecisionCut {
        p_cut: vec![2, 5, 9],
    };
    assert_eq!(three.lut_partition(1), 0);
    assert_eq!(three.lut_partition(5), 1);
    assert_eq!(three.lut_partition(6), 2);
    assert_eq!(three.lut_partition(9), 2);
    assert_eq!(three.lut_partition(10), 3);
}

fn homes(partitions: &[InstructionPartition]) -> Vec<usize> {
    partitions.iter().map(|p| p.instruction_partition).collect()
}

fn alternatives(partitions: &[InstructionPartition]) -> Vec<Vec<usize>> {
    partitions
        .iter()
        .map(|p| {
            let mut alts = p.alternative_output_representation.clone();
            alts.sort_unstable();
            alts
        })
        .collect()
}

#[test]
fn partitionning_rejects_more_than_one_cut() {
    let dag = OperationDag::new();
    let p_cut = PrecisionCut {
        p_cut: vec![2, 4, 6],
    };
    assert_eq!(
        partitionning_with_preferred(&dag, &p_cut, 0),
        Err(AnalysisError::TooManyPrecisionCuts { nb_cuts: 3 })
    );
}

#[test]
fn partitionning_without_cut_has_one_partition() {
    let mut dag = OperationDag::new();
    let a = dag.add_input(8, Shape::number());
    let b = dag.add_lut(a, FunctionTable::unknown(), 1);
    let _c = dag.add_lut(b, FunctionTable::unknown(), 8);
    let p = partitionning_with_preferred(&dag, &PrecisionCut { p_cut: vec![] }, 1).unwrap();
    assert_eq!(p.nb_partitions, 1);
    assert_eq!(homes(&p.instrs_partition), vec![0, 0, 0]);
    assert_eq!(alternatives(&p.instrs_partition), vec![vec![]; 3]);
}

#[test]
fn partitionning_with_lookups_of_one_kind_has_one_partition() {
    let p_cut = PrecisionCut { p_cut: vec![2] };
    let mut high = OperationDag::new();
    let a = high.add_input(8, Shape::number());
    let _b = high.add_lut(a, FunctionTable::unknown(), 8);
    let p = partitionning_with_preferred(&high, &p_cut, HIGH_PRECISION_PARTITION).unwrap();
    assert_eq!(p.nb_partitions, 1);
    assert_eq!(homes(&p.instrs_partition), vec![0, 0]);

    let mut low = OperationDag::new();
    let a = low.add_input(1, Shape::number());
    let _b = low.add_lut(a, FunctionTable::unknown(), 8);
    let p = partitionning_with_preferred(&low, &p_cut, HIGH_PRECISION_PARTITION).unwrap();
    assert_eq!(p.nb_partitions, 1);
    assert_eq!(homes(&p.instrs_partition), vec![0, 0]);

    let mut no_lut = OperationDag::new();
    let a = no_lut.add_input(1, Shape::number());
    let _b = no_lut.add_unsafe_cast(a, 8);
    let p = partitionning_with_preferred(&no_lut, &p_cut, HIGH_PRECISION_PARTITION).unwrap();
    assert_eq!(p.nb_partitions, 1);
    assert_eq!(homes(&p.instrs_partition), vec![0, 0]);
}

#[test]
fn partitionning_gives_a_block_the_partition_of_its_lookups() {
    let p_cut = PrecisionCut { p_cut: vec![2] };
    let mut dag = OperationDag::new();
    // 0: input on 8 bits, read by a lookup of the high partition
    let a = dag.add_input(8, Shape::number());
    // 1: lookup of the high partition, to 1 bit
    let b = dag.add_lut(a, FunctionTable::unknown(), 1);
    // 2: linear operator on the lookup; its block holds 1, 2 and 3
    let c = dag.add_dot(vec![b], Weights::number(2));
    // 3: the same block
    let d = dag.add_unsafe_cast(c, 1);
    // 4: lookup of the low partition on the block
    let _e = dag.add_lut(d, FunctionTable::unknown(), 8);
    for default in [LOW_PRECISION_PARTITION, HIGH_PRECISION_PARTITION] {
        let p = partitionning_with_preferred(&dag, &p_cut, default).unwrap();
        assert_eq!(p.nb_partitions, 2);
        // the input goes where the lookup that reads it is; the block of the
        // first lookup has that lookup only, so it is of the high partition
        assert_eq!(homes(&p.instrs_partition), vec![1, 1, 1, 1, 0]);
        assert_eq!(alternatives(&p.instrs_partition), vec![vec![]; 5]);
    }
}

#[test]
fn partitionning_asks_for_a_copy_where_a_block_has_both_kinds() {
    let p_cut = PrecisionCut { p_cut: vec![2] };
    let mut dag = OperationDag::new();
    let a = dag.add_input(1, Shape::number());
    let low = dag.add_lut(a, FunctionTable::unknown(), 4);
    let b = dag.add_input(8, Shape::number());
    let high = dag.add_lut(b, FunctionTable::unknown(), 4);
    let _sum = dag.add_dot(vec![low, high], Weights::vector(vec![1, 1]));

    let p = partitionning_with_preferred(&dag, &p_cut, LOW_PRECISION_PARTITION).unwrap();
    assert_eq!(p.nb_partitions, 2);
    assert_eq!(homes(&p.instrs_partition), vec![0, 0, 1, 1, 0]);
    assert_eq!(
        alternatives(&p.instrs_partition),
        vec![vec![], vec![], vec![], vec![0], vec![]]
    );

    let p = partitionning_with_preferred(&dag, &p_cut, HIGH_PRECISION_PARTITION).unwrap();
    assert_eq!(homes(&p.instrs_partition), vec![0, 0, 1, 1, 1]);
    assert_eq!(
        alternatives(&p.instrs_partition),
        vec![vec![], vec![1], vec![], vec![], vec![]]
    );

    // a preferred partition that does not exist is not taken for such a block
    let p = partitionning_with_preferred(&dag, &p_cut, 7).unwrap();
    assert_eq!(homes(&p.instrs_partition), vec![0, 0, 1, 1, 0]);
}

#[test]
fn partitionning_prefers_the_default_for_a_free_block() {
    let p_cut = PrecisionCut { p_cut: vec![2] };
    let mut dag = OperationDag::new();
    // a block read by lookups of both kinds
    let shared = dag.add_input(8, Shape::number());
    let cast = dag.add_unsafe_cast(shared, 1);
    let _high = dag.add_lut(shared, FunctionTable::unknown(), 4);
    let _low = dag.add_lut(cast, FunctionTable::unknown(), 4);
    // a block that no lookup reads
    let _free = dag.add_input(8, Shape::number());
    for default in [LOW_PRECISION_PARTITION, HIGH_PRECISION_PARTITION] {
        let p = partitionning_with_preferred(&dag, &p_cut, default).unwrap();
        assert_eq!(p.nb_partitions, 2);
        assert_eq!(
            homes(&p.instrs_partition),
            vec![default, default, 1, 0, default]
        );
        assert_eq!(alternatives(&p.instrs_partition), vec![vec![]; 5]);
    }
}

#[test]
fn instruction_partition_keeps_each_alternative_once() {
    let mut p = InstructionPartition::new(1);
    assert_eq!(p.instruction_partition, 1);
    assert!(p.alternative_output_representation.is_empty());
    assert!(!p.has_alternative(0));
    p.add_alternative_output_representation(0);
    p.add_alternative_output_representation(2);
    p.add_alternative_output_representation(0);
    assert_eq!(p.alternative_output_representation, vec![0, 2]);
    assert!(p.has_alternative(0));
    assert!(p.has_alternative(2));
    assert!(!p.has_alternative(1));
    assert_eq!(p.clone(), p);
}
