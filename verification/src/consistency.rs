//! Partitions that fit a circuit, and what the propagation owes to them.
//!
//! An operator reads the variances of its operands in its own partition. The
//! partitions fit the circuit where every operand of a linear operator has
//! its result in the partition of that operator, as its own or as a copy.
//! Then no read fails, and the propagation stops only on a fault of the
//! circuit itself.

use crate::analyze::{
    lemma_propagate_invariant, operand_spec, out_variances_spec, propagate_spec, read_spec,
    reads_spec, row_invariant, row_spec,
};
use crate::error::AnalysisError;
use crate::operator::{OperatorView, Precision};
use crate::partitionning::{
    alternatives_spec, asks_copy, homes_spec, nb_partitions_spec, partitions_spec,
};
use crate::partitions::{InstructionPartitionView, PartitionIndex};
use crate::precision_cut::lemma_cut_partition_bound;
use crate::symbolic_variance::VarianceModel;
use crate::unparametrized::DagView;
use vstd::prelude::*;

verus! {

/// The partitions `instrs_partition`, among `nb_partitions`, fit the circuit
/// `dag`: each operator has a partition that exists, copies are expected only
/// in partitions that exist, and every operand of a linear operator is
/// available in the partition of that operator.
pub open spec fn partitions_fit(
    dag: DagView,
    nb_partitions: usize,
    instrs_partition: Seq<InstructionPartitionView>,
) -> bool {
    &&& instrs_partition.len() == dag.operators.len()
    &&& forall|i: int|
        0 <= i < instrs_partition.len() ==> (#[trigger] instrs_partition[i]).instruction_partition
            < nb_partitions
    &&& forall|i: int, q: PartitionIndex|
        0 <= i < instrs_partition.len() && #[trigger] instrs_partition[i].alternatives.contains(q)
            ==> q < nb_partitions
    &&& forall|i: int, k: int|
        0 <= i < instrs_partition.len() && dag.operators[i].is_levelled() && 0 <= k
            < dag.operators[i].inputs().len() ==> instrs_partition[(
        #[trigger] dag.operators[i].inputs()[k]).i as int].available_in(
            instrs_partition[i].instruction_partition,
        )
}

/// A fault of the circuit itself: a reduction whose shapes are not handled,
/// an operator that lacks an operand, or a coefficient beyond 128 bits.
pub open spec fn is_circuit_fault(e: AnalysisError) -> bool {
    e is MissingInput || e is NotImplementedDot || e is UnsupportedDot || e is Overflow
}

/// The partitions chosen for a well-formed circuit, with at most one
/// threshold and a preferred partition among the two, fit the circuit.
pub proof fn lemma_chosen_partitions_fit(
    dag: DagView,
    p_cut: Seq<Precision>,
    default_partition: PartitionIndex,
)
    requires
        dag.wf(),
        p_cut.len() <= 1,
        default_partition <= 1,
    ensures
        1 <= partitions_spec(dag, p_cut, default_partition).nb_partitions <= 2,
        partitions_fit(
            dag,
            partitions_spec(dag, p_cut, default_partition).nb_partitions,
            partitions_spec(dag, p_cut, default_partition).instrs_partition,
        ),
{
    let partitions = partitions_spec(dag, p_cut, default_partition);
    let parts = partitions.instrs_partition;
    if nb_partitions_spec(dag, p_cut) != 1 {
        let homes = homes_spec(dag, p_cut, default_partition);
        assert forall|i: int| 0 <= i < homes.len() implies #[trigger] homes[i] < 2 by {
            match dag.operators[i] {
                OperatorView::Lut { input, .. } => {
                    lemma_cut_partition_bound(p_cut, dag.out_precisions[input.i as int]);
                },
                _ => {},
            }
        }
        assert forall|i: int| 0 <= i < parts.len() implies (#[trigger] parts[i]).instruction_partition
            < 2 by {
            assert(homes[i] < 2);
        }
        assert forall|i: int, q: PartitionIndex|
            0 <= i < parts.len() && #[trigger] parts[i].alternatives.contains(q) implies q < 2 by {
            let w = choose|w: int|
                0 <= w < dag.operators.len() && #[trigger] asks_copy(dag, homes, w, i, q);
            assert(homes[w] < 2);
        }
        assert forall|i: int, k: int|
            0 <= i < parts.len() && dag.operators[i].is_levelled() && 0 <= k
                < dag.operators[i].inputs().len() implies parts[(
        #[trigger] dag.operators[i].inputs()[k]).i as int].available_in(
            parts[i].instruction_partition,
        ) by {
            let j = dag.operators[i].inputs()[k].i as int;
            assert(dag.operators[i].wf_at(i));
            assert(j < i);
            if homes[i] != homes[j] {
                assert(asks_copy(dag, homes, i, j, homes[i]));
                assert(alternatives_spec(dag, homes, j).contains(homes[i]));
            }
        }
    } else {
        assert forall|i: int, k: int|
            0 <= i < parts.len() && dag.operators[i].is_levelled() && 0 <= k
                < dag.operators[i].inputs().len() implies parts[(
        #[trigger] dag.operators[i].inputs()[k]).i as int].available_in(
            parts[i].instruction_partition,
        ) by {
            assert(dag.operators[i].wf_at(i));
        }
    }
}

/// Where the rows before an operator are as `row_invariant` says, the read
/// of an operand that is available in the partition of the operator
/// succeeds.
pub proof fn lemma_read_succeeds(
    rows: Seq<Seq<VarianceModel>>,
    nb_partitions: usize,
    instrs_partition: Seq<InstructionPartitionView>,
    partition: PartitionIndex,
    input: usize,
)
    requires
        input < rows.len(),
        rows.len() <= instrs_partition.len(),
        partition < nb_partitions,
        row_invariant(rows[input as int], nb_partitions, instrs_partition[input as int]),
        instrs_partition[input as int].available_in(partition),
    ensures
        read_spec(rows, nb_partitions, partition, input) is Ok,
{
    let row = rows[input as int];
    let v = row[partition as int];
    assert(v.wf() && v.fits() && v.nb_partitions == nb_partitions);
    assert(v != VarianceModel::zero());
}

/// Where the partitions fit the circuit and the rows before the operator `i`
/// are as `row_invariant` says, the row of `i` is computed, or a fault of the
/// circuit is met.
pub proof fn lemma_row_or_circuit_fault(
    dag: DagView,
    nb_partitions: usize,
    instrs_partition: Seq<InstructionPartitionView>,
    rows: Seq<Seq<VarianceModel>>,
    i: int,
)
    requires
        dag.wf(),
        dag.has_no_round(),
        partitions_fit(dag, nb_partitions, instrs_partition),
        0 <= i < dag.operators.len(),
        rows.len() == i,
        forall|j: int|
            0 <= j < i ==> row_invariant(#[trigger] rows[j], nb_partitions, instrs_partition[j]),
    ensures
        match row_spec(dag.operators[i], dag.out_shapes, rows, nb_partitions, instrs_partition[i]) {
            Ok(_) => true,
            Err(e) => is_circuit_fault(e),
        },
{
    let op = dag.operators[i];
    let part = instrs_partition[i];
    let p = part.instruction_partition;
    assert(op.wf_at(i));
    assert(p < nb_partitions);
    assert forall|q: PartitionIndex| #[trigger] part.alternatives.contains(q) implies q
        < nb_partitions by {
        assert(instrs_partition[i].alternatives.contains(q));
    }
    assert forall|k: int| 0 <= k < op.inputs().len() && op.is_levelled() implies read_spec(
        rows,
        nb_partitions,
        p,
        (#[trigger] op.inputs()[k]).i,
    ) is Ok by {
        let j = op.inputs()[k].i;
        assert(j < i);
        assert(instrs_partition[j as int].available_in(p));
        lemma_read_succeeds(rows, nb_partitions, instrs_partition, p, j);
    }
    match op {
        OperatorView::LevelledOp { inputs, .. } => {
            let reads = reads_spec(rows, nb_partitions, p, inputs, inputs.len());
            assert forall|j: int| 0 <= j < reads.len() implies (#[trigger] reads[j]) is Ok by {
                assert(operand_spec(inputs, j) == op.inputs()[j].i);
            }
        },
        OperatorView::Dot { inputs, weights, .. } => {
            assert(op.inputs()[0] == inputs[0]);
            if !(inputs.len() > 1 && weights.len() > inputs.len()) {
                let reads = reads_spec(rows, nb_partitions, p, inputs, weights.len());
                assert forall|j: int| 0 <= j < reads.len() implies (#[trigger] reads[j]) is Ok by {
                    if inputs.len() > 1 {
                        assert(operand_spec(inputs, j) == op.inputs()[j].i);
                    } else {
                        assert(operand_spec(inputs, j) == op.inputs()[0].i);
                    }
                }
            }
        },
        OperatorView::UnsafeCast { input, .. } => {
            assert(op.inputs()[0] == input);
        },
        _ => {},
    }
}

/// Where the partitions fit the circuit, the first `n` rows are computed,
/// or a fault of the circuit is met.
pub proof fn lemma_propagate_or_circuit_fault(
    dag: DagView,
    nb_partitions: usize,
    instrs_partition: Seq<InstructionPartitionView>,
    n: nat,
)
    requires
        dag.wf(),
        dag.has_no_round(),
        partitions_fit(dag, nb_partitions, instrs_partition),
        n <= dag.operators.len(),
    ensures
        match propagate_spec(dag.operators, dag.out_shapes, nb_partitions, instrs_partition, n) {
            Ok(_) => true,
            Err(e) => is_circuit_fault(e),
        },
    decreases n,
{
    if n > 0 {
        lemma_propagate_or_circuit_fault(dag, nb_partitions, instrs_partition, (n - 1) as nat);
        let before = propagate_spec(
            dag.operators,
            dag.out_shapes,
            nb_partitions,
            instrs_partition,
            (n - 1) as nat,
        );
        if before is Ok {
            lemma_propagate_invariant(
                dag.operators,
                dag.out_shapes,
                nb_partitions,
                instrs_partition,
                (n - 1) as nat,
            );
            lemma_row_or_circuit_fault(dag, nb_partitions, instrs_partition, before->Ok_0, n - 1);
        }
    }
}

/// The propagation of the variances of a well-formed circuit without
/// rounding, with partitions that fit it, never fails on a read of a
/// variance: it gives the variances, or a fault of the circuit itself.
pub proof fn lemma_fitting_partitions_propagate(
    dag: DagView,
    nb_partitions: usize,
    instrs_partition: Seq<InstructionPartitionView>,
)
    requires
        dag.wf(),
        dag.has_no_round(),
        partitions_fit(dag, nb_partitions, instrs_partition),
    ensures
        match out_variances_spec(dag, nb_partitions, instrs_partition) {
            Ok(_) => true,
            Err(e) => is_circuit_fault(e),
        },
{
    lemma_propagate_or_circuit_fault(dag, nb_partitions, instrs_partition, dag.operators.len());
}

} // verus!
