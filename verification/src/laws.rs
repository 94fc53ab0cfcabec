//! What holds of the variances of every circuit.

use crate::analyze::{
    collect_spec, home_variance_spec, lemma_propagate_invariant, lemma_reads_valid,
    lemma_weighted_sum_valid, matrix_invariant, operands_valid, out_variances_spec, reads_spec,
    row_invariant, sum_of_squares, weighted_sum_spec,
};
use crate::error::AnalysisError;
use crate::operator::OperatorView;
use crate::partitions::{InstructionPartitionView, PartitionIndex};
use crate::symbolic_variance::{
    lemma_keyswitch_index_in_range, lemma_keyswitch_index_injective,
    lemma_per_partition_index_in_range, nb_coeffs, VarianceModel,
};
use crate::unparametrized::DagView;
use vstd::prelude::*;

verus! {

/// A conversion from `src` to `dst` adds one to the coefficient of that
/// conversion and keeps every other coefficient: those of the fresh inputs,
/// those of the bootstraps, and those of the other conversions.
pub proof fn lemma_conversion_keeps_other_terms(v: VarianceModel, src: nat, dst: nat)
    requires
        v.wf(),
        src < v.nb_partitions,
        dst < v.nb_partitions,
    ensures
        ({
            let c = v.after_partition_keyswitch_to_big(src, dst);
            &&& c.wf()
            &&& c.nb_partitions == v.nb_partitions
            &&& c.partition == Some(dst)
            &&& c.coeff_partition_keyswitch_to_big(src, dst) == v.coeff_partition_keyswitch_to_big(
                src,
                dst,
            ) + 1
            &&& forall|p: nat|
                p < v.nb_partitions ==> #[trigger] c.coeff_input(p) == v.coeff_input(p)
            &&& forall|p: nat| p < v.nb_partitions ==> #[trigger] c.coeff_pbs(p) == v.coeff_pbs(p)
            &&& forall|s: nat, d: nat|
                s < v.nb_partitions && d < v.nb_partitions && (s != src || d != dst)
                    ==> #[trigger] c.coeff_partition_keyswitch_to_big(s, d)
                    == v.coeff_partition_keyswitch_to_big(s, d)
        }),
{
    let nb = v.nb_partitions;
    let c = v.after_partition_keyswitch_to_big(src, dst);
    lemma_keyswitch_index_in_range(nb, src, dst);
    assert forall|p: nat| p < nb implies #[trigger] c.coeff_input(p) == v.coeff_input(p)
        && #[trigger] c.coeff_pbs(p) == v.coeff_pbs(p) by {
        lemma_per_partition_index_in_range(nb, p);
    }
    assert forall|s: nat, d: nat| s < nb && d < nb && (s != src || d != dst) implies #[trigger]
        c.coeff_partition_keyswitch_to_big(s, d) == v.coeff_partition_keyswitch_to_big(s, d) by {
        lemma_keyswitch_index_in_range(nb, s, d);
        lemma_keyswitch_index_injective(nb, s, d, src, dst);
    }
}

/// Whatever the circuit and the partitions, the variances that are computed
/// without a fault have a row for each operator and a column for each
/// partition; the variance of each operator in its own partition was
/// computed, is well formed and has coefficients of 128 bits; its variance in
/// a partition where a copy of its result is expected is the conversion of
/// the former; and its variance in every other partition is unset.
pub proof fn lemma_variances_invariant(
    dag: DagView,
    nb_partitions: usize,
    instrs_partition: Seq<InstructionPartitionView>,
)
    requires
        out_variances_spec(dag, nb_partitions, instrs_partition) is Ok,
    ensures
        matrix_invariant(
            out_variances_spec(dag, nb_partitions, instrs_partition)->Ok_0,
            nb_partitions,
            instrs_partition,
        ),
{
    lemma_propagate_invariant(
        dag.operators,
        dag.out_shapes,
        nb_partitions,
        instrs_partition,
        dag.operators.len(),
    );
}

/// In the row of an operator of partition `a` of which a copy is expected
/// in another partition `b`, and whose variance in `a` has no noise of a
/// conversion from `a` to `b`: the variance in `b` has exactly one unit of
/// that noise, and the same coefficients of fresh inputs and bootstraps as
/// the variance in `a`.
pub proof fn lemma_alternative_column(
    row: Seq<VarianceModel>,
    nb_partitions: usize,
    instr_partition: InstructionPartitionView,
    b: PartitionIndex,
)
    requires
        row_invariant(row, nb_partitions, instr_partition),
        instr_partition.alternatives.contains(b),
        b < nb_partitions,
        b != instr_partition.instruction_partition,
        row[instr_partition.instruction_partition as int].coeff_partition_keyswitch_to_big(
            instr_partition.instruction_partition as nat,
            b as nat,
        ) == 0,
    ensures
        ({
            let a = instr_partition.instruction_partition;
            &&& row[b as int].partition == Some(b as nat)
            &&& row[b as int].coeff_partition_keyswitch_to_big(a as nat, b as nat) == 1
            &&& forall|p: nat|
                p < nb_partitions ==> #[trigger] row[b as int].coeff_input(p) == row[a as int].coeff_input(
                    p,
                )
            &&& forall|p: nat|
                p < nb_partitions ==> #[trigger] row[b as int].coeff_pbs(p) == row[a as int].coeff_pbs(p)
        }),
{
    let a = instr_partition.instruction_partition;
    lemma_conversion_keeps_other_terms(row[a as int], a as nat, b as nat);
    assert(row[b as int] == row[a as int].after_partition_keyswitch_to_big(a as nat, b as nat));
}

/// The variance of a fresh input, and of the result of a bootstrap, in its
/// own partition has no noise of any conversion, and only its own basic noise:
/// one unit of the noise of a fresh input of that partition for the first, one
/// unit of the noise of a bootstrap of that partition for the second.
pub proof fn lemma_fresh_variance(
    op: OperatorView,
    out_shapes: Seq<Seq<u64>>,
    rows: Seq<Seq<VarianceModel>>,
    nb_partitions: usize,
    partition: PartitionIndex,
)
    requires
        partition < nb_partitions,
        op is Input || op is Lut,
    ensures
        home_variance_spec(op, out_shapes, rows, nb_partitions, partition) is Ok,
        ({
            let v = home_variance_spec(op, out_shapes, rows, nb_partitions, partition)->Ok_0;
            &&& forall|s: nat, d: nat|
                s < nb_partitions && d < nb_partitions
                    ==> #[trigger] v.coeff_partition_keyswitch_to_big(s, d) == 0
            &&& forall|p: nat|
                p < nb_partitions ==> #[trigger] v.coeff_input(p) == if op is Input && p
                    == partition {
                    1nat
                } else {
                    0nat
                }
            &&& forall|p: nat|
                p < nb_partitions ==> #[trigger] v.coeff_pbs(p) == if op is Lut && p == partition {
                    1nat
                } else {
                    0nat
                }
        }),
{
    let nb = nb_partitions as nat;
    let v = home_variance_spec(op, out_shapes, rows, nb_partitions, partition)->Ok_0;
    lemma_per_partition_index_in_range(nb, partition as nat);
    assert forall|s: nat, d: nat| s < nb && d < nb implies #[trigger]
        v.coeff_partition_keyswitch_to_big(s, d) == 0 by {
        lemma_keyswitch_index_in_range(nb, s, d);
    }
    assert forall|p: nat| p < nb implies #[trigger] v.coeff_input(p) == (if op is Input && p
        == partition {
        1nat
    } else {
        0nat
    }) && #[trigger] v.coeff_pbs(p) == (if op is Lut && p == partition {
        1nat
    } else {
        0nat
    }) by {
        lemma_per_partition_index_in_range(nb, p);
    }
}

/// Where every term of a weighted sum has the coefficient one at the
/// position `t`, the sum has there the sum of the squares of the weights.
pub proof fn lemma_weighted_sum_of_unit_terms(
    vs: Seq<VarianceModel>,
    weights: Seq<i64>,
    nb: nat,
    p: nat,
    t: int,
)
    requires
        nb >= 1,
        operands_valid(vs, nb, p),
        vs.len() == weights.len(),
        0 <= t < nb_coeffs(nb),
        forall|k: int| 0 <= k < vs.len() ==> (#[trigger] vs[k]).coeffs[t] == 1,
    ensures
        weighted_sum_spec(vs, weights, nb, p).coeffs[t] == sum_of_squares(weights),
    decreases vs.len(),
{
    if vs.len() > 0 {
        let front = vs.drop_last();
        assert forall|k: int| 0 <= k < front.len() implies {
            let v = #[trigger] front[k];
            v.wf() && v.fits() && v.nb_partitions == nb && v.partition == Some(p)
        } by {
            assert(front[k] == vs[k]);
        }
        assert forall|k: int| 0 <= k < front.len() implies (#[trigger] front[k]).coeffs[t] == 1 by {
            assert(front[k] == vs[k]);
        }
        lemma_weighted_sum_of_unit_terms(front, weights.drop_last(), nb, p, t);
        lemma_weighted_sum_valid(vs, weights, nb, p);
        assert(vs.last() == vs[vs.len() - 1]);
    }
}

/// A weighted reduction all of whose operands have, in the partition of the
/// reduction, the coefficient one at the position `t`, has there the sum of
/// the squares of its weights.
pub proof fn lemma_dot_of_unit_terms(
    op: OperatorView,
    out_shapes: Seq<Seq<u64>>,
    rows: Seq<Seq<VarianceModel>>,
    nb_partitions: usize,
    partition: PartitionIndex,
    t: int,
)
    requires
        partition < nb_partitions,
        op is Dot,
        home_variance_spec(op, out_shapes, rows, nb_partitions, partition) is Ok,
        0 <= t < nb_coeffs(nb_partitions as nat),
        forall|j: int|
            0 <= j < op->Dot_weights.len() ==> (#[trigger] reads_spec(
                rows,
                nb_partitions,
                partition,
                op->Dot_inputs,
                op->Dot_weights.len(),
            )[j])->Ok_0.coeffs[t] == 1,
    ensures
        home_variance_spec(op, out_shapes, rows, nb_partitions, partition)->Ok_0.coeffs[t]
            == sum_of_squares(op->Dot_weights),
{
    let inputs = op->Dot_inputs;
    let weights = op->Dot_weights;
    let reads = reads_spec(rows, nb_partitions, partition, inputs, weights.len());
    lemma_reads_valid(rows, nb_partitions, partition, inputs, weights.len());
    let vs = collect_spec(reads)->Ok_0;
    assert forall|k: int| 0 <= k < vs.len() implies (#[trigger] vs[k]).coeffs[t] == 1 by {
        assert(vs[k] == reads[k]->Ok_0);
    }
    lemma_weighted_sum_of_unit_terms(vs, weights, nb_partitions as nat, partition as nat, t);
}

/// The variances of a circuit are a function of the circuit and of the
/// partitions of its operators: whatever is computed twice from the same
/// circuit and the same partitions is the same, fault or variances.
pub proof fn lemma_propagation_is_deterministic(
    dag: DagView,
    nb_partitions: usize,
    instrs_partition: Seq<InstructionPartitionView>,
    first: Result<Seq<Seq<VarianceModel>>, AnalysisError>,
    second: Result<Seq<Seq<VarianceModel>>, AnalysisError>,
)
    requires
        first == out_variances_spec(dag, nb_partitions, instrs_partition),
        second == out_variances_spec(dag, nb_partitions, instrs_partition),
    ensures
        first == second,
{
}

} // verus!
