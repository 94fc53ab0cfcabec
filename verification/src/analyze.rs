//! Propagation of the noise variance through a circuit.
//!
//! The operators are visited in the order of the circuit. For each one the
//! variance of its result is computed in its own partition, from the variances
//! that its operands have in that partition, and then converted to every other
//! partition in which an operator expects the result.

use crate::config::NoiseBoundConfig;
use crate::consistency::{
    is_circuit_fault, lemma_chosen_partitions_fit, lemma_fitting_partitions_propagate,
};
use crate::error::AnalysisError;
use crate::operator::{
    dot_kind, dot_kind_spec, operators_view, shapes_view, DotKind, LevelledComplexity, Operator,
    OperatorIndex, OperatorView, Precision, Shape,
};
use crate::partitionning::{partitionning_with_preferred, partitions_spec};
use crate::partitions::{
    partitions_view, InstructionPartition, InstructionPartitionView, PartitionIndex,
};
use crate::symbolic_variance::{nb_coeffs, SymbolicVariance, VarianceModel};
use crate::precision_cut::PrecisionCut;
use crate::round::{expand_round, expand_round_spec};
use crate::unparametrized::{DagView, OperationDag};
use vstd::prelude::*;

verus! {

/// The values of a row of variances.
pub open spec fn variances_view(row: Seq<SymbolicVariance>) -> Seq<VarianceModel> {
    row.map_values(|v: SymbolicVariance| v@)
}

/// The values of the variances of a circuit: a row for each operator, a
/// column for each partition.
pub open spec fn matrix_view(rows: Seq<Vec<SymbolicVariance>>) -> Seq<Seq<VarianceModel>> {
    rows.map_values(|row: Vec<SymbolicVariance>| variances_view(row@))
}

/// Every variance of the row is well formed.
pub open spec fn variances_wf(row: Seq<SymbolicVariance>) -> bool {
    forall|q: int| 0 <= q < row.len() ==> (#[trigger] row[q]).wf()
}

/// Every variance of every row is well formed.
pub open spec fn matrix_wf(rows: Seq<Vec<SymbolicVariance>>) -> bool {
    forall|i: int| 0 <= i < rows.len() ==> variances_wf(#[trigger] rows[i]@)
}

/// The value of a variance, or the fault met in place of it.
pub open spec fn variance_result_view(r: Result<SymbolicVariance, AnalysisError>) -> Result<
    VarianceModel,
    AnalysisError,
> {
    match r {
        Ok(v) => Ok(v@),
        Err(e) => Err(e),
    }
}

/// The values of a row, or the fault met in place of it.
pub open spec fn variances_result_view(r: Result<Vec<SymbolicVariance>, AnalysisError>) -> Result<
    Seq<VarianceModel>,
    AnalysisError,
> {
    match r {
        Ok(row) => Ok(variances_view(row@)),
        Err(e) => Err(e),
    }
}

/// The values of the variances of a circuit, or the fault met in place of
/// them.
pub open spec fn matrix_result_view(r: Result<Vec<Vec<SymbolicVariance>>, AnalysisError>) -> Result<
    Seq<Seq<VarianceModel>>,
    AnalysisError,
> {
    match r {
        Ok(rows) => Ok(matrix_view(rows@)),
        Err(e) => Err(e),
    }
}

/// What the operator that comes after `rows` reads of the operand `input` in
/// `partition`: the variance stored there, if the operand comes before the
/// operator, has that column, and holds there a variance that was computed,
/// over `nb_partitions` partitions and for `partition`, with coefficients of
/// 128 bits.
pub open spec fn read_spec(
    rows: Seq<Seq<VarianceModel>>,
    nb_partitions: usize,
    partition: PartitionIndex,
    input: usize,
) -> Result<VarianceModel, AnalysisError> {
    let operator = rows.len() as usize;
    if input >= rows.len() {
        Err(AnalysisError::OperatorOutOfRange { operator, input })
    } else if partition >= rows[input as int].len() {
        Err(AnalysisError::ColumnOutOfRange { operator, input, partition })
    } else {
        let v = rows[input as int][partition as int];
        if v == VarianceModel::zero() {
            Err(AnalysisError::ZeroVariance { operator, input })
        } else if !v.wf() || !v.fits() || v.nb_partitions != nb_partitions {
            Err(AnalysisError::InvalidVariance { operator, input })
        } else {
            match v.partition {
                None => Err(AnalysisError::UnsetVariance { operator, input, partition }),
                Some(tag) => if tag != partition {
                    Err(
                        AnalysisError::PartitionMismatch {
                            operator,
                            input,
                            expected: partition,
                            observed: tag as usize,
                        },
                    )
                } else {
                    Ok(v)
                },
            }
        }
    }
}

/// The operand that goes with the weight of position `j`: with a single
/// operand, all the weights go with it.
pub open spec fn operand_spec(inputs: Seq<OperatorIndex>, j: int) -> usize {
    if inputs.len() > 1 {
        inputs[j].i
    } else {
        inputs[0].i
    }
}

/// The first `count` reads of an operator with the operands `inputs`.
pub open spec fn reads_spec(
    rows: Seq<Seq<VarianceModel>>,
    nb_partitions: usize,
    partition: PartitionIndex,
    inputs: Seq<OperatorIndex>,
    count: nat,
) -> Seq<Result<VarianceModel, AnalysisError>> {
    Seq::new(
        count,
        |j: int| read_spec(rows, nb_partitions, partition, operand_spec(inputs, j)),
    )
}

/// `j` is the position of the first read that fails.
pub open spec fn is_first_failure(reads: Seq<Result<VarianceModel, AnalysisError>>, j: int) -> bool {
    &&& 0 <= j < reads.len()
    &&& reads[j] is Err
    &&& forall|k: int| 0 <= k < j ==> reads[k] is Ok
}

/// All that was read, if every read succeeds; else the fault of the first
/// read that fails.
pub open spec fn collect_spec(reads: Seq<Result<VarianceModel, AnalysisError>>) -> Result<
    Seq<VarianceModel>,
    AnalysisError,
> {
    if forall|j: int| 0 <= j < reads.len() ==> (#[trigger] reads[j]) is Ok {
        Ok(Seq::new(reads.len(), |j: int| reads[j]->Ok_0))
    } else {
        Err(reads[choose|j: int| is_first_failure(reads, j)]->Err_0)
    }
}

/// Reads the variance of the operand `input` in `partition`.
fn out_variance_of(
    out_variances: &Vec<Vec<SymbolicVariance>>,
    nb_partitions: usize,
    partition: PartitionIndex,
    input: usize,
) -> (r: Result<SymbolicVariance, AnalysisError>)
    requires
        matrix_wf(out_variances@),
    ensures
        variance_result_view(r) == read_spec(
            matrix_view(out_variances@),
            nb_partitions,
            partition,
            input,
        ),
        r is Ok ==> r.unwrap().wf(),
{
    let operator: usize = out_variances.len();
    if input >= out_variances.len() {
        return Err(AnalysisError::OperatorOutOfRange { operator, input });
    }
    if partition >= out_variances[input].len() {
        return Err(AnalysisError::ColumnOutOfRange { operator, input, partition });
    }
    let v = &out_variances[input][partition];
    proof {
        assert(variances_wf(out_variances@[input as int]@));
        v.lemma_view_wf();
        assert(matrix_view(out_variances@)[input as int][partition as int] == v@);
    }
    if v.is_zero() {
        return Err(AnalysisError::ZeroVariance { operator, input });
    }
    if v.nb_partitions() != nb_partitions {
        return Err(AnalysisError::InvalidVariance { operator, input });
    }
    match v.partition() {
        None => Err(AnalysisError::UnsetVariance { operator, input, partition }),
        Some(tag) => if tag != partition {
            Err(
                AnalysisError::PartitionMismatch {
                    operator,
                    input,
                    expected: partition,
                    observed: tag,
                },
            )
        } else {
            Ok(v.clone())
        },
    }
}

/// Reads the variances of the operands that go with the first `count`
/// weights.
fn operand_variances(
    out_variances: &Vec<Vec<SymbolicVariance>>,
    nb_partitions: usize,
    partition: PartitionIndex,
    inputs: &Vec<OperatorIndex>,
    count: usize,
) -> (r: Result<Vec<SymbolicVariance>, AnalysisError>)
    requires
        matrix_wf(out_variances@),
        inputs@.len() >= 1,
        inputs@.len() == 1 || count <= inputs@.len(),
    ensures
        variances_result_view(r) == collect_spec(
            reads_spec(matrix_view(out_variances@), nb_partitions, partition, inputs@, count as nat),
        ),
        r is Ok ==> variances_wf(r.unwrap()@),
{
    let ghost reads = reads_spec(
        matrix_view(out_variances@),
        nb_partitions,
        partition,
        inputs@,
        count as nat,
    );
    let mut variances: Vec<SymbolicVariance> = Vec::new();
    let mut j: usize = 0;
    while j < count
        invariant
            matrix_wf(out_variances@),
            inputs@.len() >= 1,
            inputs@.len() == 1 || count <= inputs@.len(),
            reads == reads_spec(
                matrix_view(out_variances@),
                nb_partitions,
                partition,
                inputs@,
                count as nat,
            ),
            j <= count,
            variances@.len() == j,
            variances_wf(variances@),
            forall|k: int| 0 <= k < j ==> reads[k] == Ok::<VarianceModel, AnalysisError>(variances@[k]@),
        decreases count - j,
    {
        let input: usize = if inputs.len() > 1 {
            inputs[j].i
        } else {
            inputs[0].i
        };
        match out_variance_of(out_variances, nb_partitions, partition, input) {
            Err(e) => {
                proof {
                    assert(reads[j as int] == Err::<VarianceModel, AnalysisError>(e));
                    assert(is_first_failure(reads, j as int));
                    let c = choose|c: int| is_first_failure(reads, c);
                    assert(c == j);
                }
                return Err(e);
            },
            Ok(v) => {
                variances.push(v);
            },
        }
        j += 1;
    }
    proof {
        let all = Seq::new(reads.len(), |j: int| reads[j]->Ok_0);
        assert(variances_view(variances@) =~= all);
    }
    Ok(variances)
}

/// Every variance of `vs` is well formed, over `nb` partitions, and belongs
/// to the partition `p`.
pub open spec fn operands_valid(vs: Seq<VarianceModel>, nb: nat, p: nat) -> bool {
    forall|k: int|
        0 <= k < vs.len() ==> {
            let v = #[trigger] vs[k];
            v.wf() && v.fits() && v.nb_partitions == nb && v.partition == Some(p)
        }
}

/// What was read without a fault is valid for the partition it was read in.
pub proof fn lemma_reads_valid(
    rows: Seq<Seq<VarianceModel>>,
    nb_partitions: usize,
    partition: PartitionIndex,
    inputs: Seq<OperatorIndex>,
    count: nat,
)
    requires
        collect_spec(reads_spec(rows, nb_partitions, partition, inputs, count)) is Ok,
    ensures
        ({
            let vs = collect_spec(reads_spec(rows, nb_partitions, partition, inputs, count))->Ok_0;
            vs.len() == count && operands_valid(vs, nb_partitions as nat, partition as nat)
        }),
{
    let reads = reads_spec(rows, nb_partitions, partition, inputs, count);
    let vs = collect_spec(reads)->Ok_0;
    assert forall|k: int| 0 <= k < vs.len() implies {
        let v = #[trigger] vs[k];
        v.wf() && v.fits() && v.nb_partitions == nb_partitions as nat && v.partition == Some(
            partition as nat,
        )
    } by {
        assert(reads[k] is Ok);
    }
}

/// The worst of several variances: `max` over all of them, from the first on.
pub open spec fn dominant_spec(vs: Seq<VarianceModel>) -> VarianceModel
    decreases vs.len(),
{
    if vs.len() <= 1 {
        vs[0]
    } else {
        dominant_spec(vs.drop_last()).max(vs.last())
    }
}

/// The worst of valid variances is valid.
pub proof fn lemma_dominant_valid(vs: Seq<VarianceModel>, nb: nat, p: nat)
    requires
        vs.len() >= 1,
        operands_valid(vs, nb, p),
    ensures
        dominant_spec(vs).wf(),
        dominant_spec(vs).nb_partitions == nb,
        dominant_spec(vs).partition == Some(p),
    decreases vs.len(),
{
    if vs.len() > 1 {
        let front = vs.drop_last();
        assert forall|k: int| 0 <= k < front.len() implies {
            let v = #[trigger] front[k];
            v.wf() && v.fits() && v.nb_partitions == nb && v.partition == Some(p)
        } by {
            assert(front[k] == vs[k]);
        }
        lemma_dominant_valid(front, nb, p);
    } else {
        assert(vs[0].wf());
    }
}

/// The square of a weight.
pub open spec fn square(weight: i64) -> nat {
    (weight * weight) as nat
}

/// The sum of the squares of the weights.
pub open spec fn sum_of_squares(weights: Seq<i64>) -> nat
    decreases weights.len(),
{
    if weights.len() == 0 {
        0
    } else {
        sum_of_squares(weights.drop_last()) + square(weights.last())
    }
}

/// The sum of the variances, each multiplied by the square of the weight of
/// the same position.
pub open spec fn weighted_sum_spec(vs: Seq<VarianceModel>, weights: Seq<i64>, nb: nat, p: nat) -> VarianceModel
    decreases vs.len(),
{
    if vs.len() == 0 || weights.len() == 0 {
        VarianceModel::null(nb, Some(p))
    } else {
        weighted_sum_spec(vs.drop_last(), weights.drop_last(), nb, p).plus(
            vs.last().scaled(square(weights.last())),
        )
    }
}

/// A weighted sum of valid variances is valid, and each of its coefficients
/// is the coefficient of the sum without the last term, plus that of the
/// last term.
pub proof fn lemma_weighted_sum_valid(vs: Seq<VarianceModel>, weights: Seq<i64>, nb: nat, p: nat)
    requires
        nb >= 1,
        operands_valid(vs, nb, p),
    ensures
        weighted_sum_spec(vs, weights, nb, p).wf(),
        weighted_sum_spec(vs, weights, nb, p).nb_partitions == nb,
        weighted_sum_spec(vs, weights, nb, p).partition == Some(p),
        vs.len() > 0 && weights.len() > 0 ==> forall|i: int|
            0 <= i < nb_coeffs(nb) ==> #[trigger] weighted_sum_spec(vs, weights, nb, p).coeffs[i]
                == weighted_sum_spec(vs.drop_last(), weights.drop_last(), nb, p).coeffs[i]
                + vs.last().coeffs[i] * square(weights.last()),
    decreases vs.len(),
{
    if vs.len() == 0 || weights.len() == 0 {
    } else {
        let front = vs.drop_last();
        assert forall|k: int| 0 <= k < front.len() implies {
            let v = #[trigger] front[k];
            v.wf() && v.fits() && v.nb_partitions == nb && v.partition == Some(p)
        } by {
            assert(front[k] == vs[k]);
        }
        lemma_weighted_sum_valid(front, weights.drop_last(), nb, p);
        assert(vs.last().wf());
    }
}

/// A weighted sum of a part of the terms is at most the sum of all of them,
/// in every coefficient.
pub proof fn lemma_weighted_sum_prefix(
    vs: Seq<VarianceModel>,
    weights: Seq<i64>,
    nb: nat,
    p: nat,
    j: int,
)
    requires
        nb >= 1,
        operands_valid(vs, nb, p),
        vs.len() == weights.len(),
        0 <= j <= vs.len(),
    ensures
        forall|i: int|
            0 <= i < nb_coeffs(nb) ==> #[trigger] weighted_sum_spec(
                vs.take(j),
                weights.take(j),
                nb,
                p,
            ).coeffs[i] <= weighted_sum_spec(vs, weights, nb, p).coeffs[i],
    decreases vs.len(),
{
    if j == vs.len() {
        assert(vs.take(j) =~= vs);
        assert(weights.take(j) =~= weights);
    } else {
        let front = vs.drop_last();
        assert forall|k: int| 0 <= k < front.len() implies {
            let v = #[trigger] front[k];
            v.wf() && v.fits() && v.nb_partitions == nb && v.partition == Some(p)
        } by {
            assert(front[k] == vs[k]);
        }
        lemma_weighted_sum_prefix(front, weights.drop_last(), nb, p, j);
        assert(front.take(j) =~= vs.take(j));
        assert(weights.drop_last().take(j) =~= weights.take(j));
        lemma_weighted_sum_valid(vs, weights, nb, p);
        assert forall|i: int| 0 <= i < nb_coeffs(nb) implies #[trigger] weighted_sum_spec(
            vs.take(j),
            weights.take(j),
            nb,
            p,
        ).coeffs[i] <= weighted_sum_spec(vs, weights, nb, p).coeffs[i] by {
            assert(vs.last().coeffs[i] * square(weights.last()) >= 0) by (nonlinear_arith)
                requires
                    vs.last().coeffs[i] >= 0,
                    square(weights.last()) >= 0,
            ;
        }
    }
}

/// The variance of the result of `op` in its own partition, from the rows of
/// the operators before it.
pub open spec fn home_variance_spec(
    op: OperatorView,
    out_shapes: Seq<Seq<u64>>,
    rows: Seq<Seq<VarianceModel>>,
    nb_partitions: usize,
    partition: PartitionIndex,
) -> Result<VarianceModel, AnalysisError> {
    let operator = rows.len() as usize;
    match op {
        OperatorView::Input { .. } => Ok(VarianceModel::input(nb_partitions as nat, partition as nat)),
        OperatorView::Lut { .. } => Ok(
            VarianceModel::after_pbs(nb_partitions as nat, partition as nat),
        ),
        OperatorView::LevelledOp { inputs, manp, .. } => {
            if inputs.len() == 0 {
                Err(AnalysisError::MissingInput { operator })
            } else {
                match collect_spec(
                    reads_spec(rows, nb_partitions, partition, inputs, inputs.len()),
                ) {
                    Err(e) => Err(e),
                    Ok(vs) => {
                        let v = dominant_spec(vs).after_levelled_op(manp as nat);
                        if v.fits() {
                            Ok(v)
                        } else {
                            Err(AnalysisError::Overflow { operator })
                        }
                    },
                }
            }
        },
        OperatorView::Dot { inputs, weights, .. } => {
            if inputs.len() == 0 {
                Err(AnalysisError::MissingInput { operator })
            } else if inputs[0].i >= out_shapes.len() {
                Err(AnalysisError::OperatorOutOfRange { operator, input: inputs[0].i })
            } else {
                match dot_kind_spec(
                    inputs.len() as u64,
                    out_shapes[inputs[0].i as int],
                    op->Dot_weights_shape,
                ) {
                    DotKind::CompatibleTensor => Err(AnalysisError::NotImplementedDot { operator }),
                    DotKind::Unsupported => Err(AnalysisError::UnsupportedDot { operator }),
                    _ => {
                        if inputs.len() > 1 && weights.len() > inputs.len() {
                            Err(AnalysisError::MissingInput { operator })
                        } else {
                            match collect_spec(
                                reads_spec(
                                    rows,
                                    nb_partitions,
                                    partition,
                                    inputs,
                                    weights.len(),
                                ),
                            ) {
                                Err(e) => Err(e),
                                Ok(vs) => {
                                    let v = weighted_sum_spec(
                                        vs,
                                        weights,
                                        nb_partitions as nat,
                                        partition as nat,
                                    );
                                    if v.fits() {
                                        Ok(v)
                                    } else {
                                        Err(AnalysisError::Overflow { operator })
                                    }
                                },
                            }
                        }
                    },
                }
            }
        },
        OperatorView::UnsafeCast { input, .. } => read_spec(rows, nb_partitions, partition, input.i),
        OperatorView::Round { .. } => Err(AnalysisError::RoundNotExpanded { operator }),
    }
}

/// The variance of an operator in its own partition is valid for it.
pub proof fn lemma_home_variance_valid(
    op: OperatorView,
    out_shapes: Seq<Seq<u64>>,
    rows: Seq<Seq<VarianceModel>>,
    nb_partitions: usize,
    partition: PartitionIndex,
)
    requires
        partition < nb_partitions,
        home_variance_spec(op, out_shapes, rows, nb_partitions, partition) is Ok,
    ensures
        ({
            let v = home_variance_spec(op, out_shapes, rows, nb_partitions, partition)->Ok_0;
            &&& v.wf()
            &&& v.fits()
            &&& v.nb_partitions == nb_partitions
            &&& v.partition == Some(partition as nat)
        }),
{
    let nb = nb_partitions as nat;
    let p = partition as nat;
    match op {
        OperatorView::Input { .. } => {
            let v = VarianceModel::input(nb, p);
            crate::symbolic_variance::lemma_per_partition_index_in_range(nb, p);
            assert forall|i: int| 0 <= i < v.coeffs.len() implies #[trigger] v.coeffs[i] <= 1 by {}
        },
        OperatorView::Lut { .. } => {
            let v = VarianceModel::after_pbs(nb, p);
            crate::symbolic_variance::lemma_per_partition_index_in_range(nb, p);
            assert forall|i: int| 0 <= i < v.coeffs.len() implies #[trigger] v.coeffs[i] <= 1 by {}
        },
        OperatorView::LevelledOp { inputs, manp, .. } => {
            lemma_reads_valid(rows, nb_partitions, partition, inputs, inputs.len());
            let vs = collect_spec(
                reads_spec(rows, nb_partitions, partition, inputs, inputs.len()),
            )->Ok_0;
            lemma_dominant_valid(vs, nb, p);
        },
        OperatorView::Dot { inputs, weights, .. } => {
            lemma_reads_valid(rows, nb_partitions, partition, inputs, weights.len());
            let vs = collect_spec(
                reads_spec(rows, nb_partitions, partition, inputs, weights.len()),
            )->Ok_0;
            lemma_weighted_sum_valid(vs, weights, nb, p);
        },
        OperatorView::UnsafeCast { input, .. } => {},
        OperatorView::Round { .. } => {},
    }
}

fn square_of(weight: i64) -> (s: u128)
    ensures
        s == square(weight),
{
    let w: i128 = weight as i128;
    assert(0 <= w * w <= 0x4000_0000_0000_0000_0000_0000_0000_0000) by (nonlinear_arith)
        requires
            -0x8000_0000_0000_0000 <= w <= 0x8000_0000_0000_0000,
    ;
    (w * w) as u128
}

/// The worst of the variances that were read.
fn dominant(variances: &Vec<SymbolicVariance>, nb_partitions: usize, partition: PartitionIndex) -> (r:
    SymbolicVariance)
    requires
        variances@.len() >= 1,
        variances_wf(variances@),
        operands_valid(variances_view(variances@), nb_partitions as nat, partition as nat),
    ensures
        r.wf(),
        r@ == dominant_spec(variances_view(variances@)),
{
    let ghost vs = variances_view(variances@);
    let n: usize = variances.len();
    let mut acc = variances[0].clone();
    let mut j: usize = 1;
    proof {
        assert(vs.take(1).len() == 1);
        assert(vs.take(1)[0] == vs[0]);
    }
    while j < n
        invariant
            n == variances@.len(),
            1 <= j <= n,
            vs == variances_view(variances@),
            variances_wf(variances@),
            operands_valid(vs, nb_partitions as nat, partition as nat),
            acc.wf(),
            acc@ == dominant_spec(vs.take(j as int)),
            acc@.nb_partitions == nb_partitions,
        decreases n - j,
    {
        proof {
            assert(vs[j as int].nb_partitions == nb_partitions);
            assert(vs.take(j + 1).drop_last() =~= vs.take(j as int));
            assert(vs.take(j + 1).last() == vs[j as int]);
        }
        acc = acc.max(&variances[j]);
        j += 1;
    }
    proof {
        assert(vs.take(n as int) =~= vs);
    }
    acc
}

/// The sum of the variances that were read, each multiplied by the square
/// of its weight; `None` where a coefficient of the sum exceeds 128 bits.
fn weighted_sum(
    variances: &Vec<SymbolicVariance>,
    weights: &Vec<i64>,
    nb_partitions: usize,
    partition: PartitionIndex,
) -> (r: Option<SymbolicVariance>)
    requires
        nb_coeffs(nb_partitions as nat) <= usize::MAX,
        partition < nb_partitions,
        variances@.len() == weights@.len(),
        variances_wf(variances@),
        operands_valid(variances_view(variances@), nb_partitions as nat, partition as nat),
    ensures
        r is Some <==> weighted_sum_spec(
            variances_view(variances@),
            weights@,
            nb_partitions as nat,
            partition as nat,
        ).fits(),
        r is Some ==> r.unwrap().wf() && r.unwrap()@ == weighted_sum_spec(
            variances_view(variances@),
            weights@,
            nb_partitions as nat,
            partition as nat,
        ),
{
    let ghost vs = variances_view(variances@);
    let ghost nb = nb_partitions as nat;
    let ghost p = partition as nat;
    let ghost total = weighted_sum_spec(vs, weights@, nb, p);
    let n: usize = variances.len();
    let mut acc = SymbolicVariance::null_of(nb_partitions, partition);
    let mut j: usize = 0;
    proof {
        lemma_weighted_sum_valid(vs, weights@, nb, p);
    }
    while j < n
        invariant
            n == variances@.len(),
            n == weights@.len(),
            j <= n,
            nb >= 1,
            nb == nb_partitions,
            p == partition,
            vs == variances_view(variances@),
            variances_wf(variances@),
            operands_valid(vs, nb, p),
            total == weighted_sum_spec(vs, weights@, nb, p),
            total.wf(),
            total.nb_partitions == nb,
            acc.wf(),
            acc@ == weighted_sum_spec(vs.take(j as int), weights@.take(j as int), nb, p),
        decreases n - j,
    {
        let ghost next = weighted_sum_spec(vs.take(j + 1), weights@.take(j + 1), nb, p);
        proof {
            assert(vs.take(j + 1).drop_last() =~= vs.take(j as int));
            assert(weights@.take(j + 1).drop_last() =~= weights@.take(j as int));
            assert(vs.take(j + 1).last() == vs[j as int]);
            assert(weights@.take(j + 1).last() == weights@[j as int]);
            assert forall|k: int| 0 <= k < vs.take(j + 1).len() implies {
                let v = #[trigger] vs.take(j + 1)[k];
                v.wf() && v.fits() && v.nb_partitions == nb && v.partition == Some(p)
            } by {
                assert(vs.take(j + 1)[k] == vs[k]);
            }
            lemma_weighted_sum_valid(vs.take(j + 1), weights@.take(j + 1), nb, p);
            lemma_weighted_sum_valid(vs.take(j as int), weights@.take(j as int), nb, p);
            lemma_weighted_sum_prefix(vs, weights@, nb, p, j + 1);
            assert(vs[j as int].wf());
        }
        let term = match variances[j].scaled(square_of(weights[j])) {
            Some(term) => term,
            None => {
                proof {
                    let scaled = vs[j as int].scaled(square(weights@[j as int]));
                    let i = choose|i: int| 0 <= i < scaled.coeffs.len() && scaled.coeffs[i] > u128::MAX;
                    assert(next.coeffs[i] >= scaled.coeffs[i]);
                    assert(total.coeffs[i] > u128::MAX);
                }
                return None;
            },
        };
        acc = match acc.checked_add(&term) {
            Some(sum) => sum,
            None => {
                proof {
                    let i = choose|i: int| 0 <= i < next.coeffs.len() && next.coeffs[i] > u128::MAX;
                    assert(total.coeffs[i] > u128::MAX);
                }
                return None;
            },
        };
        j += 1;
    }
    proof {
        assert(vs.take(n as int) =~= vs);
        assert(weights@.take(n as int) =~= weights@);
        acc.lemma_view_wf();
    }
    Some(acc)
}

/// Computes the variance of the result of `op` in its own partition.
fn home_variance(
    op: &Operator,
    out_shapes: &Vec<Shape>,
    out_variances: &Vec<Vec<SymbolicVariance>>,
    nb_partitions: usize,
    partition: PartitionIndex,
) -> (r: Result<SymbolicVariance, AnalysisError>)
    requires
        nb_coeffs(nb_partitions as nat) <= usize::MAX,
        partition < nb_partitions,
        matrix_wf(out_variances@),
    ensures
        variance_result_view(r) == home_variance_spec(
            op@,
            shapes_view(out_shapes@),
            matrix_view(out_variances@),
            nb_partitions,
            partition,
        ),
        r is Ok ==> r.unwrap().wf(),
{
    let operator: usize = out_variances.len();
    let ghost rows = matrix_view(out_variances@);
    match op {
        Operator::Input { .. } => Ok(SymbolicVariance::input(nb_partitions, partition)),
        Operator::Lut { .. } => Ok(SymbolicVariance::after_pbs(nb_partitions, partition)),
        Operator::LevelledOp { inputs, manp, .. } => {
            if inputs.len() == 0 {
                return Err(AnalysisError::MissingInput { operator });
            }
            let variances = operand_variances(
                out_variances,
                nb_partitions,
                partition,
                inputs,
                inputs.len(),
            )?;
            proof {
                lemma_reads_valid(rows, nb_partitions, partition, inputs@, inputs@.len());
            }
            let worst = dominant(&variances, nb_partitions, partition);
            match worst.after_levelled_op(*manp) {
                Some(v) => Ok(v),
                None => Err(AnalysisError::Overflow { operator }),
            }
        },
        Operator::Dot { inputs, weights } => {
            if inputs.len() == 0 {
                return Err(AnalysisError::MissingInput { operator });
            }
            let first: usize = inputs[0].i;
            if first >= out_shapes.len() {
                return Err(AnalysisError::OperatorOutOfRange { operator, input: first });
            }
            match dot_kind(inputs.len() as u64, &out_shapes[first], weights) {
                DotKind::CompatibleTensor => Err(AnalysisError::NotImplementedDot { operator }),
                DotKind::Unsupported => Err(AnalysisError::UnsupportedDot { operator }),
                _ => {
                    if inputs.len() > 1 && weights.values.len() > inputs.len() {
                        return Err(AnalysisError::MissingInput { operator });
                    }
                    let variances = operand_variances(
                        out_variances,
                        nb_partitions,
                        partition,
                        inputs,
                        weights.values.len(),
                    )?;
                    proof {
                        lemma_reads_valid(
                            rows,
                            nb_partitions,
                            partition,
                            inputs@,
                            weights.values@.len(),
                        );
                    }
                    match weighted_sum(&variances, &weights.values, nb_partitions, partition) {
                        Some(v) => Ok(v),
                        None => Err(AnalysisError::Overflow { operator }),
                    }
                },
            }
        },
        Operator::UnsafeCast { input, .. } => out_variance_of(
            out_variances,
            nb_partitions,
            partition,
            input.i,
        ),
        Operator::Round { .. } => Err(AnalysisError::RoundNotExpanded { operator }),
    }
}

/// The variance of a result in the partition `q`, its variance in its own
/// partition being `home`: `home` itself in its own partition, converted
/// where a copy is expected, and unset elsewhere.
pub open spec fn column_spec(
    home: VarianceModel,
    nb_partitions: usize,
    instr_partition: InstructionPartitionView,
    q: int,
) -> VarianceModel {
    let p = instr_partition.instruction_partition;
    if q == p {
        home
    } else if instr_partition.alternatives.contains(q as usize) {
        home.after_partition_keyswitch_to_big(p as nat, q as nat)
    } else {
        VarianceModel::unset(nb_partitions as nat)
    }
}

/// A copy is expected in `q`, and the conversion to `q` has a coefficient
/// that exceeds 128 bits.
pub open spec fn conversion_overflows(
    home: VarianceModel,
    instr_partition: InstructionPartitionView,
    q: PartitionIndex,
) -> bool {
    let p = instr_partition.instruction_partition;
    &&& instr_partition.alternatives.contains(q)
    &&& q != p
    &&& !home.after_partition_keyswitch_to_big(p as nat, q as nat).fits()
}

/// The variances of the result of `op` in every partition, from the rows of
/// the operators before it.
pub open spec fn row_spec(
    op: OperatorView,
    out_shapes: Seq<Seq<u64>>,
    rows: Seq<Seq<VarianceModel>>,
    nb_partitions: usize,
    instr_partition: InstructionPartitionView,
) -> Result<Seq<VarianceModel>, AnalysisError> {
    let operator = rows.len() as usize;
    let partition = instr_partition.instruction_partition;
    if partition >= nb_partitions {
        Err(AnalysisError::PartitionOutOfRange { operator, partition })
    } else if exists|q: PartitionIndex| #[trigger]
        instr_partition.alternatives.contains(q) && q >= nb_partitions {
        Err(AnalysisError::AlternativeOutOfRange { operator })
    } else {
        match home_variance_spec(op, out_shapes, rows, nb_partitions, partition) {
            Err(e) => Err(e),
            Ok(home) => {
                if exists|q: PartitionIndex| #[trigger] conversion_overflows(home, instr_partition, q) {
                    Err(AnalysisError::Overflow { operator })
                } else {
                    Ok(
                        Seq::new(
                            nb_partitions as nat,
                            |q: int| column_spec(home, nb_partitions, instr_partition, q),
                        ),
                    )
                }
            },
        }
    }
}

/// What holds of the row of an operator: it has a column for each partition,
/// with a well-formed variance over all the partitions, whose coefficients fit
/// in 128 bits; in the partition of the operator stands a variance that was
/// computed, for that partition; in each partition where a copy is expected
/// stands the conversion of that variance; every other column is unset.
pub open spec fn row_invariant(
    row: Seq<VarianceModel>,
    nb_partitions: usize,
    instr_partition: InstructionPartitionView,
) -> bool {
    let p = instr_partition.instruction_partition;
    &&& row.len() == nb_partitions
    &&& p < nb_partitions
    &&& forall|q: int|
        0 <= q < nb_partitions ==> {
            let v = #[trigger] row[q];
            v.wf() && v.fits() && v.nb_partitions == nb_partitions
        }
    &&& row[p as int].partition == Some(p as nat)
    &&& forall|q: int|
        0 <= q < nb_partitions && q != p ==> #[trigger] row[q] == if instr_partition.alternatives.contains(
            q as usize,
        ) {
            row[p as int].after_partition_keyswitch_to_big(p as nat, q as nat)
        } else {
            VarianceModel::unset(nb_partitions as nat)
        }
}

/// What holds of the variances of a circuit: a row for each operator, each
/// as `row_invariant` says.
pub open spec fn matrix_invariant(
    rows: Seq<Seq<VarianceModel>>,
    nb_partitions: usize,
    instrs_partition: Seq<InstructionPartitionView>,
) -> bool {
    &&& rows.len() == instrs_partition.len()
    &&& forall|i: int|
        0 <= i < rows.len() ==> row_invariant(#[trigger] rows[i], nb_partitions, instrs_partition[i])
}

/// Whatever the operator and the rows before it, a row that is computed
/// without a fault satisfies `row_invariant`.
pub proof fn lemma_row_invariant(
    op: OperatorView,
    out_shapes: Seq<Seq<u64>>,
    rows: Seq<Seq<VarianceModel>>,
    nb_partitions: usize,
    instr_partition: InstructionPartitionView,
)
    requires
        row_spec(op, out_shapes, rows, nb_partitions, instr_partition) is Ok,
    ensures
        row_invariant(
            row_spec(op, out_shapes, rows, nb_partitions, instr_partition)->Ok_0,
            nb_partitions,
            instr_partition,
        ),
{
    let p = instr_partition.instruction_partition;
    lemma_home_variance_valid(op, out_shapes, rows, nb_partitions, p);
    let home = home_variance_spec(op, out_shapes, rows, nb_partitions, p)->Ok_0;
    let row = row_spec(op, out_shapes, rows, nb_partitions, instr_partition)->Ok_0;
    assert forall|q: int| 0 <= q < nb_partitions implies {
        let v = #[trigger] row[q];
        v.wf() && v.fits() && v.nb_partitions == nb_partitions
    } by {
        assert(row[q] == column_spec(home, nb_partitions, instr_partition, q));
        if q == p {
            assert(row[q] == home);
        } else if instr_partition.alternatives.contains(q as usize) {
            let converted = home.after_partition_keyswitch_to_big(p as nat, q as nat);
            assert(!conversion_overflows(home, instr_partition, q as usize));
            crate::symbolic_variance::lemma_keyswitch_index_in_range(
                nb_partitions as nat,
                p as nat,
                q as nat,
            );
        } else {
            let unset = VarianceModel::unset(nb_partitions as nat);
            assert forall|i: int| 0 <= i < unset.coeffs.len() implies #[trigger] unset.coeffs[i]
                <= u128::MAX by {}
        }
    }
}

/// Computes the variances of the result of `op`, the operator that comes
/// after those of `out_variances`, in every partition.
pub fn out_variance(
    op: &Operator,
    out_shapes: &Vec<Shape>,
    out_variances: &Vec<Vec<SymbolicVariance>>,
    nb_partitions: usize,
    instr_partition: &InstructionPartition,
) -> (r: Result<Vec<SymbolicVariance>, AnalysisError>)
    requires
        nb_coeffs(nb_partitions as nat) <= usize::MAX,
        matrix_wf(out_variances@),
    ensures
        variances_result_view(r) == row_spec(
            op@,
            shapes_view(out_shapes@),
            matrix_view(out_variances@),
            nb_partitions,
            instr_partition@,
        ),
        r is Ok ==> variances_wf(r.unwrap()@) && r.unwrap()@.len() == nb_partitions,
{
    let operator: usize = out_variances.len();
    let partition: PartitionIndex = instr_partition.instruction_partition;
    assert(matrix_view(out_variances@).len() == operator);
    if partition >= nb_partitions {
        return Err(AnalysisError::PartitionOutOfRange { operator, partition });
    }
    let nb_alternatives: usize = instr_partition.alternative_output_representation.len();
    let mut k: usize = 0;
    while k < nb_alternatives
        invariant
            operator == matrix_view(out_variances@).len(),
            partition == instr_partition.instruction_partition,
            partition < nb_partitions,
            nb_alternatives == instr_partition.alternative_output_representation@.len(),
            k <= nb_alternatives,
            forall|j: int|
                0 <= j < k ==> instr_partition.alternative_output_representation@[j] < nb_partitions,
        decreases nb_alternatives - k,
    {
        if instr_partition.alternative_output_representation[k] >= nb_partitions {
            proof {
                let q = instr_partition.alternative_output_representation@[k as int];
                assert(instr_partition.alternative_output_representation@.contains(q));
                assert(instr_partition@.alternatives.contains(q) && q >= nb_partitions);
            }
            return Err(AnalysisError::AlternativeOutOfRange { operator });
        }
        k += 1;
    }
    assert forall|q: PartitionIndex| #[trigger]
        instr_partition@.alternatives.contains(q) implies q < nb_partitions by {
        let j = choose|j: int|
            0 <= j < instr_partition.alternative_output_representation@.len()
                && instr_partition.alternative_output_representation@[j] == q;
    }
    let variance = home_variance(op, out_shapes, out_variances, nb_partitions, partition)?;
    proof {
        lemma_home_variance_valid(
            op@,
            shapes_view(out_shapes@),
            matrix_view(out_variances@),
            nb_partitions,
            partition,
        );
    }
    let mut result: Vec<SymbolicVariance> = Vec::new();
    let mut q: usize = 0;
    while q < nb_partitions
        invariant
            nb_coeffs(nb_partitions as nat) <= usize::MAX,
            operator == matrix_view(out_variances@).len(),
            partition == instr_partition.instruction_partition,
            partition < nb_partitions,
            forall|q: PartitionIndex| #[trigger]
                instr_partition@.alternatives.contains(q) ==> q < nb_partitions,
            home_variance_spec(
                op@,
                shapes_view(out_shapes@),
                matrix_view(out_variances@),
                nb_partitions,
                partition,
            ) == Ok::<VarianceModel, AnalysisError>(variance@),
            variance.wf(),
            variance@.nb_partitions == nb_partitions,
            q <= nb_partitions,
            result@.len() == q,
            variances_wf(result@),
            forall|c: int|
                0 <= c < q ==> (#[trigger] result@[c])@ == column_spec(
                    variance@,
                    nb_partitions,
                    instr_partition@,
                    c,
                ),
            forall|c: PartitionIndex| c < q ==> !conversion_overflows(variance@, instr_partition@, c),
        decreases nb_partitions - q,
    {
        if q == partition {
            result.push(variance.clone());
        } else if instr_partition.has_alternative(q) {
            match variance.after_partition_keyswitch_to_big(partition, q) {
                Some(converted) => {
                    result.push(converted);
                },
                None => {
                    assert(conversion_overflows(variance@, instr_partition@, q));
                    return Err(AnalysisError::Overflow { operator });
                },
            }
        } else {
            result.push(SymbolicVariance::unset(nb_partitions));
        }
        q += 1;
    }
    proof {
        assert forall|c: PartitionIndex| !#[trigger] conversion_overflows(
            variance@,
            instr_partition@,
            c,
        ) by {
            if instr_partition@.alternatives.contains(c) {
                assert(c < nb_partitions);
            }
        }
        assert(variances_view(result@) =~= Seq::new(
            nb_partitions as nat,
            |q: int| column_spec(variance@, nb_partitions, instr_partition@, q),
        ));
    }
    Ok(result)
}

/// The rows of the first `n` operators.
pub open spec fn propagate_spec(
    operators: Seq<OperatorView>,
    out_shapes: Seq<Seq<u64>>,
    nb_partitions: usize,
    instrs_partition: Seq<InstructionPartitionView>,
    n: nat,
) -> Result<Seq<Seq<VarianceModel>>, AnalysisError>
    decreases n,
{
    if n == 0 {
        Ok(Seq::empty())
    } else {
        match propagate_spec(operators, out_shapes, nb_partitions, instrs_partition, (n - 1) as nat) {
            Err(e) => Err(e),
            Ok(rows) => match row_spec(
                operators[n - 1],
                out_shapes,
                rows,
                nb_partitions,
                instrs_partition[n - 1],
            ) {
                Err(e) => Err(e),
                Ok(row) => Ok(rows.push(row)),
            },
        }
    }
}

/// The variances of a circuit whose operators have the partitions
/// `instrs_partition`: the rows of all the operators, or the first fault met
/// in the order of the circuit.
pub open spec fn out_variances_spec(
    dag: DagView,
    nb_partitions: usize,
    instrs_partition: Seq<InstructionPartitionView>,
) -> Result<Seq<Seq<VarianceModel>>, AnalysisError> {
    if dag.operators.len() != instrs_partition.len() {
        Err(
            AnalysisError::InconsistentAssignment {
                nb_operators: dag.operators.len() as usize,
                nb_assigned: instrs_partition.len() as usize,
            },
        )
    } else {
        propagate_spec(
            dag.operators,
            dag.out_shapes,
            nb_partitions,
            instrs_partition,
            dag.operators.len(),
        )
    }
}

/// A fault met among the first operators is the fault of the whole circuit.
pub proof fn lemma_propagate_fault_persists(
    operators: Seq<OperatorView>,
    out_shapes: Seq<Seq<u64>>,
    nb_partitions: usize,
    instrs_partition: Seq<InstructionPartitionView>,
    i: nat,
    n: nat,
)
    requires
        i <= n,
        propagate_spec(operators, out_shapes, nb_partitions, instrs_partition, i) is Err,
    ensures
        propagate_spec(operators, out_shapes, nb_partitions, instrs_partition, n) == propagate_spec(
            operators,
            out_shapes,
            nb_partitions,
            instrs_partition,
            i,
        ),
    decreases n,
{
    if i < n {
        lemma_propagate_fault_persists(
            operators,
            out_shapes,
            nb_partitions,
            instrs_partition,
            i,
            (n - 1) as nat,
        );
    }
}

/// The rows of the first `n` operators, where they are computed without a
/// fault, are `n` rows that each satisfy `row_invariant`.
pub proof fn lemma_propagate_invariant(
    operators: Seq<OperatorView>,
    out_shapes: Seq<Seq<u64>>,
    nb_partitions: usize,
    instrs_partition: Seq<InstructionPartitionView>,
    n: nat,
)
    requires
        propagate_spec(operators, out_shapes, nb_partitions, instrs_partition, n) is Ok,
    ensures
        ({
            let rows = propagate_spec(operators, out_shapes, nb_partitions, instrs_partition, n)->Ok_0;
            &&& rows.len() == n
            &&& forall|i: int|
                0 <= i < n ==> row_invariant(#[trigger] rows[i], nb_partitions, instrs_partition[i])
        }),
    decreases n,
{
    if n > 0 {
        let before = propagate_spec(
            operators,
            out_shapes,
            nb_partitions,
            instrs_partition,
            (n - 1) as nat,
        );
        lemma_propagate_invariant(
            operators,
            out_shapes,
            nb_partitions,
            instrs_partition,
            (n - 1) as nat,
        );
        lemma_row_invariant(
            operators[n - 1],
            out_shapes,
            before->Ok_0,
            nb_partitions,
            instrs_partition[n - 1],
        );
    }
}

/// Computes the variance of the result of every operator of `dag` in every
/// partition, the operators having the partitions `instrs_partition`.
pub fn out_variances(
    dag: &OperationDag,
    nb_partitions: usize,
    instrs_partition: &[InstructionPartition],
) -> (r: Result<Vec<Vec<SymbolicVariance>>, AnalysisError>)
    requires
        nb_coeffs(nb_partitions as nat) <= usize::MAX,
    ensures
        matrix_result_view(r) == out_variances_spec(dag@, nb_partitions, partitions_view(instrs_partition@)),
        r is Ok ==> matrix_wf(r.unwrap()@) && matrix_invariant(
            matrix_view(r.unwrap()@),
            nb_partitions,
            partitions_view(instrs_partition@),
        ),
{
    let nb_ops: usize = dag.operators.len();
    if instrs_partition.len() != nb_ops {
        return Err(
            AnalysisError::InconsistentAssignment {
                nb_operators: nb_ops,
                nb_assigned: instrs_partition.len(),
            },
        );
    }
    let mut out_variances: Vec<Vec<SymbolicVariance>> = Vec::with_capacity(nb_ops);
    let mut i: usize = 0;
    assert(matrix_view(out_variances@) =~= Seq::empty());
    while i < nb_ops
        invariant
            nb_coeffs(nb_partitions as nat) <= usize::MAX,
            nb_ops == dag.operators@.len(),
            nb_ops == instrs_partition@.len(),
            i <= nb_ops,
            out_variances@.len() == i,
            matrix_wf(out_variances@),
            propagate_spec(
                dag@.operators,
                dag@.out_shapes,
                nb_partitions,
                partitions_view(instrs_partition@),
                i as nat,
            ) == Ok::<Seq<Seq<VarianceModel>>, AnalysisError>(matrix_view(out_variances@)),
        decreases nb_ops - i,
    {
        let ghost before = out_variances@;
        match out_variance(
            &dag.operators[i],
            &dag.out_shapes,
            &out_variances,
            nb_partitions,
            &instrs_partition[i],
        ) {
            Err(e) => {
                proof {
                    lemma_propagate_fault_persists(
                        dag@.operators,
                        dag@.out_shapes,
                        nb_partitions,
                        partitions_view(instrs_partition@),
                        (i + 1) as nat,
                        nb_ops as nat,
                    );
                }
                return Err(e);
            },
            Ok(row) => {
                out_variances.push(row);
                proof {
                    assert(matrix_view(out_variances@) =~= matrix_view(before).push(
                        variances_view(row@),
                    ));
                }
            },
        }
        i += 1;
    }
    proof {
        lemma_propagate_invariant(
            dag@.operators,
            dag@.out_shapes,
            nb_partitions,
            partitions_view(instrs_partition@),
            nb_ops as nat,
        );
    }
    Ok(out_variances)
}

/// A circuit with the variance of every operator in every partition.
#[derive(Debug, PartialEq, Eq)]
pub struct AnalyzedDag {
    /// The operators, without any rounding.
    pub operators: Vec<Operator>,
    pub nb_partitions: usize,
    /// The partition of each operator.
    pub instrs_partition: Vec<InstructionPartition>,
    /// The variance of the result of each operator, in each partition.
    pub out_variances: Vec<Vec<SymbolicVariance>>,
    /// The cost of the linear operations of the whole circuit.
    pub levelled_complexity: LevelledComplexity,
}

/// The mathematical value of an analyzed circuit.
pub struct AnalyzedDagView {
    pub operators: Seq<OperatorView>,
    pub nb_partitions: usize,
    pub instrs_partition: Seq<InstructionPartitionView>,
    pub out_variances: Seq<Seq<VarianceModel>>,
    pub levelled_complexity: LevelledComplexity,
}

impl View for AnalyzedDag {
    type V = AnalyzedDagView;

    open spec fn view(&self) -> AnalyzedDagView {
        AnalyzedDagView {
            operators: operators_view(self.operators@),
            nb_partitions: self.nb_partitions,
            instrs_partition: partitions_view(self.instrs_partition@),
            out_variances: matrix_view(self.out_variances@),
            levelled_complexity: self.levelled_complexity,
        }
    }
}

impl AnalyzedDag {
    /// Every variance is well formed, no partition is asked twice for a copy
    /// of the same result, and the variances are as
    /// `matrix_invariant` says: a row for each operator and a column for each
    /// partition; a computed variance in the partition of each operator, its
    /// conversion where a copy is expected, and nothing elsewhere.
    pub open spec fn wf(&self) -> bool {
        &&& matrix_wf(self.out_variances@)
        &&& forall|j: int|
            0 <= j < self.instrs_partition@.len() ==> (#[trigger] self.instrs_partition@[j]).wf()
        &&& self@.operators.len() == self@.instrs_partition.len()
        &&& matrix_invariant(self@.out_variances, self@.nb_partitions, self@.instrs_partition)
    }
}

/// The value of an analyzed circuit, or the fault met in place of it.
pub open spec fn analysis_result_view(r: Result<AnalyzedDag, AnalysisError>) -> Result<
    AnalyzedDagView,
    AnalysisError,
> {
    match r {
        Ok(analyzed) => Ok(analyzed@),
        Err(e) => Err(e),
    }
}

/// The analysis of `dag`: with more than one threshold, nothing is done;
/// else the roundings are expanded, the partitions are chosen, and the
/// variances are propagated. The cost of the linear operations is left at
/// zero.
pub open spec fn analyze_spec(
    dag: DagView,
    p_cut: Seq<Precision>,
    default_partition: PartitionIndex,
) -> Result<AnalyzedDagView, AnalysisError> {
    if p_cut.len() > 1 {
        Err(AnalysisError::TooManyPrecisionCuts { nb_cuts: p_cut.len() as usize })
    } else {
        match expand_round_spec(dag) {
            Err(e) => Err(e),
            Ok(expanded) => {
                let partitions = partitions_spec(expanded, p_cut, default_partition);
                match out_variances_spec(
                    expanded,
                    partitions.nb_partitions,
                    partitions.instrs_partition,
                ) {
                    Err(e) => Err(e),
                    Ok(out_variances) => Ok(
                        AnalyzedDagView {
                            operators: expanded.operators,
                            nb_partitions: partitions.nb_partitions,
                            instrs_partition: partitions.instrs_partition,
                            out_variances,
                            levelled_complexity: LevelledComplexity::zero_spec(),
                        },
                    ),
                }
            },
        }
    }
}

/// Analyzes `dag`: expands its roundings, chooses the partition of every
/// operator for the thresholds `p_cut` and the preferred partition
/// `default_partition`, and computes the variance of every operator in every
/// partition.
///
/// With at most one threshold and a preferred partition among the two, the
/// partitions chosen fit the circuit, so the analysis stops only on a
/// rounding that cannot be expanded or on a fault of the circuit itself.
pub fn analyze(
    dag: &OperationDag,
    _noise_config: &NoiseBoundConfig,
    p_cut: &PrecisionCut,
    default_partition: PartitionIndex,
) -> (r: Result<AnalyzedDag, AnalysisError>)
    requires
        dag@.wf(),
    ensures
        analysis_result_view(r) == analyze_spec(dag@, p_cut@, default_partition),
        r is Ok ==> r.unwrap().wf(),
        r is Ok ==> 1 <= r.unwrap().nb_partitions <= 2,
        r is Ok ==> forall|i: int|
            0 <= i < r.unwrap()@.operators.len() ==> !((#[trigger] r.unwrap()@.operators[i]) is Round),
        r is Err && p_cut@.len() <= 1 && default_partition <= 1 ==> r.unwrap_err() is InvalidRound
            || is_circuit_fault(r.unwrap_err()),
{
    if p_cut.p_cut.len() > 1 {
        return Err(AnalysisError::TooManyPrecisionCuts { nb_cuts: p_cut.p_cut.len() });
    }
    let expanded = expand_round(dag)?;
    let levelled_complexity = LevelledComplexity::zero();
    let partitions = partitionning_with_preferred(&expanded, p_cut, default_partition)?;
    let nb_partitions: usize = partitions.nb_partitions;
    assert(nb_coeffs(nb_partitions as nat) <= 8) by (nonlinear_arith)
        requires
            nb_partitions <= 2,
            nb_coeffs(nb_partitions as nat) == nb_partitions * (nb_partitions + 2),
    ;
    proof {
        if default_partition <= 1 {
            lemma_chosen_partitions_fit(expanded@, p_cut@, default_partition);
            lemma_fitting_partitions_propagate(
                expanded@,
                nb_partitions,
                partitions@.instrs_partition,
            );
        }
    }
    let out_variances = out_variances(
        &expanded,
        nb_partitions,
        partitions.instrs_partition.as_slice(),
    )?;
    Ok(
        AnalyzedDag {
            operators: expanded.operators,
            nb_partitions,
            instrs_partition: partitions.instrs_partition,
            out_variances,
            levelled_complexity,
        },
    )
}

} // verus!
