//! Roundings, replaced by the operators that compute them.

use crate::error::AnalysisError;
use crate::operator::{Operator, OperatorIndex, OperatorView, Precision};
use crate::unparametrized::{DagView, OperationDag, MAX_TRUNCATED_PRECISION};
use vstd::prelude::*;

verus! {

/// The operator `op` with each operand replaced by the operator that
/// `new_index` gives for it.
pub open spec fn remap_spec(op: OperatorView, new_index: Seq<OperatorIndex>) -> OperatorView {
    match op {
        OperatorView::Input { .. } => op,
        OperatorView::Lut { input, table, out_precision } => OperatorView::Lut {
            input: new_index[input.i as int],
            table,
            out_precision,
        },
        OperatorView::Dot { inputs, weights_shape, weights } => OperatorView::Dot {
            inputs: inputs.map_values(|j: OperatorIndex| new_index[j.i as int]),
            weights_shape,
            weights,
        },
        OperatorView::LevelledOp {
            inputs,
            complexity,
            manp,
            out_shape,
            comment,
        } => OperatorView::LevelledOp {
            inputs: inputs.map_values(|j: OperatorIndex| new_index[j.i as int]),
            complexity,
            manp,
            out_shape,
            comment,
        },
        OperatorView::UnsafeCast { input, out_precision } => OperatorView::UnsafeCast {
            input: new_index[input.i as int],
            out_precision,
        },
        OperatorView::Round { input, out_precision } => OperatorView::Round {
            input: new_index[input.i as int],
            out_precision,
        },
    }
}

/// A circuit under expansion: the operators written so far, and for each
/// operator read so far the operator that now holds its result.
pub struct Expansion {
    pub dag: DagView,
    pub new_index: Seq<OperatorIndex>,
}

/// A rounding of `input` to `out_precision` bits can be expanded: it takes
/// bits away, and from no more than 62.
pub open spec fn round_is_valid(dag: DagView, input: OperatorIndex, out_precision: Precision) -> bool {
    let in_precision = dag.out_precisions[input.i as int];
    &&& out_precision <= in_precision
    &&& out_precision == in_precision || in_precision <= MAX_TRUNCATED_PRECISION
}

/// The expansion of the first `n` operators of `dag`: every operator but a
/// rounding is written again, on the operators that now hold its operands; a
/// rounding is replaced by the operators that clear its lowest bits one by
/// one.
pub open spec fn expansion_spec(dag: DagView, n: nat) -> Result<Expansion, AnalysisError>
    decreases n,
{
    if n == 0 {
        Ok(Expansion { dag: DagView::empty(), new_index: Seq::empty() })
    } else {
        match expansion_spec(dag, (n - 1) as nat) {
            Err(e) => Err(e),
            Ok(before) => {
                let op = remap_spec(dag.operators[n - 1], before.new_index);
                match op {
                    OperatorView::Round { input, out_precision } => {
                        if round_is_valid(before.dag, input, out_precision) {
                            let (expanded, index) = before.dag.add_expanded_round(
                                input,
                                out_precision,
                            );
                            Ok(Expansion { dag: expanded, new_index: before.new_index.push(index) })
                        } else {
                            Err(AnalysisError::InvalidRound { operator: (n - 1) as usize })
                        }
                    },
                    _ => Ok(
                        Expansion {
                            dag: before.dag.add_operator(op),
                            new_index: before.new_index.push(
                                OperatorIndex { i: before.dag.operators.len() as usize },
                            ),
                        },
                    ),
                }
            },
        }
    }
}

/// The circuit that computes what `dag` computes without any rounding, or the
/// first rounding that cannot be expanded.
pub open spec fn expand_round_spec(dag: DagView) -> Result<DagView, AnalysisError> {
    match expansion_spec(dag, dag.operators.len()) {
        Ok(expansion) => Ok(expansion.dag),
        Err(e) => Err(e),
    }
}

/// A fault met among the first operators is the fault of the whole expansion.
pub proof fn lemma_expansion_fault_persists(dag: DagView, i: nat, n: nat)
    requires
        i <= n,
        expansion_spec(dag, i) is Err,
    ensures
        expansion_spec(dag, n) == expansion_spec(dag, i),
    decreases n,
{
    if i < n {
        lemma_expansion_fault_persists(dag, i, (n - 1) as nat);
    }
}

/// The value of a circuit, or the fault met in place of it.
pub open spec fn dag_result_view(r: Result<OperationDag, AnalysisError>) -> Result<
    DagView,
    AnalysisError,
> {
    match r {
        Ok(dag) => Ok(dag@),
        Err(e) => Err(e),
    }
}

fn remapped_inputs(inputs: &Vec<OperatorIndex>, new_index: &Vec<OperatorIndex>) -> (r: Vec<
    OperatorIndex,
>)
    requires
        forall|k: int| 0 <= k < inputs@.len() ==> (#[trigger] inputs@[k]).i < new_index@.len(),
    ensures
        r@ == inputs@.map_values(|j: OperatorIndex| new_index@[j.i as int]),
{
    let n: usize = inputs.len();
    let mut r: Vec<OperatorIndex> = Vec::new();
    let mut k: usize = 0;
    while k < n
        invariant
            n == inputs@.len(),
            k <= n,
            r@.len() == k,
            forall|j: int| 0 <= j < inputs@.len() ==> (#[trigger] inputs@[j]).i < new_index@.len(),
            forall|j: int| 0 <= j < k ==> r@[j] == new_index@[inputs@[j].i as int],
        decreases n - k,
    {
        r.push(new_index[inputs[k].i]);
        k += 1;
    }
    assert(r@ =~= inputs@.map_values(|j: OperatorIndex| new_index@[j.i as int]));
    r
}

/// A copy of `op` on the operators that `new_index` gives for its operands.
fn remapped(op: &Operator, new_index: &Vec<OperatorIndex>) -> (r: Operator)
    requires
        op@.wf_at(new_index@.len() as int),
    ensures
        r@ == remap_spec(op@, new_index@),
{
    match op {
        Operator::Input { out_precision, out_shape } => Operator::Input {
            out_precision: *out_precision,
            out_shape: out_shape.clone(),
        },
        Operator::Lut { input, table, out_precision } => {
            assert(op@.inputs()[0] == *input);
            Operator::Lut {
                input: new_index[input.i],
                table: table.clone(),
                out_precision: *out_precision,
            }
        },
        Operator::Dot { inputs, weights } => {
            assert forall|k: int| 0 <= k < inputs@.len() implies (#[trigger] inputs@[k]).i
                < new_index@.len() by {
                assert(op@.inputs()[k] == inputs@[k]);
            }
            Operator::Dot { inputs: remapped_inputs(inputs, new_index), weights: weights.clone() }
        },
        Operator::LevelledOp { inputs, complexity, manp, out_shape, comment } => {
            assert forall|k: int| 0 <= k < inputs@.len() implies (#[trigger] inputs@[k]).i
                < new_index@.len() by {
                assert(op@.inputs()[k] == inputs@[k]);
            }
            Operator::LevelledOp {
                inputs: remapped_inputs(inputs, new_index),
                complexity: *complexity,
                manp: *manp,
                out_shape: out_shape.clone(),
                comment: comment.clone(),
            }
        },
        Operator::UnsafeCast { input, out_precision } => {
            assert(op@.inputs()[0] == *input);
            Operator::UnsafeCast { input: new_index[input.i], out_precision: *out_precision }
        },
        Operator::Round { input, out_precision } => {
            assert(op@.inputs()[0] == *input);
            Operator::Round { input: new_index[input.i], out_precision: *out_precision }
        },
    }
}

/// An operator written on operands that were written before it can stand at
/// the end of what was written.
proof fn lemma_remap_wf(op: OperatorView, new_index: Seq<OperatorIndex>, i: int, len: int)
    requires
        op.wf_at(i),
        i <= new_index.len(),
        forall|j: int| 0 <= j < new_index.len() ==> (#[trigger] new_index[j]).i < len,
    ensures
        remap_spec(op, new_index).wf_at(len),
        remap_spec(op, new_index) is Round <==> op is Round,
{
    let r = remap_spec(op, new_index);
    assert(r.inputs().len() == op.inputs().len());
    assert forall|k: int| 0 <= k < r.inputs().len() implies (#[trigger] r.inputs()[k]).i < len by {
        let j = op.inputs()[k];
        assert(j.i < i);
        assert(r.inputs()[k] == new_index[j.i as int]);
    }
}

/// Replaces every rounding of `dag` by the operators that compute it.
pub fn expand_round(dag: &OperationDag) -> (r: Result<OperationDag, AnalysisError>)
    requires
        dag@.wf(),
    ensures
        dag_result_view(r) == expand_round_spec(dag@),
        r is Ok ==> r.unwrap()@.wf() && r.unwrap()@.has_no_round(),
        r is Err ==> r.unwrap_err() is InvalidRound,
{
    let n: usize = dag.operators.len();
    let mut expanded = OperationDag::new();
    let mut new_index: Vec<OperatorIndex> = Vec::new();
    let mut i: usize = 0;
    while i < n
        invariant
            dag@.wf(),
            n == dag@.operators.len(),
            n == dag.operators@.len(),
            i <= n,
            expanded@.wf(),
            expanded@.has_no_round(),
            new_index@.len() == i,
            forall|j: int|
                0 <= j < new_index@.len() ==> (#[trigger] new_index@[j]).i < expanded@.operators.len(),
            expansion_spec(dag@, i as nat) == Ok::<Expansion, AnalysisError>(
                Expansion { dag: expanded@, new_index: new_index@ },
            ),
        decreases n - i,
    {
        let ghost before = expanded@;
        let ghost before_index = new_index@;
        proof {
            assert(dag@.operators[i as int].wf_at(i as int));
            assert(dag@.operators[i as int] == dag.operators@[i as int]@);
            lemma_remap_wf(
                dag@.operators[i as int],
                new_index@,
                i as int,
                expanded@.operators.len() as int,
            );
        }
        let op = remapped(&dag.operators[i], &new_index);
        let index = match op {
            Operator::Round { input, out_precision } => {
                assert(op@.inputs()[0] == input);
                let in_precision: Precision = expanded.out_precisions[input.i];
                if out_precision > in_precision || (out_precision != in_precision && in_precision
                    > MAX_TRUNCATED_PRECISION) {
                    proof {
                        lemma_expansion_fault_persists(dag@, (i + 1) as nat, n as nat);
                    }
                    return Err(AnalysisError::InvalidRound { operator: i });
                }
                expanded.add_expanded_round(input, out_precision)
            },
            other => expanded.add_operator(other),
        };
        new_index.push(index);
        proof {
            assert forall|j: int| 0 <= j < new_index@.len() implies (#[trigger] new_index@[j]).i
                < expanded@.operators.len() by {
                if j < i {
                    assert(new_index@[j] == before_index[j]);
                }
            }
            assert forall|j: int| 0 <= j < expanded@.operators.len() implies !((
            #[trigger] expanded@.operators[j]) is Round) by {
                if j < before.operators.len() {
                    assert(expanded@.operators[j] == before.operators[j]);
                }
            }
        }
        i += 1;
    }
    Ok(expanded)
}

} // verus!
