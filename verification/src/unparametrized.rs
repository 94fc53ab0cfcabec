//! Circuits whose cryptographic parameters are not chosen yet.

use crate::operator::{
    dot_kind, dot_kind_spec, operators_view, shapes_view, DotKind, FunctionTable,
    LevelledComplexity, Operator, OperatorIndex, OperatorView, Precision, Shape, Weights,
};
use vstd::arithmetic::power2::{
    lemma2_to64_rest, lemma_pow2_strictly_increases, lemma_pow2_unfold, pow2,
};
use vstd::prelude::*;

verus! {

/// A circuit: its operators in an order in which every operator comes after
/// its operands, with the shape and the precision of what each one computes.
#[derive(Debug, PartialEq, Eq)]
pub struct OperationDag {
    pub operators: Vec<Operator>,
    pub out_shapes: Vec<Shape>,
    pub out_precisions: Vec<Precision>,
}

/// The mathematical value of a circuit.
pub struct DagView {
    pub operators: Seq<OperatorView>,
    pub out_shapes: Seq<Seq<u64>>,
    pub out_precisions: Seq<Precision>,
}

impl DagView {
    /// A shape and a precision are known for every operator, and every
    /// operator can stand where it is.
    pub open spec fn wf(self) -> bool {
        &&& self.out_shapes.len() == self.operators.len()
        &&& self.out_precisions.len() == self.operators.len()
        &&& forall|i: int| 0 <= i < self.operators.len() ==> (#[trigger] self.operators[i]).wf_at(i)
    }

    /// The circuit without operator.
    pub open spec fn empty() -> Self {
        DagView { operators: Seq::empty(), out_shapes: Seq::empty(), out_precisions: Seq::empty() }
    }

    /// The shape of the result of `op`, put after the operators of the
    /// circuit.
    pub open spec fn infer_out_shape(self, op: OperatorView) -> Seq<u64> {
        match op {
            OperatorView::Input { out_shape, .. } => out_shape,
            OperatorView::LevelledOp { out_shape, .. } => out_shape,
            OperatorView::Lut { input, .. } => self.out_shapes[input.i as int],
            OperatorView::UnsafeCast { input, .. } => self.out_shapes[input.i as int],
            OperatorView::Round { input, .. } => self.out_shapes[input.i as int],
            OperatorView::Dot { inputs, weights_shape, .. } => {
                let input_shape = self.out_shapes[inputs[0].i as int];
                match dot_kind_spec(inputs.len() as u64, input_shape, weights_shape) {
                    DotKind::Simple => Seq::empty(),
                    DotKind::Tensor => Seq::empty(),
                    DotKind::Broadcast => seq![input_shape[0]],
                    DotKind::CompatibleTensor => weights_shape,
                    DotKind::Unsupported => weights_shape,
                }
            },
        }
    }

    /// The precision of the result of `op`, put after the operators of the
    /// circuit.
    pub open spec fn infer_out_precision(self, op: OperatorView) -> Precision {
        match op {
            OperatorView::Input { out_precision, .. } => out_precision,
            OperatorView::Lut { out_precision, .. } => out_precision,
            OperatorView::UnsafeCast { out_precision, .. } => out_precision,
            OperatorView::Round { out_precision, .. } => out_precision,
            OperatorView::Dot { inputs, .. } => self.out_precisions[inputs[0].i as int],
            OperatorView::LevelledOp { inputs, .. } => self.out_precisions[inputs[0].i as int],
        }
    }

    /// The circuit with `op` after its operators.
    pub open spec fn add_operator(self, op: OperatorView) -> Self {
        DagView {
            operators: self.operators.push(op),
            out_shapes: self.out_shapes.push(self.infer_out_shape(op)),
            out_precisions: self.out_precisions.push(self.infer_out_precision(op)),
        }
    }
}

/// The largest precision of which a bit can be cleared.
pub const MAX_TRUNCATED_PRECISION: Precision = 62;

impl DagView {
    /// The circuit with, after its operators, those that clear the lowest bit
    /// of `input`: the bit is moved to the top, read by a bootstrap, and
    /// subtracted; the result, the last operator, has one bit less.
    pub open spec fn truncate_1_bit(self, input: OperatorIndex) -> Self {
        let in_precision = self.out_precisions[input.i as int];
        let n = self.operators.len();
        self.add_operator(
            OperatorView::Dot {
                inputs: seq![input],
                weights_shape: Seq::empty(),
                weights: seq![pow2(in_precision as nat) as i64],
            },
        ).add_operator(
            OperatorView::UnsafeCast { input: OperatorIndex { i: n as usize }, out_precision: 0 },
        ).add_operator(
            OperatorView::Lut {
                input: OperatorIndex { i: (n + 1) as usize },
                table: Seq::empty(),
                out_precision: in_precision,
            },
        ).add_operator(
            OperatorView::Dot {
                inputs: seq![input, OperatorIndex { i: (n + 2) as usize }],
                weights_shape: seq![2u64],
                weights: seq![1i64, -1i64],
            },
        ).add_operator(
            OperatorView::UnsafeCast {
                input: OperatorIndex { i: (n + 3) as usize },
                out_precision: (in_precision - 1) as Precision,
            },
        )
    }

    /// The circuit with, after its operators, those that clear the `bits`
    /// lowest bits of `input`, one after the other, and the operator that
    /// holds the result: `input` itself where no bit is cleared.
    pub open spec fn truncate_bits(self, input: OperatorIndex, bits: nat) -> (Self, OperatorIndex)
        decreases bits,
    {
        if bits == 0 {
            (self, input)
        } else {
            let (dag, rounded) = self.truncate_bits(input, (bits - 1) as nat);
            let next = dag.truncate_1_bit(rounded);
            (next, OperatorIndex { i: (next.operators.len() - 1) as usize })
        }
    }

    /// The circuit with, after its operators, those that round `input` to
    /// `rounded_precision` bits, and the operator that holds the result.
    pub open spec fn add_expanded_round(self, input: OperatorIndex, rounded_precision: Precision) -> (
        Self,
        OperatorIndex,
    ) {
        self.truncate_bits(
            input,
            (self.out_precisions[input.i as int] - rounded_precision) as nat,
        )
    }

    /// No rounding stands among the operators.
    pub open spec fn has_no_round(self) -> bool {
        forall|i: int| 0 <= i < self.operators.len() ==> !((#[trigger] self.operators[i]) is Round)
    }
}

/// Adding an operator that can stand at the end keeps a circuit well formed.
pub proof fn lemma_add_operator_wf(dag: DagView, op: OperatorView)
    requires
        dag.wf(),
        op.wf_at(dag.operators.len() as int),
    ensures
        dag.add_operator(op).wf(),
        dag.add_operator(op).operators.len() == dag.operators.len() + 1,
{
    let next = dag.add_operator(op);
    assert forall|i: int| 0 <= i < next.operators.len() implies (#[trigger] next.operators[i]).wf_at(
        i,
    ) by {
        if i < dag.operators.len() {
            assert(next.operators[i] == dag.operators[i]);
        }
    }
}

impl View for OperationDag {
    type V = DagView;

    open spec fn view(&self) -> DagView {
        DagView {
            operators: operators_view(self.operators@),
            out_shapes: shapes_view(self.out_shapes@),
            out_precisions: self.out_precisions@,
        }
    }
}

impl OperationDag {
    /// The circuit without operator.
    pub fn new() -> (dag: Self)
        ensures
            dag@ == DagView::empty(),
            dag@.wf(),
    {
        let dag = OperationDag {
            operators: Vec::new(),
            out_shapes: Vec::new(),
            out_precisions: Vec::new(),
        };
        assert(dag@.operators =~= Seq::empty());
        assert(dag@.out_shapes =~= Seq::empty());
        dag
    }

    /// Whether the circuit is well formed: a shape and a precision for every
    /// operator, and every operator after its operands.
    pub fn is_well_formed(&self) -> (b: bool)
        ensures
            b == self@.wf(),
    {
        let n: usize = self.operators.len();
        assert(self@.operators.len() == n);
        assert(self@.out_shapes.len() == self.out_shapes@.len());
        if self.out_shapes.len() != n || self.out_precisions.len() != n {
            return false;
        }
        let mut i: usize = 0;
        while i < n
            invariant
                n == self@.operators.len(),
                n == self.operators@.len(),
                i <= n,
                forall|j: int| 0 <= j < i ==> (#[trigger] self@.operators[j]).wf_at(j),
            decreases n - i,
        {
            assert(self@.operators[i as int] == self.operators@[i as int]@);
            if !self.operators[i].fits_at(i) {
                return false;
            }
            i += 1;
        }
        true
    }

    /// The number of operators.
    pub fn len(&self) -> (n: usize)
        ensures
            n == self@.operators.len(),
    {
        self.operators.len()
    }

    fn infer_out_shape(&self, op: &Operator) -> (shape: Shape)
        requires
            self@.wf(),
            op@.wf_at(self@.operators.len() as int),
        ensures
            shape@ == self@.infer_out_shape(op@),
    {
        match op {
            Operator::Input { out_shape, .. } => out_shape.clone(),
            Operator::LevelledOp { out_shape, .. } => out_shape.clone(),
            Operator::Lut { input, .. } => {
                assert(op@.inputs()[0] == *input);
                self.out_shapes[input.i].clone()
            },
            Operator::UnsafeCast { input, .. } => {
                assert(op@.inputs()[0] == *input);
                self.out_shapes[input.i].clone()
            },
            Operator::Round { input, .. } => {
                assert(op@.inputs()[0] == *input);
                self.out_shapes[input.i].clone()
            },
            Operator::Dot { inputs, weights } => {
                assert(op@.inputs()[0] == inputs@[0]);
                let input_shape = &self.out_shapes[inputs[0].i];
                match dot_kind(inputs.len() as u64, input_shape, weights) {
                    DotKind::Simple => Shape::number(),
                    DotKind::Tensor => Shape::number(),
                    DotKind::Broadcast => Shape::vector(input_shape.first_dim_size()),
                    DotKind::CompatibleTensor => weights.shape.clone(),
                    DotKind::Unsupported => weights.shape.clone(),
                }
            },
        }
    }

    fn infer_out_precision(&self, op: &Operator) -> (precision: Precision)
        requires
            self@.wf(),
            op@.wf_at(self@.operators.len() as int),
        ensures
            precision == self@.infer_out_precision(op@),
    {
        match op {
            Operator::Input { out_precision, .. } => *out_precision,
            Operator::Lut { out_precision, .. } => *out_precision,
            Operator::UnsafeCast { out_precision, .. } => *out_precision,
            Operator::Round { out_precision, .. } => *out_precision,
            Operator::Dot { inputs, .. } => {
                assert(op@.inputs()[0] == inputs@[0]);
                self.out_precisions[inputs[0].i]
            },
            Operator::LevelledOp { inputs, .. } => {
                assert(op@.inputs()[0] == inputs@[0]);
                self.out_precisions[inputs[0].i]
            },
        }
    }

    /// Puts `operator` after the operators of the circuit.
    pub fn add_operator(&mut self, operator: Operator) -> (index: OperatorIndex)
        requires
            old(self)@.wf(),
            operator@.wf_at(old(self)@.operators.len() as int),
        ensures
            final(self)@ == old(self)@.add_operator(operator@),
            final(self)@.wf(),
            index.i == old(self)@.operators.len(),
    {
        let i: usize = self.operators.len();
        let precision = self.infer_out_precision(&operator);
        let shape = self.infer_out_shape(&operator);
        proof {
            lemma_add_operator_wf(self@, operator@);
        }
        self.out_precisions.push(precision);
        self.out_shapes.push(shape);
        self.operators.push(operator);
        proof {
            let next = old(self)@.add_operator(operator@);
            assert(self@.operators =~= next.operators);
            assert(self@.out_shapes =~= next.out_shapes);
            assert(self@.out_precisions =~= next.out_precisions);
        }
        OperatorIndex { i }
    }

    /// Adds a fresh encrypted input.
    pub fn add_input(&mut self, out_precision: Precision, out_shape: Shape) -> (index: OperatorIndex)
        requires
            old(self)@.wf(),
        ensures
            final(self)@ == old(self)@.add_operator(
                (OperatorView::Input { out_precision, out_shape: out_shape@ }),
            ),
            final(self)@.wf(),
            index.i == old(self)@.operators.len(),
    {
        self.add_operator(Operator::Input { out_precision, out_shape })
    }

    /// Adds a table lookup on `input`.
    pub fn add_lut(&mut self, input: OperatorIndex, table: FunctionTable, out_precision: Precision) -> (index:
        OperatorIndex)
        requires
            old(self)@.wf(),
            input.i < old(self)@.operators.len(),
        ensures
            final(self)@ == old(self)@.add_operator(
                (OperatorView::Lut { input, table: table.values@, out_precision }),
            ),
            final(self)@.wf(),
            index.i == old(self)@.operators.len(),
    {
        self.add_operator(Operator::Lut { input, table, out_precision })
    }

    /// Adds the reduction of `inputs` with `weights`.
    pub fn add_dot(&mut self, inputs: Vec<OperatorIndex>, weights: Weights) -> (index: OperatorIndex)
        requires
            old(self)@.wf(),
            inputs@.len() >= 1,
            forall|k: int| 0 <= k < inputs@.len() ==> (#[trigger] inputs@[k]).i < old(self)@.operators.len(),
        ensures
            final(self)@ == old(self)@.add_operator(
                (OperatorView::Dot {
                    inputs: inputs@,
                    weights_shape: weights.shape@,
                    weights: weights.values@,
                }),
            ),
            final(self)@.wf(),
            index.i == old(self)@.operators.len(),
    {
        self.add_operator(Operator::Dot { inputs, weights })
    }

    /// Adds a linear operator on `inputs` that amplifies the standard
    /// deviation of the noise by `manp`.
    pub fn add_levelled_op(
        &mut self,
        inputs: Vec<OperatorIndex>,
        complexity: LevelledComplexity,
        manp: u64,
        out_shape: &Shape,
        comment: &str,
    ) -> (index: OperatorIndex)
        requires
            old(self)@.wf(),
            inputs@.len() >= 1,
            forall|k: int| 0 <= k < inputs@.len() ==> (#[trigger] inputs@[k]).i < old(self)@.operators.len(),
        ensures
            final(self)@ == old(self)@.add_operator(
                (OperatorView::LevelledOp {
                    inputs: inputs@,
                    complexity,
                    manp,
                    out_shape: out_shape@,
                    comment: comment@,
                }),
            ),
            final(self)@.wf(),
            index.i == old(self)@.operators.len(),
    {
        let out_shape = out_shape.clone();
        let comment = comment.to_owned();
        self.add_operator(Operator::LevelledOp { inputs, complexity, manp, out_shape, comment })
    }

    /// Adds a change of the declared precision of `input`.
    pub fn add_unsafe_cast(&mut self, input: OperatorIndex, out_precision: Precision) -> (index:
        OperatorIndex)
        requires
            old(self)@.wf(),
            input.i < old(self)@.operators.len(),
        ensures
            final(self)@ == old(self)@.add_operator(
                (OperatorView::UnsafeCast { input, out_precision }),
            ),
            final(self)@.wf(),
            index.i == old(self)@.operators.len(),
    {
        self.add_operator(Operator::UnsafeCast { input, out_precision })
    }

    /// Adds a rounding of `input` to `rounded_precision` bits, as a single
    /// operator.
    pub fn add_round_op(&mut self, input: OperatorIndex, rounded_precision: Precision) -> (index:
        OperatorIndex)
        requires
            old(self)@.wf(),
            input.i < old(self)@.operators.len(),
        ensures
            final(self)@ == old(self)@.add_operator(
                (OperatorView::Round { input, out_precision: rounded_precision }),
            ),
            final(self)@.wf(),
            index.i == old(self)@.operators.len(),
    {
        self.add_operator(Operator::Round { input, out_precision: rounded_precision })
    }

    /// Adds the operators that clear the lowest bit of `input`; the result
    /// has one bit less.
    pub fn add_truncate_1_bit(&mut self, input: OperatorIndex) -> (index: OperatorIndex)
        requires
            old(self)@.wf(),
            input.i < old(self)@.operators.len(),
            1 <= old(self)@.out_precisions[input.i as int] <= MAX_TRUNCATED_PRECISION,
        ensures
            final(self)@ == old(self)@.truncate_1_bit(input),
            final(self)@.wf(),
            final(self)@.operators.len() == old(self)@.operators.len() + 5,
            index.i == final(self)@.operators.len() - 1,
            final(self)@.out_precisions[index.i as int] == old(self)@.out_precisions[input.i as int]
                - 1,
            forall|i: int|
                0 <= i < old(self)@.operators.len() ==> final(self)@.operators[i] == old(self)@.operators[i],
            forall|i: int|
                old(self)@.operators.len() <= i < final(self)@.operators.len() ==> !(final(self)@.operators[i] is Round),
    {
        let in_precision: Precision = self.out_precisions[input.i];
        let shift_factor = Weights::number(two_to_the(in_precision));
        let mut inputs: Vec<OperatorIndex> = Vec::new();
        inputs.push(input);
        assert(inputs@ =~= seq![input]);
        let lsb_as_msb = self.add_dot(inputs, shift_factor);
        let lsb_as_msb = self.add_unsafe_cast(lsb_as_msb, 0);
        let lowest_bit = self.add_lut(lsb_as_msb, FunctionTable::unknown(), in_precision);
        let mut inputs: Vec<OperatorIndex> = Vec::new();
        inputs.push(input);
        inputs.push(lowest_bit);
        assert(inputs@ =~= seq![input, lowest_bit]);
        let mut values: Vec<i64> = Vec::new();
        values.push(1);
        values.push(-1);
        assert(values@ =~= seq![1i64, -1i64]);
        let bit_cleared = self.add_dot(inputs, Weights::vector(values));
        self.add_unsafe_cast(bit_cleared, in_precision - 1)
    }

    /// Adds the operators that round `input` to `rounded_precision` bits, and
    /// gives the operator that holds the result: `input` itself where it has
    /// that many bits already.
    pub fn add_expanded_round(&mut self, input: OperatorIndex, rounded_precision: Precision) -> (index:
        OperatorIndex)
        requires
            old(self)@.wf(),
            input.i < old(self)@.operators.len(),
            rounded_precision <= old(self)@.out_precisions[input.i as int],
            rounded_precision == old(self)@.out_precisions[input.i as int] || old(self)@.out_precisions[input.i as int] <= MAX_TRUNCATED_PRECISION,
        ensures
            (final(self)@, index) == old(self)@.add_expanded_round(input, rounded_precision),
            final(self)@.wf(),
            index.i < final(self)@.operators.len(),
            final(self)@.out_precisions[index.i as int] == rounded_precision,
            final(self)@.operators.len() >= old(self)@.operators.len(),
            forall|i: int|
                0 <= i < old(self)@.operators.len() ==> final(self)@.operators[i] == old(self)@.operators[i],
            forall|i: int|
                old(self)@.operators.len() <= i < final(self)@.operators.len() ==> !(final(self)@.operators[i] is Round),
    {
        let in_precision: Precision = self.out_precisions[input.i];
        let bits_to_truncate: Precision = in_precision - rounded_precision;
        let mut rounded = input;
        let mut done: Precision = 0;
        while done < bits_to_truncate
            invariant
                self@.wf(),
                in_precision == old(self)@.out_precisions[input.i as int],
                bits_to_truncate == in_precision - rounded_precision,
                bits_to_truncate == 0 || in_precision <= MAX_TRUNCATED_PRECISION,
                done <= bits_to_truncate,
                rounded.i < self@.operators.len(),
                self@.out_precisions[rounded.i as int] == in_precision - done,
                (self@, rounded) == old(self)@.truncate_bits(input, done as nat),
                self@.operators.len() >= old(self)@.operators.len(),
                forall|i: int|
                    0 <= i < old(self)@.operators.len() ==> self@.operators[i] == old(self)@.operators[i],
                forall|i: int|
                    old(self)@.operators.len() <= i < self@.operators.len() ==> !(
                    self@.operators[i] is Round),
            decreases bits_to_truncate - done,
        {
            rounded = self.add_truncate_1_bit(rounded);
            done += 1;
        }
        rounded
    }
}

/// Two to the power `precision`.
fn two_to_the(precision: Precision) -> (w: i64)
    requires
        precision <= MAX_TRUNCATED_PRECISION,
    ensures
        w == pow2(precision as nat),
{
    let mut w: i64 = 1;
    let mut k: Precision = 0;
    proof {
        vstd::arithmetic::power2::lemma2_to64();
        lemma2_to64_rest();
    }
    while k < precision
        invariant
            k <= precision <= 62,
            w == pow2(k as nat),
            pow2(62) == 0x4000000000000000,
        decreases precision - k,
    {
        proof {
            lemma_pow2_strictly_increases(k as nat, 62);
            lemma_pow2_unfold((k + 1) as nat);
        }
        w = w * 2;
        k += 1;
    }
    w
}

} // verus!
