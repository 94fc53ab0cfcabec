//! The operators of a circuit and the shapes of what they compute.

use vstd::prelude::*;

verus! {

/// Number of bits of the message that a ciphertext holds.
pub type Precision = u8;

/// Reference to an operator by its position in the circuit.
#[derive(Clone, Copy, Debug, PartialEq, Eq, Structural)]
pub struct OperatorIndex {
    pub i: usize,
}

/// Shape of a tensor: the size of each dimension, outermost first. A number
/// has no dimension.
#[derive(Debug, PartialEq, Eq)]
pub struct Shape {
    pub dimensions_size: Vec<u64>,
}

impl View for Shape {
    type V = Seq<u64>;

    open spec fn view(&self) -> Seq<u64> {
        self.dimensions_size@
    }
}

impl Clone for Shape {
    fn clone(&self) -> (r: Self)
        ensures
            r@ == self@,
    {
        let n: usize = self.dimensions_size.len();
        let mut dimensions_size: Vec<u64> = Vec::new();
        let mut i: usize = 0;
        while i < n
            invariant
                n == self@.len(),
                i <= n,
                dimensions_size@ == self@.take(i as int),
            decreases n - i,
        {
            dimensions_size.push(self.dimensions_size[i]);
            assert(self@.take(i + 1) =~= self@.take(i as int).push(self@[i as int]));
            i += 1;
        }
        assert(self@.take(n as int) =~= self@);
        Shape { dimensions_size }
    }
}

impl Shape {
    /// The shape of a single number.
    pub fn number() -> (r: Self)
        ensures
            r@ == Seq::<u64>::empty(),
    {
        Shape { dimensions_size: Vec::new() }
    }

    /// The shape of a vector of `size` numbers.
    pub fn vector(size: u64) -> (r: Self)
        ensures
            r@ == seq![size],
    {
        let mut dimensions_size: Vec<u64> = Vec::new();
        dimensions_size.push(size);
        assert(dimensions_size@ =~= seq![size]);
        Shape { dimensions_size }
    }

    /// The number of dimensions.
    pub fn rank(&self) -> (r: usize)
        ensures
            r == self@.len(),
    {
        self.dimensions_size.len()
    }

    /// Whether this is the shape of a single number.
    pub fn is_number(&self) -> (b: bool)
        ensures
            b == (self@.len() == 0),
    {
        self.dimensions_size.len() == 0
    }

    /// Whether this is the shape of a vector.
    pub fn is_vector(&self) -> (b: bool)
        ensures
            b == (self@.len() == 1),
    {
        self.dimensions_size.len() == 1
    }

    /// The size of the outermost dimension.
    pub fn first_dim_size(&self) -> (size: u64)
        requires
            self@.len() >= 1,
        ensures
            size == self@[0],
    {
        self.dimensions_size[0]
    }

    /// Whether two shapes have the same dimensions.
    pub fn equals(&self, other: &Shape) -> (b: bool)
        ensures
            b == (self@ == other@),
    {
        let n: usize = self.dimensions_size.len();
        if n != other.dimensions_size.len() {
            return false;
        }
        let mut i: usize = 0;
        while i < n
            invariant
                n == self@.len(),
                n == other@.len(),
                i <= n,
                forall|j: int| 0 <= j < i ==> self@[j] == other@[j],
            decreases n - i,
        {
            if self.dimensions_size[i] != other.dimensions_size[i] {
                return false;
            }
            i += 1;
        }
        assert(self@ =~= other@);
        true
    }

    /// The shape of `out_dim_size` tensors of shape `other`, put side by side.
    pub fn duplicated(out_dim_size: u64, other: &Shape) -> (r: Self)
        ensures
            r@ == seq![out_dim_size] + other@,
    {
        let n: usize = other.dimensions_size.len();
        let mut dimensions_size: Vec<u64> = Vec::new();
        dimensions_size.push(out_dim_size);
        let mut i: usize = 0;
        while i < n
            invariant
                n == other@.len(),
                i <= n,
                dimensions_size@ == seq![out_dim_size] + other@.take(i as int),
            decreases n - i,
        {
            dimensions_size.push(other.dimensions_size[i]);
            assert(seq![out_dim_size] + other@.take(i + 1) =~= (seq![out_dim_size] + other@.take(
                i as int,
            )).push(other@[i as int]));
            i += 1;
        }
        assert(other@.take(n as int) =~= other@);
        Shape { dimensions_size }
    }

    /// The shape of one item along the outermost dimension.
    pub fn erase_first_dim(&self) -> (r: Self)
        requires
            self@.len() >= 1,
        ensures
            r@ == self@.subrange(1, self@.len() as int),
    {
        let n: usize = self.dimensions_size.len();
        let mut dimensions_size: Vec<u64> = Vec::new();
        let mut i: usize = 1;
        while i < n
            invariant
                n == self@.len(),
                1 <= i <= n,
                dimensions_size@ == self@.subrange(1, i as int),
            decreases n - i,
        {
            dimensions_size.push(self.dimensions_size[i]);
            assert(self@.subrange(1, i + 1) =~= self@.subrange(1, i as int).push(self@[i as int]));
            i += 1;
        }
        Shape { dimensions_size }
    }
}

/// Clear integer weights, with the shape in which they are laid out.
#[derive(Debug, PartialEq, Eq)]
pub struct Weights {
    pub shape: Shape,
    pub values: Vec<i64>,
}

impl Clone for Weights {
    fn clone(&self) -> (r: Self)
        ensures
            r.shape@ == self.shape@,
            r.values@ == self.values@,
    {
        let n: usize = self.values.len();
        let mut values: Vec<i64> = Vec::new();
        let mut i: usize = 0;
        while i < n
            invariant
                n == self.values@.len(),
                i <= n,
                values@ == self.values@.take(i as int),
            decreases n - i,
        {
            values.push(self.values[i]);
            assert(self.values@.take(i + 1) =~= self.values@.take(i as int).push(
                self.values@[i as int],
            ));
            i += 1;
        }
        assert(self.values@.take(n as int) =~= self.values@);
        Weights { shape: self.shape.clone(), values }
    }
}

impl Weights {
    /// A single weight.
    pub fn number(value: i64) -> (r: Self)
        ensures
            r.shape@ == Seq::<u64>::empty(),
            r.values@ == seq![value],
    {
        let mut values: Vec<i64> = Vec::new();
        values.push(value);
        assert(values@ =~= seq![value]);
        Weights { shape: Shape::number(), values }
    }

    /// A vector of weights.
    pub fn vector(values: Vec<i64>) -> (r: Self)
        ensures
            r.shape@ == seq![values@.len() as u64],
            r.values@ == values@,
    {
        let size: u64 = values.len() as u64;
        Weights { shape: Shape::vector(size), values }
    }
}

/// The table of values of a lookup.
#[derive(Debug, PartialEq, Eq)]
pub struct FunctionTable {
    pub values: Vec<u64>,
}

impl Clone for FunctionTable {
    fn clone(&self) -> (r: Self)
        ensures
            r.values@ == self.values@,
    {
        let n: usize = self.values.len();
        let mut values: Vec<u64> = Vec::new();
        let mut i: usize = 0;
        while i < n
            invariant
                n == self.values@.len(),
                i <= n,
                values@ == self.values@.take(i as int),
            decreases n - i,
        {
            values.push(self.values[i]);
            assert(self.values@.take(i + 1) =~= self.values@.take(i as int).push(
                self.values@[i as int],
            ));
            i += 1;
        }
        assert(self.values@.take(n as int) =~= self.values@);
        FunctionTable { values }
    }
}

impl FunctionTable {
    /// The table of a lookup whose values are not known.
    pub fn unknown() -> (r: Self)
        ensures
            r.values@ == Seq::<u64>::empty(),
    {
        FunctionTable { values: Vec::new() }
    }
}

/// Cost of the linear operations, as a function of the size of a
/// ciphertext: `lwe_dim_cost_factor * size + fixed_cost`.
#[derive(Clone, Copy, Debug, PartialEq, Eq, Structural)]
pub struct LevelledComplexity {
    pub lwe_dim_cost_factor: u64,
    pub fixed_cost: u64,
}

impl LevelledComplexity {
    /// The cost of no operation at all.
    pub open spec fn zero_spec() -> Self {
        LevelledComplexity { lwe_dim_cost_factor: 0, fixed_cost: 0 }
    }

    /// The cost of no operation at all.
    #[verifier::when_used_as_spec(zero_spec)]
    pub fn zero() -> (r: Self)
        ensures
            r == Self::zero_spec(),
    {
        LevelledComplexity { lwe_dim_cost_factor: 0, fixed_cost: 0 }
    }
}

/// How the operands and the weights of a weighted reduction fit together.
#[derive(Clone, Copy, Debug, PartialEq, Eq, Structural)]
pub enum DotKind {
    /// Several numbers, one weight each.
    Simple,
    /// One tensor, with weights of its shape.
    Tensor,
    /// One tensor, each of whose items along the outermost dimension is
    /// reduced with the same weights.
    Broadcast,
    /// Several tensors, with weights of the shape of all of them together.
    CompatibleTensor,
    /// Anything else.
    Unsupported,
}

/// The kind of the reduction of `nb_inputs` operands of shape `input_shape`
/// with weights of shape `weights_shape`.
pub open spec fn dot_kind_spec(nb_inputs: u64, input_shape: Seq<u64>, weights_shape: Seq<u64>) -> DotKind {
    let inputs_shape = seq![nb_inputs] + input_shape;
    if input_shape.len() == 0 && inputs_shape == weights_shape {
        DotKind::Simple
    } else if nb_inputs == 1 && input_shape == weights_shape {
        DotKind::Tensor
    } else if inputs_shape == weights_shape {
        DotKind::CompatibleTensor
    } else if nb_inputs == 1 && input_shape.len() >= 1 && input_shape.subrange(
        1,
        input_shape.len() as int,
    ) == weights_shape {
        DotKind::Broadcast
    } else {
        DotKind::Unsupported
    }
}

/// Classifies a weighted reduction by the shapes of its operands and weights.
pub fn dot_kind(nb_inputs: u64, input_shape: &Shape, weights: &Weights) -> (kind: DotKind)
    ensures
        kind == dot_kind_spec(nb_inputs, input_shape@, weights.shape@),
{
    let inputs_shape = Shape::duplicated(nb_inputs, input_shape);
    if input_shape.is_number() && inputs_shape.equals(&weights.shape) {
        DotKind::Simple
    } else if nb_inputs == 1 && input_shape.equals(&weights.shape) {
        DotKind::Tensor
    } else if inputs_shape.equals(&weights.shape) {
        DotKind::CompatibleTensor
    } else if nb_inputs == 1 && !input_shape.is_number() && input_shape.erase_first_dim().equals(
        &weights.shape,
    ) {
        DotKind::Broadcast
    } else {
        DotKind::Unsupported
    }
}

/// One operator of a circuit. Its operands are operators that come before it.
#[derive(Debug, PartialEq, Eq)]
pub enum Operator {
    /// A fresh encrypted input.
    Input { out_precision: Precision, out_shape: Shape },
    /// A table lookup, done by a bootstrap.
    Lut { input: OperatorIndex, table: FunctionTable, out_precision: Precision },
    /// A reduction of the operands with clear weights.
    Dot { inputs: Vec<OperatorIndex>, weights: Weights },
    /// A linear operator, known by the factor `manp` by which it amplifies
    /// the standard deviation of the noise.
    LevelledOp {
        inputs: Vec<OperatorIndex>,
        complexity: LevelledComplexity,
        manp: u64,
        out_shape: Shape,
        comment: String,
    },
    /// A change of the declared precision, which leaves the ciphertext as it is.
    UnsafeCast { input: OperatorIndex, out_precision: Precision },
    /// A rounding to fewer bits, which stands for a sequence of the operators
    /// above.
    Round { input: OperatorIndex, out_precision: Precision },
}

/// The mathematical value of an operator.
pub enum OperatorView {
    Input { out_precision: Precision, out_shape: Seq<u64> },
    Lut { input: OperatorIndex, table: Seq<u64>, out_precision: Precision },
    Dot { inputs: Seq<OperatorIndex>, weights_shape: Seq<u64>, weights: Seq<i64> },
    LevelledOp {
        inputs: Seq<OperatorIndex>,
        complexity: LevelledComplexity,
        manp: u64,
        out_shape: Seq<u64>,
        comment: Seq<char>,
    },
    UnsafeCast { input: OperatorIndex, out_precision: Precision },
    Round { input: OperatorIndex, out_precision: Precision },
}

impl OperatorView {
    /// The operands, in their order.
    pub open spec fn inputs(self) -> Seq<OperatorIndex> {
        match self {
            OperatorView::Input { .. } => Seq::empty(),
            OperatorView::Lut { input, .. } => seq![input],
            OperatorView::Dot { inputs, .. } => inputs,
            OperatorView::LevelledOp { inputs, .. } => inputs,
            OperatorView::UnsafeCast { input, .. } => seq![input],
            OperatorView::Round { input, .. } => seq![input],
        }
    }

    /// Whether the operator joins its operands linearly, without a bootstrap.
    pub open spec fn is_levelled(self) -> bool {
        self is Dot || self is LevelledOp || self is UnsafeCast
    }

    /// The operator can stand at the position `i` of a circuit: its
    /// operands come before it, and a reduction or a linear operator has at
    /// least one.
    pub open spec fn wf_at(self, i: int) -> bool {
        &&& forall|k: int| 0 <= k < self.inputs().len() ==> (#[trigger] self.inputs()[k]).i < i
        &&& (self is Dot || self is LevelledOp) ==> self.inputs().len() >= 1
    }
}

impl View for Operator {
    type V = OperatorView;

    open spec fn view(&self) -> OperatorView {
        match *self {
            Operator::Input { out_precision, out_shape } => OperatorView::Input {
                out_precision,
                out_shape: out_shape@,
            },
            Operator::Lut { input, table, out_precision } => OperatorView::Lut {
                input,
                table: table.values@,
                out_precision,
            },
            Operator::Dot { inputs, weights } => OperatorView::Dot {
                inputs: inputs@,
                weights_shape: weights.shape@,
                weights: weights.values@,
            },
            Operator::LevelledOp {
                inputs,
                complexity,
                manp,
                out_shape,
                comment,
            } => OperatorView::LevelledOp {
                inputs: inputs@,
                complexity,
                manp,
                out_shape: out_shape@,
                comment: comment@,
            },
            Operator::UnsafeCast { input, out_precision } => OperatorView::UnsafeCast {
                input,
                out_precision,
            },
            Operator::Round { input, out_precision } => OperatorView::Round { input, out_precision },
        }
    }
}

fn copy_of_inputs(inputs: &Vec<OperatorIndex>) -> (r: Vec<OperatorIndex>)
    ensures
        r@ == inputs@,
{
    let n: usize = inputs.len();
    let mut r: Vec<OperatorIndex> = Vec::new();
    let mut k: usize = 0;
    while k < n
        invariant
            n == inputs@.len(),
            k <= n,
            r@.len() == k,
            forall|j: int| 0 <= j < k ==> r@[j] == inputs@[j],
        decreases n - k,
    {
        r.push(inputs[k]);
        k += 1;
    }
    assert(r@ =~= inputs@);
    r
}

impl Operator {
    /// The operands, in their order.
    pub fn inputs(&self) -> (r: Vec<OperatorIndex>)
        ensures
            r@ == self@.inputs(),
    {
        let mut r: Vec<OperatorIndex> = Vec::new();
        match self {
            Operator::Input { .. } => {},
            Operator::Lut { input, .. } => {
                r.push(*input);
            },
            Operator::UnsafeCast { input, .. } => {
                r.push(*input);
            },
            Operator::Round { input, .. } => {
                r.push(*input);
            },
            Operator::Dot { inputs, .. } => {
                r = copy_of_inputs(inputs);
            },
            Operator::LevelledOp { inputs, .. } => {
                r = copy_of_inputs(inputs);
            },
        }
        assert(r@ =~= self@.inputs());
        r
    }

    /// Whether the operator joins its operands linearly, without a bootstrap.
    pub fn is_levelled(&self) -> (b: bool)
        ensures
            b == self@.is_levelled(),
    {
        match self {
            Operator::Dot { .. } => true,
            Operator::LevelledOp { .. } => true,
            Operator::UnsafeCast { .. } => true,
            _ => false,
        }
    }

    /// Whether the operator can stand at the position `i` of a circuit.
    pub fn fits_at(&self, i: usize) -> (b: bool)
        ensures
            b == self@.wf_at(i as int),
    {
        let inputs = self.inputs();
        let n: usize = inputs.len();
        let needs_input = match self {
            Operator::Dot { .. } => true,
            Operator::LevelledOp { .. } => true,
            _ => false,
        };
        if needs_input && n == 0 {
            return false;
        }
        let mut k: usize = 0;
        while k < n
            invariant
                n == inputs@.len(),
                inputs@ == self@.inputs(),
                k <= n,
                forall|j: int| 0 <= j < k ==> (#[trigger] self@.inputs()[j]).i < i,
            decreases n - k,
        {
            if inputs[k].i >= i {
                return false;
            }
            k += 1;
        }
        true
    }
}

/// The values of the operators of a circuit.
pub open spec fn operators_view(operators: Seq<Operator>) -> Seq<OperatorView> {
    operators.map_values(|op: Operator| op@)
}

/// The values of a sequence of shapes.
pub open spec fn shapes_view(shapes: Seq<Shape>) -> Seq<Seq<u64>> {
    shapes.map_values(|shape: Shape| shape@)
}

} // verus!
