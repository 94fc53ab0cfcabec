//! The faults that stop an analysis.

use crate::partitions::PartitionIndex;
use vstd::prelude::*;

verus! {

/// Why an analysis stopped.
///
/// `TooManyPrecisionCuts` is a fault of the configuration. `InvalidRound`,
/// `MissingInput`, `NotImplementedDot`, `UnsupportedDot` and `Overflow` are
/// faults of the circuit. Every other fault shows that the partitions or the
/// variances handed to the propagation do not fit the circuit: a defect of
/// what computed them.
#[derive(Clone, Copy, Debug, PartialEq, Eq, Structural)]
pub enum AnalysisError {
    /// More than one precision cut was given.
    TooManyPrecisionCuts { nb_cuts: usize },
    /// The partitions are not given for as many operators as the circuit has.
    InconsistentAssignment { nb_operators: usize, nb_assigned: usize },
    /// The partition of an operator does not exist.
    PartitionOutOfRange { operator: usize, partition: PartitionIndex },
    /// A partition in which a copy of the result is expected does not exist.
    AlternativeOutOfRange { operator: usize },
    /// A rounding to more bits than its operand has, or of an operand of more
    /// than 62 bits.
    InvalidRound { operator: usize },
    /// A rounding was left in the circuit.
    RoundNotExpanded { operator: usize },
    /// An operator has no operand, or fewer operands than weights.
    MissingInput { operator: usize },
    /// A weighted reduction of several tensors, which is not handled yet.
    NotImplementedDot { operator: usize },
    /// A weighted reduction whose shapes do not fit together.
    UnsupportedDot { operator: usize },
    /// An operand that does not come before the operator.
    OperatorOutOfRange { operator: usize, input: usize },
    /// The variances of an operand do not reach the partition of the operator.
    ColumnOutOfRange { operator: usize, input: usize, partition: PartitionIndex },
    /// The variance of an operand is the neutral placeholder.
    ZeroVariance { operator: usize, input: usize },
    /// The variance of an operand is over another number of partitions.
    InvalidVariance { operator: usize, input: usize },
    /// The operand has no variance in the partition of the operator: its
    /// result was never asked for there.
    UnsetVariance { operator: usize, input: usize, partition: PartitionIndex },
    /// The variance of the operand belongs to another partition.
    PartitionMismatch {
        operator: usize,
        input: usize,
        expected: PartitionIndex,
        observed: PartitionIndex,
    },
    /// A coefficient does not fit in 128 bits.
    Overflow { operator: usize },
}

} // verus!
