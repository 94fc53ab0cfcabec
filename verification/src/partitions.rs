//! The partition of each operator.

use vstd::prelude::*;

verus! {

/// A set of cryptographic parameters, by its number.
pub type PartitionIndex = usize;

/// The partition of the operators that work on few bits.
pub const LOW_PRECISION_PARTITION: PartitionIndex = 0;

/// The partition of the operators that work on many bits.
pub const HIGH_PRECISION_PARTITION: PartitionIndex = 1;

/// Where the result of one operator lives.
#[derive(Debug, PartialEq, Eq)]
pub struct InstructionPartition {
    /// The partition in which the operator computes its result.
    pub instruction_partition: PartitionIndex,
    /// The other partitions in which an operator that uses the result expects
    /// a converted copy of it: a set, each partition listed once.
    pub alternative_output_representation: Vec<PartitionIndex>,
}

impl InstructionPartition {
    /// No partition is listed twice.
    pub open spec fn wf(&self) -> bool {
        self.alternative_output_representation@.no_duplicates()
    }

    /// The partitions in which a converted copy of the result is expected.
    pub open spec fn alternatives(&self) -> Set<PartitionIndex> {
        self.alternative_output_representation@.to_set()
    }

    /// An operator of `instruction_partition` whose result no other partition
    /// expects.
    pub fn new(instruction_partition: PartitionIndex) -> (r: Self)
        ensures
            r.wf(),
            r.instruction_partition == instruction_partition,
            r.alternatives() == Set::<PartitionIndex>::empty(),
    {
        let r = InstructionPartition {
            instruction_partition,
            alternative_output_representation: Vec::new(),
        };
        assert(r.alternatives() =~= Set::<PartitionIndex>::empty());
        r
    }

    /// Whether a converted copy is expected in `partition`.
    pub fn has_alternative(&self, partition: PartitionIndex) -> (b: bool)
        ensures
            b == self.alternatives().contains(partition),
    {
        let n: usize = self.alternative_output_representation.len();
        let mut i: usize = 0;
        while i < n
            invariant
                n == self.alternative_output_representation@.len(),
                i <= n,
                forall|j: int| 0 <= j < i ==> self.alternative_output_representation@[j] != partition,
            decreases n - i,
        {
            if self.alternative_output_representation[i] == partition {
                assert(self.alternative_output_representation@.contains(partition));
                return true;
            }
            i += 1;
        }
        assert(!self.alternative_output_representation@.contains(partition));
        false
    }

    /// Asks for a converted copy of the result in `partition`.
    pub fn add_alternative_output_representation(&mut self, partition: PartitionIndex)
        ensures
            old(self).wf() ==> final(self).wf(),
            final(self).instruction_partition == old(self).instruction_partition,
            final(self).alternatives() == old(self).alternatives().insert(partition),
    {
        if !self.has_alternative(partition) {
            self.alternative_output_representation.push(partition);
            assert(self.alternative_output_representation@.to_set() =~= old(
                self,
            ).alternative_output_representation@.to_set().insert(partition)) by {
                let before = old(self).alternative_output_representation@;
                let after = self.alternative_output_representation@;
                assert(after == before.push(partition));
                assert forall|x: PartitionIndex| after.contains(x) <==> (before.contains(x) || x
                    == partition) by {
                    if after.contains(x) {
                        let k = choose|k: int| 0 <= k < after.len() && after[k] == x;
                        if k < before.len() {
                            assert(before[k] == x);
                        }
                    }
                    if before.contains(x) {
                        let k = choose|k: int| 0 <= k < before.len() && before[k] == x;
                        assert(after[k] == x);
                    }
                    if x == partition {
                        assert(after[before.len() as int] == x);
                    }
                }
            }
        } else {
            assert(old(self).alternatives().insert(partition) =~= old(self).alternatives());
        }
    }
}

/// The mathematical value of an `InstructionPartition`.
pub struct InstructionPartitionView {
    pub instruction_partition: PartitionIndex,
    pub alternatives: Set<PartitionIndex>,
}

impl InstructionPartitionView {
    /// The partitions in which the result can be read.
    pub open spec fn available_in(self, partition: PartitionIndex) -> bool {
        partition == self.instruction_partition || self.alternatives.contains(partition)
    }
}

impl View for InstructionPartition {
    type V = InstructionPartitionView;

    open spec fn view(&self) -> InstructionPartitionView {
        InstructionPartitionView {
            instruction_partition: self.instruction_partition,
            alternatives: self.alternatives(),
        }
    }
}

/// The values of the partitions of the operators of a circuit.
pub open spec fn partitions_view(instrs_partition: Seq<InstructionPartition>) -> Seq<
    InstructionPartitionView,
> {
    instrs_partition.map_values(|p: InstructionPartition| p@)
}

impl Clone for InstructionPartition {
    fn clone(&self) -> (r: Self)
        ensures
            r@ == self@,
            r.wf() == self.wf(),
    {
        let n: usize = self.alternative_output_representation.len();
        let mut alternatives: Vec<PartitionIndex> = Vec::new();
        let mut i: usize = 0;
        while i < n
            invariant
                n == self.alternative_output_representation@.len(),
                i <= n,
                alternatives@.len() == i,
                forall|j: int|
                    0 <= j < i ==> alternatives@[j] == self.alternative_output_representation@[j],
            decreases n - i,
        {
            alternatives.push(self.alternative_output_representation[i]);
            i += 1;
        }
        assert(alternatives@ =~= self.alternative_output_representation@);
        InstructionPartition {
            instruction_partition: self.instruction_partition,
            alternative_output_representation: alternatives,
        }
    }
}

/// The partitions of a whole circuit.
#[derive(Debug, PartialEq, Eq)]
pub struct Partitions {
    pub nb_partitions: usize,
    pub instrs_partition: Vec<InstructionPartition>,
}

/// The mathematical value of the partitions of a circuit.
pub struct PartitionsView {
    pub nb_partitions: usize,
    pub instrs_partition: Seq<InstructionPartitionView>,
}

impl View for Partitions {
    type V = PartitionsView;

    open spec fn view(&self) -> PartitionsView {
        PartitionsView {
            nb_partitions: self.nb_partitions,
            instrs_partition: partitions_view(self.instrs_partition@),
        }
    }
}

} // verus!
