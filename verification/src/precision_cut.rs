//! The precisions at which the table lookups are split into partitions.

use crate::operator::Precision;
use crate::partitions::PartitionIndex;
use vstd::prelude::*;

verus! {

/// Thresholds on the precision of the operand of a table lookup, in
/// increasing order: a lookup on at most `p_cut[0]` bits is of partition 0,
/// one on more bits and at most `p_cut[1]` is of partition 1, and so on.
#[derive(Debug, PartialEq, Eq)]
pub struct PrecisionCut {
    pub p_cut: Vec<Precision>,
}

impl View for PrecisionCut {
    type V = Seq<Precision>;

    open spec fn view(&self) -> Seq<Precision> {
        self.p_cut@
    }
}

/// The partition of a table lookup on `precision` bits: the position of the
/// first threshold that `precision` does not exceed, or the number of
/// thresholds where it exceeds them all.
pub open spec fn cut_partition(p_cut: Seq<Precision>, precision: Precision) -> nat
    decreases p_cut.len(),
{
    if p_cut.len() == 0 || precision <= p_cut[0] {
        0
    } else {
        1 + cut_partition(p_cut.drop_first(), precision)
    }
}

/// The partition of a lookup is at most the number of thresholds.
pub proof fn lemma_cut_partition_bound(p_cut: Seq<Precision>, precision: Precision)
    ensures
        cut_partition(p_cut, precision) <= p_cut.len(),
    decreases p_cut.len(),
{
    if p_cut.len() > 0 && precision > p_cut[0] {
        lemma_cut_partition_bound(p_cut.drop_first(), precision);
    }
}

impl PrecisionCut {
    /// The partition of a table lookup whose operand has `precision` bits.
    pub fn lut_partition(&self, precision: Precision) -> (partition: PartitionIndex)
        ensures
            partition == cut_partition(self@, precision),
            partition <= self@.len(),
    {
        let n: usize = self.p_cut.len();
        let mut i: usize = 0;
        assert(self@.skip(0) =~= self@);
        while i < n
            invariant
                n == self@.len(),
                i <= n,
                cut_partition(self@, precision) == i + cut_partition(
                    self@.skip(i as int),
                    precision,
                ),
            decreases n - i,
        {
            if precision <= self.p_cut[i] {
                assert(self@.skip(i as int)[0] == self@[i as int]);
                return i;
            }
            proof {
                assert(self@.skip(i as int)[0] == self@[i as int]);
                assert(self@.skip(i as int).drop_first() =~= self@.skip(i + 1));
            }
            i += 1;
        }
        assert(self@.skip(n as int).len() == 0);
        n
    }
}

} // verus!
