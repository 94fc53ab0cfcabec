//! The choice of a partition for every operator.
//!
//! A table lookup belongs to the partition that the precision of its operand
//! asks for. The other operators are linear: they work in the partition of
//! their operands, so all the operators that linear operators join, a block,
//! share one partition. Where the result of a lookup is used in a block of
//! another partition, a converted copy of it is asked for.

use crate::error::AnalysisError;
use crate::operator::{Operator, OperatorIndex, OperatorView, Precision};
use crate::partitions::{
    InstructionPartition, InstructionPartitionView, PartitionIndex, Partitions, PartitionsView,
};
use crate::precision_cut::{cut_partition, PrecisionCut};
use crate::unparametrized::{DagView, OperationDag};
use vstd::prelude::*;

verus! {

/// The partition that the operator `i` asks for by itself: that of the
/// precision of its operand for a table lookup, none for another operator.
pub open spec fn lut_class(dag: DagView, p_cut: Seq<Precision>, i: int) -> Option<PartitionIndex> {
    match dag.operators[i] {
        OperatorView::Lut { input, .. } => Some(
            cut_partition(p_cut, dag.out_precisions[input.i as int]) as usize,
        ),
        _ => None,
    }
}

/// Some table lookup asks for the partition `c`.
pub open spec fn class_is_present(dag: DagView, p_cut: Seq<Precision>, c: PartitionIndex) -> bool {
    exists|i: int| 0 <= i < dag.operators.len() && #[trigger] lut_class(dag, p_cut, i) == Some(c)
}

/// The number of partitions of a circuit, with at most one threshold: two
/// where lookups ask for both, else one.
pub open spec fn nb_partitions_spec(dag: DagView, p_cut: Seq<Precision>) -> usize {
    if class_is_present(dag, p_cut, 0) && class_is_present(dag, p_cut, 1) {
        2
    } else {
        1
    }
}

/// The labels after the blocks of `a` and `b` are made one, which keeps the
/// smaller of the two labels.
pub open spec fn merge_spec(labels: Seq<usize>, a: int, b: int) -> Seq<usize> {
    let kept = if labels[a] <= labels[b] {
        labels[a]
    } else {
        labels[b]
    };
    let dropped = if labels[a] <= labels[b] {
        labels[b]
    } else {
        labels[a]
    };
    labels.map_values(
        |l: usize|
            if l == dropped {
                kept
            } else {
                l
            },
    )
}

/// The labels after the block of the last operator is made one with the
/// blocks of the first `m` of `inputs`.
pub open spec fn join_spec(labels: Seq<usize>, inputs: Seq<OperatorIndex>, m: nat) -> Seq<usize>
    decreases m,
{
    if m == 0 {
        labels
    } else {
        merge_spec(join_spec(labels, inputs, (m - 1) as nat), inputs[m - 1].i as int, labels.len() - 1)
    }
}

/// The block of each of the first `n` operators, by its label: the position
/// of the first operator of the block. An operator starts a block of its
/// own, and a linear operator then makes its block one with those of its
/// operands.
pub open spec fn block_labels_spec(dag: DagView, n: nat) -> Seq<usize>
    decreases n,
{
    if n == 0 {
        Seq::empty()
    } else {
        let labels = block_labels_spec(dag, (n - 1) as nat).push((n - 1) as usize);
        let op = dag.operators[n - 1];
        if op.is_levelled() {
            join_spec(labels, op.inputs(), op.inputs().len())
        } else {
            labels
        }
    }
}

/// No label is after the operator that has it.
pub open spec fn labels_bounded(labels: Seq<usize>) -> bool {
    forall|j: int| 0 <= j < labels.len() ==> #[trigger] labels[j] <= j
}

/// Makes the blocks of `a` and `b` one.
fn merge(labels: &mut Vec<usize>, a: usize, b: usize)
    requires
        a < old(labels)@.len(),
        b < old(labels)@.len(),
        labels_bounded(old(labels)@),
    ensures
        final(labels)@ == merge_spec(old(labels)@, a as int, b as int),
        labels_bounded(final(labels)@),
{
    let la: usize = labels[a];
    let lb: usize = labels[b];
    let kept: usize = if la <= lb {
        la
    } else {
        lb
    };
    let dropped: usize = if la <= lb {
        lb
    } else {
        la
    };
    let n: usize = labels.len();
    let mut j: usize = 0;
    while j < n
        invariant
            n == labels@.len(),
            n == old(labels)@.len(),
            j <= n,
            kept <= dropped,
            labels_bounded(old(labels)@),
            forall|k: int|
                0 <= k < j ==> #[trigger] labels@[k] == if old(labels)@[k] == dropped {
                    kept
                } else {
                    old(labels)@[k]
                },
            forall|k: int| j <= k < n ==> #[trigger] labels@[k] == old(labels)@[k],
        decreases n - j,
    {
        if labels[j] == dropped {
            labels.set(j, kept);
        }
        j += 1;
    }
    proof {
        assert(labels@ =~= merge_spec(old(labels)@, a as int, b as int));
        assert forall|k: int| 0 <= k < labels@.len() implies #[trigger] labels@[k] <= k by {
            assert(old(labels)@[k] <= k);
        }
    }
}

/// Computes the block of every operator.
fn block_labels(dag: &OperationDag) -> (labels: Vec<usize>)
    requires
        dag@.wf(),
    ensures
        labels@ == block_labels_spec(dag@, dag@.operators.len()),
        labels@.len() == dag@.operators.len(),
        labels_bounded(labels@),
{
    let n: usize = dag.operators.len();
    let mut labels: Vec<usize> = Vec::new();
    let mut i: usize = 0;
    while i < n
        invariant
            dag@.wf(),
            n == dag@.operators.len(),
            n == dag.operators@.len(),
            i <= n,
            labels@.len() == i,
            labels@ == block_labels_spec(dag@, i as nat),
            labels_bounded(labels@),
        decreases n - i,
    {
        let ghost started = labels@.push(i);
        labels.push(i);
        let op = &dag.operators[i];
        assert(op@ == dag@.operators[i as int]);
        assert(op@.wf_at(i as int));
        if op.is_levelled() {
            let inputs = op.inputs();
            let nb_inputs: usize = inputs.len();
            let mut m: usize = 0;
            while m < nb_inputs
                invariant
                    nb_inputs == inputs@.len(),
                    inputs@ == op@.inputs(),
                    op@.wf_at(i as int),
                    m <= nb_inputs,
                    started.len() == i + 1,
                    labels@.len() == i + 1,
                    labels@ == join_spec(started, inputs@, m as nat),
                    labels_bounded(labels@),
                decreases nb_inputs - m,
            {
                assert(inputs@[m as int].i < i);
                merge(&mut labels, inputs[m].i, i);
                m += 1;
            }
        }
        i += 1;
    }
    labels
}

/// Among the first `n` operators, a table lookup of the block `b` asks for
/// the partition `c`.
pub open spec fn is_forced(
    dag: DagView,
    p_cut: Seq<Precision>,
    labels: Seq<usize>,
    n: nat,
    b: usize,
    c: PartitionIndex,
) -> bool {
    exists|l: int| 0 <= l < n && labels[l] == b && #[trigger] lut_class(dag, p_cut, l) == Some(c)
}

/// Among the first `n` operators, a table lookup on a result of the block
/// `b` asks for the partition `c`.
pub open spec fn is_exit(
    dag: DagView,
    p_cut: Seq<Precision>,
    labels: Seq<usize>,
    n: nat,
    b: usize,
    c: PartitionIndex,
) -> bool {
    exists|l: int|
        0 <= l < n && #[trigger] lut_class(dag, p_cut, l) == Some(c)
            && labels[dag.operators[l]->Lut_input.i as int] == b
}

/// The partition of a block, from the partitions that its own lookups ask
/// for (`forced`) and those that the lookups on its results ask for (`exit`):
/// the partition that its lookups agree on; the preferred one where they
/// disagree; without a lookup, the partition that the lookups on its results
/// agree on, and else the preferred one.
pub open spec fn choose_partition(
    forced_0: bool,
    forced_1: bool,
    exit_0: bool,
    exit_1: bool,
    default_partition: PartitionIndex,
) -> PartitionIndex {
    if forced_0 && forced_1 {
        if default_partition <= 1 {
            default_partition
        } else {
            0
        }
    } else if forced_0 {
        0
    } else if forced_1 {
        1
    } else if exit_0 && !exit_1 {
        0
    } else if exit_1 && !exit_0 {
        1
    } else {
        default_partition
    }
}

/// The partition of the block `b`.
pub open spec fn block_partition_spec(
    dag: DagView,
    p_cut: Seq<Precision>,
    default_partition: PartitionIndex,
    b: usize,
) -> PartitionIndex {
    let n = dag.operators.len();
    let labels = block_labels_spec(dag, n);
    choose_partition(
        is_forced(dag, p_cut, labels, n, b, 0),
        is_forced(dag, p_cut, labels, n, b, 1),
        is_exit(dag, p_cut, labels, n, b, 0),
        is_exit(dag, p_cut, labels, n, b, 1),
        default_partition,
    )
}

/// The partition of the operator `i` in a circuit of two partitions: the one
/// it asks for, for a table lookup; that of its block, for another operator.
pub open spec fn home_spec(
    dag: DagView,
    p_cut: Seq<Precision>,
    default_partition: PartitionIndex,
    i: int,
) -> PartitionIndex {
    match lut_class(dag, p_cut, i) {
        Some(c) => c,
        None => block_partition_spec(
            dag,
            p_cut,
            default_partition,
            block_labels_spec(dag, dag.operators.len())[i],
        ),
    }
}

/// The partition of every operator of a circuit of two partitions.
pub open spec fn homes_spec(
    dag: DagView,
    p_cut: Seq<Precision>,
    default_partition: PartitionIndex,
) -> Seq<PartitionIndex> {
    Seq::new(dag.operators.len(), |i: int| home_spec(dag, p_cut, default_partition, i))
}

/// Among its first `m` operands, the linear operator `i` has the operator
/// `j`, whose partition is not its own partition `c`.
pub open spec fn asks_copy_upto(
    dag: DagView,
    homes: Seq<PartitionIndex>,
    i: int,
    j: int,
    c: PartitionIndex,
    m: nat,
) -> bool {
    &&& dag.operators[i].is_levelled()
    &&& homes[i] == c
    &&& c != homes[j]
    &&& exists|k: int| 0 <= k < m && (#[trigger] dag.operators[i].inputs()[k]).i == j
}

/// The linear operator `i` uses the result of `j` in its own partition `c`,
/// which is not that of `j`.
pub open spec fn asks_copy(
    dag: DagView,
    homes: Seq<PartitionIndex>,
    i: int,
    j: int,
    c: PartitionIndex,
) -> bool {
    asks_copy_upto(dag, homes, i, j, c, dag.operators[i].inputs().len())
}

/// The partitions in which the first `n` operators, and then the first `m`
/// operands of the next, ask for a copy of the result of `j`.
pub open spec fn alternatives_upto(
    dag: DagView,
    homes: Seq<PartitionIndex>,
    j: int,
    n: nat,
    m: nat,
) -> Set<PartitionIndex> {
    Set::new(
        |c: PartitionIndex|
            (exists|i: int| 0 <= i < n && #[trigger] asks_copy(dag, homes, i, j, c))
                || asks_copy_upto(dag, homes, n as int, j, c, m),
    )
}

/// The partitions in which a copy of the result of `j` is asked for: the
/// partitions of the linear operators that use it, but its own.
pub open spec fn alternatives_spec(dag: DagView, homes: Seq<PartitionIndex>, j: int) -> Set<
    PartitionIndex,
> {
    Set::new(
        |c: PartitionIndex|
            exists|i: int| 0 <= i < dag.operators.len() && #[trigger] asks_copy(dag, homes, i, j, c),
    )
}

/// The partitions of a circuit with at most one threshold. Where the table
/// lookups ask for one partition only, every operator is of partition 0 and
/// no copy is asked for.
pub open spec fn partitions_spec(
    dag: DagView,
    p_cut: Seq<Precision>,
    default_partition: PartitionIndex,
) -> PartitionsView {
    if nb_partitions_spec(dag, p_cut) == 1 {
        PartitionsView {
            nb_partitions: 1,
            instrs_partition: Seq::new(
                dag.operators.len(),
                |j: int|
                    InstructionPartitionView { instruction_partition: 0, alternatives: Set::empty() },
            ),
        }
    } else {
        let homes = homes_spec(dag, p_cut, default_partition);
        PartitionsView {
            nb_partitions: 2,
            instrs_partition: Seq::new(
                dag.operators.len(),
                |j: int|
                    InstructionPartitionView {
                        instruction_partition: homes[j],
                        alternatives: alternatives_spec(dag, homes, j),
                    },
            ),
        }
    }
}

/// The partition that the operator `i` asks for by itself.
fn class_of(dag: &OperationDag, p_cut: &PrecisionCut, i: usize) -> (c: Option<PartitionIndex>)
    requires
        dag@.wf(),
        i < dag@.operators.len(),
    ensures
        c == lut_class(dag@, p_cut@, i as int),
        c is Some ==> c.unwrap() <= p_cut@.len(),
{
    let op = &dag.operators[i];
    assert(op@ == dag@.operators[i as int]);
    assert(op@.wf_at(i as int));
    match op {
        Operator::Lut { input, .. } => {
            assert(op@.inputs()[0] == *input);
            Some(p_cut.lut_partition(dag.out_precisions[input.i]))
        },
        _ => None,
    }
}

/// Whether some table lookup asks for the partition `c`.
fn has_class(dag: &OperationDag, p_cut: &PrecisionCut, c: PartitionIndex) -> (b: bool)
    requires
        dag@.wf(),
    ensures
        b == class_is_present(dag@, p_cut@, c),
{
    let n: usize = dag.operators.len();
    let mut i: usize = 0;
    while i < n
        invariant
            dag@.wf(),
            n == dag@.operators.len(),
            i <= n,
            forall|l: int| 0 <= l < i ==> #[trigger] lut_class(dag@, p_cut@, l) != Some(c),
        decreases n - i,
    {
        if class_of(dag, p_cut, i) == Some(c) {
            return true;
        }
        i += 1;
    }
    false
}

fn all_false(n: usize) -> (v: Vec<bool>)
    ensures
        v@.len() == n,
        forall|i: int| 0 <= i < n ==> !v@[i],
{
    let mut v: Vec<bool> = Vec::new();
    let mut i: usize = 0;
    while i < n
        invariant
            i <= n,
            v@.len() == i,
            forall|j: int| 0 <= j < i ==> !v@[j],
        decreases n - i,
    {
        v.push(false);
        i += 1;
    }
    v
}

/// For each block, whether one of its table lookups asks for the partition
/// `c`.
fn forced_blocks(dag: &OperationDag, p_cut: &PrecisionCut, labels: &Vec<usize>, c: PartitionIndex) -> (v:
    Vec<bool>)
    requires
        dag@.wf(),
        labels@.len() == dag@.operators.len(),
        labels_bounded(labels@),
    ensures
        v@.len() == dag@.operators.len(),
        forall|b: int|
            0 <= b < v@.len() ==> v@[b] == is_forced(
                dag@,
                p_cut@,
                labels@,
                dag@.operators.len(),
                b as usize,
                c,
            ),
{
    let n: usize = dag.operators.len();
    let mut v = all_false(n);
    let mut l: usize = 0;
    while l < n
        invariant
            dag@.wf(),
            n == dag@.operators.len(),
            n == labels@.len(),
            labels_bounded(labels@),
            l <= n,
            v@.len() == n,
            forall|b: int|
                0 <= b < n ==> v@[b] == is_forced(dag@, p_cut@, labels@, l as nat, b as usize, c),
        decreases n - l,
    {
        let ghost before = v@;
        let hit = class_of(dag, p_cut, l) == Some(c);
        if hit {
            assert(labels@[l as int] <= l);
            v.set(labels[l], true);
        }
        proof {
            assert forall|b: int| 0 <= b < n implies v@[b] == is_forced(
                dag@,
                p_cut@,
                labels@,
                (l + 1) as nat,
                b as usize,
                c,
            ) by {
                let was = is_forced(dag@, p_cut@, labels@, l as nat, b as usize, c);
                let now = is_forced(dag@, p_cut@, labels@, (l + 1) as nat, b as usize, c);
                if was {
                    let w = choose|w: int|
                        0 <= w < l && labels@[w] == b as usize && #[trigger] lut_class(
                            dag@,
                            p_cut@,
                            w,
                        ) == Some(c);
                    assert(0 <= w < l + 1 && labels@[w] == b as usize && lut_class(dag@, p_cut@, w)
                        == Some(c));
                }
                if hit && labels@[l as int] == b {
                    assert(0 <= l < l + 1 && labels@[l as int] == b as usize && lut_class(
                        dag@,
                        p_cut@,
                        l as int,
                    ) == Some(c));
                }
                if now {
                    let w = choose|w: int|
                        0 <= w < l + 1 && labels@[w] == b as usize && #[trigger] lut_class(
                            dag@,
                            p_cut@,
                            w,
                        ) == Some(c);
                    if w < l {
                        assert(was);
                    }
                }
            }
        }
        l += 1;
    }
    v
}

/// For each block, whether a table lookup on one of its results asks for the
/// partition `c`.
fn exit_blocks(dag: &OperationDag, p_cut: &PrecisionCut, labels: &Vec<usize>, c: PartitionIndex) -> (v:
    Vec<bool>)
    requires
        dag@.wf(),
        labels@.len() == dag@.operators.len(),
        labels_bounded(labels@),
    ensures
        v@.len() == dag@.operators.len(),
        forall|b: int|
            0 <= b < v@.len() ==> v@[b] == is_exit(
                dag@,
                p_cut@,
                labels@,
                dag@.operators.len(),
                b as usize,
                c,
            ),
{
    let n: usize = dag.operators.len();
    let mut v = all_false(n);
    let mut l: usize = 0;
    while l < n
        invariant
            dag@.wf(),
            n == dag@.operators.len(),
            n == dag.operators@.len(),
            n == labels@.len(),
            labels_bounded(labels@),
            l <= n,
            v@.len() == n,
            forall|b: int|
                0 <= b < n ==> v@[b] == is_exit(dag@, p_cut@, labels@, l as nat, b as usize, c),
        decreases n - l,
    {
        let hit = class_of(dag, p_cut, l) == Some(c);
        let ghost target: int = if hit {
            labels@[dag@.operators[l as int]->Lut_input.i as int] as int
        } else {
            -1
        };
        if hit {
            let op = &dag.operators[l];
            assert(op@ == dag@.operators[l as int]);
            assert(op@.wf_at(l as int));
            match op {
                Operator::Lut { input, .. } => {
                    assert(op@.inputs()[0] == *input);
                    assert(labels@[input.i as int] <= input.i);
                    v.set(labels[input.i], true);
                },
                _ => {},
            }
        }
        proof {
            assert forall|b: int| 0 <= b < n implies v@[b] == is_exit(
                dag@,
                p_cut@,
                labels@,
                (l + 1) as nat,
                b as usize,
                c,
            ) by {
                let was = is_exit(dag@, p_cut@, labels@, l as nat, b as usize, c);
                let now = is_exit(dag@, p_cut@, labels@, (l + 1) as nat, b as usize, c);
                if was {
                    let w = choose|w: int|
                        0 <= w < l && #[trigger] lut_class(dag@, p_cut@, w) == Some(c)
                            && labels@[dag@.operators[w]->Lut_input.i as int] == b as usize;
                    assert(0 <= w < l + 1 && lut_class(dag@, p_cut@, w) == Some(c)
                        && labels@[dag@.operators[w]->Lut_input.i as int] == b as usize);
                }
                if hit && target == b {
                    assert(0 <= l < l + 1 && lut_class(dag@, p_cut@, l as int) == Some(c)
                        && labels@[dag@.operators[l as int]->Lut_input.i as int] == b as usize);
                }
                if now {
                    let w = choose|w: int|
                        0 <= w < l + 1 && #[trigger] lut_class(dag@, p_cut@, w) == Some(c)
                            && labels@[dag@.operators[w]->Lut_input.i as int] == b as usize;
                    if w < l {
                        assert(was);
                    }
                }
            }
        }
        l += 1;
    }
    v
}

fn pick_partition(
    forced_0: bool,
    forced_1: bool,
    exit_0: bool,
    exit_1: bool,
    default_partition: PartitionIndex,
) -> (p: PartitionIndex)
    ensures
        p == choose_partition(forced_0, forced_1, exit_0, exit_1, default_partition),
{
    if forced_0 && forced_1 {
        if default_partition <= 1 {
            default_partition
        } else {
            0
        }
    } else if forced_0 {
        0
    } else if forced_1 {
        1
    } else if exit_0 && !exit_1 {
        0
    } else if exit_1 && !exit_0 {
        1
    } else {
        default_partition
    }
}

/// Computes the partition of every operator of a circuit of two partitions.
fn homes(dag: &OperationDag, p_cut: &PrecisionCut, default_partition: PartitionIndex) -> (r: Vec<
    PartitionIndex,
>)
    requires
        dag@.wf(),
    ensures
        r@ == homes_spec(dag@, p_cut@, default_partition),
{
    let n: usize = dag.operators.len();
    let labels = block_labels(dag);
    let forced_0 = forced_blocks(dag, p_cut, &labels, 0);
    let forced_1 = forced_blocks(dag, p_cut, &labels, 1);
    let exit_0 = exit_blocks(dag, p_cut, &labels, 0);
    let exit_1 = exit_blocks(dag, p_cut, &labels, 1);
    let mut r: Vec<PartitionIndex> = Vec::new();
    let mut i: usize = 0;
    while i < n
        invariant
            dag@.wf(),
            n == dag@.operators.len(),
            labels@ == block_labels_spec(dag@, n as nat),
            labels@.len() == n,
            labels_bounded(labels@),
            forced_0@.len() == n,
            forced_1@.len() == n,
            exit_0@.len() == n,
            exit_1@.len() == n,
            forall|b: int|
                0 <= b < n ==> forced_0@[b] == is_forced(dag@, p_cut@, labels@, n as nat, b as usize, 0),
            forall|b: int|
                0 <= b < n ==> forced_1@[b] == is_forced(dag@, p_cut@, labels@, n as nat, b as usize, 1),
            forall|b: int|
                0 <= b < n ==> exit_0@[b] == is_exit(dag@, p_cut@, labels@, n as nat, b as usize, 0),
            forall|b: int|
                0 <= b < n ==> exit_1@[b] == is_exit(dag@, p_cut@, labels@, n as nat, b as usize, 1),
            i <= n,
            r@.len() == i,
            forall|k: int| 0 <= k < i ==> r@[k] == home_spec(dag@, p_cut@, default_partition, k),
        decreases n - i,
    {
        let home: PartitionIndex = match class_of(dag, p_cut, i) {
            Some(c) => c,
            None => {
                assert(labels@[i as int] <= i);
                let b: usize = labels[i];
                pick_partition(forced_0[b], forced_1[b], exit_0[b], exit_1[b], default_partition)
            },
        };
        r.push(home);
        i += 1;
    }
    assert(r@ =~= homes_spec(dag@, p_cut@, default_partition));
    r
}

/// Every operator in the partition 0, and no copy asked for.
fn only_1_partition(n: usize) -> (r: Partitions)
    ensures
        forall|j: int| 0 <= j < r.instrs_partition@.len() ==> (#[trigger] r.instrs_partition@[j]).wf(),
        r@.nb_partitions == 1,
        r@.instrs_partition == Seq::new(
            n as nat,
            |j: int|
                (InstructionPartitionView {
                    instruction_partition: 0,
                    alternatives: Set::<PartitionIndex>::empty(),
                }),
        ),
{
    let mut instrs_partition: Vec<InstructionPartition> = Vec::new();
    let mut i: usize = 0;
    while i < n
        invariant
            i <= n,
            instrs_partition@.len() == i,
            forall|j: int| 0 <= j < i ==> (#[trigger] instrs_partition@[j]).wf(),
            forall|j: int|
                0 <= j < i ==> (#[trigger] instrs_partition@[j])@ == (InstructionPartitionView {
                    instruction_partition: 0,
                    alternatives: Set::<PartitionIndex>::empty(),
                }),
        decreases n - i,
    {
        instrs_partition.push(InstructionPartition::new(0));
        i += 1;
    }
    let r = Partitions { nb_partitions: 1, instrs_partition };
    assert(r@.instrs_partition =~= Seq::new(
        n as nat,
        |j: int|
            InstructionPartitionView {
                instruction_partition: 0,
                alternatives: Set::<PartitionIndex>::empty(),
            },
    ));
    r
}

/// What one more operand of the linear operator `i` adds to the partitions
/// in which a copy of `j` is asked for: the partition of `i`, where the
/// operand is `j` and has another partition.
pub proof fn lemma_alternatives_operand(
    dag: DagView,
    homes: Seq<PartitionIndex>,
    j: int,
    i: nat,
    m: nat,
)
    requires
        dag.operators[i as int].is_levelled(),
        m < dag.operators[i as int].inputs().len(),
    ensures
        alternatives_upto(dag, homes, j, i, m + 1) == if dag.operators[i as int].inputs()[m as int].i
            == j && homes[i as int] != homes[j] {
            alternatives_upto(dag, homes, j, i, m).insert(homes[i as int])
        } else {
            alternatives_upto(dag, homes, j, i, m)
        },
{
    let inputs = dag.operators[i as int].inputs();
    let before = alternatives_upto(dag, homes, j, i, m);
    let after = alternatives_upto(dag, homes, j, i, m + 1);
    let expected = if inputs[m as int].i == j && homes[i as int] != homes[j] {
        before.insert(homes[i as int])
    } else {
        before
    };
    assert forall|c: PartitionIndex| after.contains(c) <==> expected.contains(c) by {
        if asks_copy_upto(dag, homes, i as int, j, c, m) {
            let k = choose|k: int| 0 <= k < m && (#[trigger] inputs[k]).i == j;
            assert(0 <= k < m + 1 && inputs[k].i == j);
        }
        if asks_copy_upto(dag, homes, i as int, j, c, m + 1) {
            let k = choose|k: int| 0 <= k < m + 1 && (#[trigger] inputs[k]).i == j;
            if k < m {
                assert(asks_copy_upto(dag, homes, i as int, j, c, m));
            }
        }
        if inputs[m as int].i == j && homes[i as int] != homes[j] && c == homes[i as int] {
            assert(0 <= m < m + 1 && inputs[m as int].i == j);
        }
    }
    assert(after =~= expected);
}

/// Once all the operands of the operator `i` are seen, the partitions in
/// which a copy of `j` is asked for are those that the first `i + 1`
/// operators ask for.
pub proof fn lemma_alternatives_operator(dag: DagView, homes: Seq<PartitionIndex>, j: int, i: nat)
    ensures
        alternatives_upto(dag, homes, j, i + 1, 0) == alternatives_upto(
            dag,
            homes,
            j,
            i,
            dag.operators[i as int].inputs().len(),
        ),
        !dag.operators[i as int].is_levelled() ==> alternatives_upto(dag, homes, j, i + 1, 0)
            == alternatives_upto(dag, homes, j, i, 0),
{
    let len = dag.operators[i as int].inputs().len();
    let next = alternatives_upto(dag, homes, j, i + 1, 0);
    let full = alternatives_upto(dag, homes, j, i, len);
    assert forall|c: PartitionIndex| next.contains(c) <==> full.contains(c) by {
        if exists|w: int| 0 <= w < i + 1 && #[trigger] asks_copy(dag, homes, w, j, c) {
            let w = choose|w: int| 0 <= w < i + 1 && #[trigger] asks_copy(dag, homes, w, j, c);
            if w < i {
                assert(0 <= w < i && asks_copy(dag, homes, w, j, c));
            }
        }
        if exists|w: int| 0 <= w < i && #[trigger] asks_copy(dag, homes, w, j, c) {
            let w = choose|w: int| 0 <= w < i && #[trigger] asks_copy(dag, homes, w, j, c);
            assert(0 <= w < i + 1 && asks_copy(dag, homes, w, j, c));
        }
        if asks_copy_upto(dag, homes, i as int, j, c, len) {
            assert(0 <= i < i + 1 && asks_copy(dag, homes, i as int, j, c));
        }
    }
    assert(next =~= full);
    if !dag.operators[i as int].is_levelled() {
        assert(alternatives_upto(dag, homes, j, i, 0) =~= full);
    }
}

/// Chooses the partition of every operator of `dag`, and the partitions in
/// which a copy of its result is needed, for at most one threshold.
pub fn partitionning_with_preferred(
    dag: &OperationDag,
    p_cut: &PrecisionCut,
    default_partition: PartitionIndex,
) -> (r: Result<Partitions, AnalysisError>)
    requires
        dag@.wf(),
    ensures
        p_cut@.len() > 1 ==> r == Err::<Partitions, AnalysisError>(
            AnalysisError::TooManyPrecisionCuts { nb_cuts: p_cut@.len() as usize },
        ),
        p_cut@.len() <= 1 ==> r is Ok && r.unwrap()@ == partitions_spec(
            dag@,
            p_cut@,
            default_partition,
        ),
        r is Ok ==> forall|j: int|
            0 <= j < r.unwrap().instrs_partition@.len() ==> (
            #[trigger] r.unwrap().instrs_partition@[j]).wf(),
{
    if p_cut.p_cut.len() > 1 {
        return Err(AnalysisError::TooManyPrecisionCuts { nb_cuts: p_cut.p_cut.len() });
    }
    let n: usize = dag.operators.len();
    if !(has_class(dag, p_cut, 0) && has_class(dag, p_cut, 1)) {
        return Ok(only_1_partition(n));
    }
    let homes = homes(dag, p_cut, default_partition);
    let mut instrs_partition: Vec<InstructionPartition> = Vec::new();
    let mut j: usize = 0;
    while j < n
        invariant
            n == dag@.operators.len(),
            homes@.len() == n,
            j <= n,
            instrs_partition@.len() == j,
            forall|k: int| 0 <= k < j ==> (#[trigger] instrs_partition@[k]).wf(),
            forall|k: int|
                0 <= k < j ==> (#[trigger] instrs_partition@[k])@ == (InstructionPartitionView {
                    instruction_partition: homes@[k],
                    alternatives: alternatives_upto(dag@, homes@, k, 0, 0),
                }),
        decreases n - j,
    {
        let record = InstructionPartition::new(homes[j]);
        assert(record@.alternatives =~= alternatives_upto(dag@, homes@, j as int, 0, 0));
        instrs_partition.push(record);
        j += 1;
    }
    let mut i: usize = 0;
    while i < n
        invariant
            dag@.wf(),
            n == dag@.operators.len(),
            n == dag.operators@.len(),
            homes@.len() == n,
            i <= n,
            instrs_partition@.len() == n,
            forall|k: int| 0 <= k < n ==> (#[trigger] instrs_partition@[k]).wf(),
            forall|k: int|
                0 <= k < n ==> (#[trigger] instrs_partition@[k])@ == (InstructionPartitionView {
                    instruction_partition: homes@[k],
                    alternatives: alternatives_upto(dag@, homes@, k, i as nat, 0),
                }),
        decreases n - i,
    {
        let op = &dag.operators[i];
        assert(op@ == dag@.operators[i as int]);
        assert(op@.wf_at(i as int));
        if op.is_levelled() {
            let inputs = op.inputs();
            let nb_inputs: usize = inputs.len();
            let mut m: usize = 0;
            while m < nb_inputs
                invariant
                    n == dag@.operators.len(),
                    homes@.len() == n,
                    i < n,
                    op@ == dag@.operators[i as int],
                    op@.is_levelled(),
                    op@.wf_at(i as int),
                    inputs@ == op@.inputs(),
                    nb_inputs == inputs@.len(),
                    m <= nb_inputs,
                    instrs_partition@.len() == n,
                    forall|k: int| 0 <= k < n ==> (#[trigger] instrs_partition@[k]).wf(),
                    forall|k: int|
                        0 <= k < n ==> (#[trigger] instrs_partition@[k])@ == (
                        InstructionPartitionView {
                            instruction_partition: homes@[k],
                            alternatives: alternatives_upto(dag@, homes@, k, i as nat, m as nat),
                        }),
                decreases nb_inputs - m,
            {
                let input: usize = inputs[m].i;
                assert(input < i);
                let ghost before = instrs_partition@;
                if homes[i] != homes[input] {
                    let mut record = instrs_partition[input].clone();
                    record.add_alternative_output_representation(homes[i]);
                    instrs_partition.set(input, record);
                }
                proof {
                    assert forall|k: int| 0 <= k < n implies (#[trigger] instrs_partition@[k])@ == (
                    InstructionPartitionView {
                        instruction_partition: homes@[k],
                        alternatives: alternatives_upto(dag@, homes@, k, i as nat, (m + 1) as nat),
                    }) by {
                        lemma_alternatives_operand(dag@, homes@, k, i as nat, m as nat);
                        if k != input || homes@[i as int] == homes@[input as int] {
                            assert(instrs_partition@[k] == before[k]);
                        }
                    }
                }
                m += 1;
            }
        }
        proof {
            assert forall|k: int| 0 <= k < n implies (#[trigger] instrs_partition@[k])@ == (
            InstructionPartitionView {
                instruction_partition: homes@[k],
                alternatives: alternatives_upto(dag@, homes@, k, (i + 1) as nat, 0),
            }) by {
                lemma_alternatives_operator(dag@, homes@, k, i as nat);
            }
        }
        i += 1;
    }
    let r = Partitions { nb_partitions: 2, instrs_partition };
    proof {
        let expected = partitions_spec(dag@, p_cut@, default_partition);
        assert forall|k: int| 0 <= k < n implies r@.instrs_partition[k]
            == expected.instrs_partition[k] by {
            assert(alternatives_upto(dag@, homes@, k, n as nat, 0) =~= alternatives_spec(
                dag@,
                homes@,
                k,
            ));
        }
        assert(r@.instrs_partition =~= expected.instrs_partition);
    }
    Ok(r)
}

/// Among the first `n` operators, every linear operator is in the block of
/// each of its operands.
pub open spec fn blocks_closed(dag: DagView, labels: Seq<usize>, n: nat) -> bool {
    forall|i: int, k: int|
        0 <= i < n && dag.operators[i].is_levelled() && 0 <= k < dag.operators[i].inputs().len()
            ==> labels[i] == labels[(#[trigger] dag.operators[i].inputs()[k]).i as int]
}

/// Making two blocks one keeps together what was together, and puts the two
/// together.
pub proof fn lemma_merge_keeps_blocks(labels: Seq<usize>, a: int, b: int)
    requires
        0 <= a < labels.len(),
        0 <= b < labels.len(),
    ensures
        merge_spec(labels, a, b).len() == labels.len(),
        merge_spec(labels, a, b)[a] == merge_spec(labels, a, b)[b],
        forall|x: int, y: int|
            0 <= x < labels.len() && 0 <= y < labels.len() && labels[x] == labels[y]
                ==> #[trigger] merge_spec(labels, a, b)[x] == #[trigger] merge_spec(labels, a, b)[y],
{
}

/// Joining the last operator with its first `m` operands keeps together what
/// was together, and puts the operator together with each of them.
pub proof fn lemma_join_keeps_blocks(labels: Seq<usize>, inputs: Seq<OperatorIndex>, m: nat)
    requires
        labels.len() >= 1,
        m <= inputs.len(),
        forall|k: int| 0 <= k < inputs.len() ==> (#[trigger] inputs[k]).i < labels.len(),
    ensures
        join_spec(labels, inputs, m).len() == labels.len(),
        forall|x: int, y: int|
            0 <= x < labels.len() && 0 <= y < labels.len() && labels[x] == labels[y]
                ==> #[trigger] join_spec(labels, inputs, m)[x] == #[trigger] join_spec(
                labels,
                inputs,
                m,
            )[y],
        forall|k: int|
            0 <= k < m ==> join_spec(labels, inputs, m)[(#[trigger] inputs[k]).i as int]
                == join_spec(labels, inputs, m)[labels.len() - 1],
    decreases m,
{
    if m > 0 {
        let before = join_spec(labels, inputs, (m - 1) as nat);
        let after = join_spec(labels, inputs, m);
        let last = labels.len() - 1;
        lemma_join_keeps_blocks(labels, inputs, (m - 1) as nat);
        assert(inputs[m - 1].i < labels.len());
        lemma_merge_keeps_blocks(before, inputs[m - 1].i as int, last);
        assert forall|x: int, y: int|
            0 <= x < labels.len() && 0 <= y < labels.len() && labels[x] == labels[y] implies after[x]
            == after[y] by {
            assert(before[x] == before[y]);
        }
        assert forall|k: int| 0 <= k < m implies after[(#[trigger] inputs[k]).i as int]
            == after[last] by {
            if k < m - 1 {
                assert(before[inputs[k].i as int] == before[last]);
            }
        }
    }
}

/// In a well-formed circuit, every linear operator is in the block of each of
/// its operands: a block holds whatever linear operators join.
pub proof fn lemma_blocks_closed(dag: DagView, n: nat)
    requires
        dag.wf(),
        n <= dag.operators.len(),
    ensures
        block_labels_spec(dag, n).len() == n,
        blocks_closed(dag, block_labels_spec(dag, n), n),
    decreases n,
{
    if n > 0 {
        let before = block_labels_spec(dag, (n - 1) as nat);
        lemma_blocks_closed(dag, (n - 1) as nat);
        let started = before.push((n - 1) as usize);
        let op = dag.operators[n - 1];
        let labels = block_labels_spec(dag, n);
        assert(op.wf_at(n - 1));
        assert forall|i: int, k: int|
            0 <= i < n - 1 && dag.operators[i].is_levelled() && 0 <= k
                < dag.operators[i].inputs().len() implies started[i] == started[(
        #[trigger] dag.operators[i].inputs()[k]).i as int] by {
            assert(dag.operators[i].wf_at(i));
            assert(dag.operators[i].inputs()[k].i < i);
        }
        if op.is_levelled() {
            lemma_join_keeps_blocks(started, op.inputs(), op.inputs().len());
            assert forall|i: int, k: int|
                0 <= i < n && dag.operators[i].is_levelled() && 0 <= k
                    < dag.operators[i].inputs().len() implies labels[i] == labels[(
            #[trigger] dag.operators[i].inputs()[k]).i as int] by {
                assert(dag.operators[i].wf_at(i));
                let j = dag.operators[i].inputs()[k].i as int;
                assert(j < i);
                if i < n - 1 {
                    assert(started[i] == started[j]);
                }
            }
        }
    }
}

/// In a well-formed circuit of two partitions, a linear operator has the
/// partition of each of its operands that is not a table lookup: a copy is
/// asked for of the results of lookups only.
pub proof fn lemma_linear_operands_share_partition(
    dag: DagView,
    p_cut: Seq<Precision>,
    default_partition: PartitionIndex,
    i: int,
    k: int,
)
    requires
        dag.wf(),
        0 <= i < dag.operators.len(),
        dag.operators[i].is_levelled(),
        0 <= k < dag.operators[i].inputs().len(),
        !(dag.operators[dag.operators[i].inputs()[k].i as int] is Lut),
    ensures
        home_spec(dag, p_cut, default_partition, i) == home_spec(
            dag,
            p_cut,
            default_partition,
            dag.operators[i].inputs()[k].i as int,
        ),
        forall|c: PartitionIndex|
            !asks_copy(
                dag,
                homes_spec(dag, p_cut, default_partition),
                i,
                dag.operators[i].inputs()[k].i as int,
                c,
            ),
{
    lemma_blocks_closed(dag, dag.operators.len());
    let j = dag.operators[i].inputs()[k].i as int;
    assert(dag.operators[i].wf_at(i));
    assert(j < i);
    let labels = block_labels_spec(dag, dag.operators.len());
    assert(labels[i] == labels[j]);
}

} // verus!
