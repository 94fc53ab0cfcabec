//! Symbolic noise variances: linear combinations of the basic noise sources.
//!
//! Over `n` partitions an expression has `n * (n + 2)` coefficients: for each
//! partition the weight of the noise of a fresh input and the weight of the
//! noise that a bootstrap leaves, and for each ordered pair of partitions the
//! weight of the noise that converting a ciphertext from the first to the
//! second adds.

use vstd::prelude::*;

verus! {

/// Number of coefficients of an expression over `nb` partitions.
pub open spec fn nb_coeffs(nb: nat) -> nat {
    nb * (nb + 2)
}

/// Position of the fresh-input coefficient of partition `p`.
pub open spec fn input_index(p: nat) -> int {
    p as int
}

/// Position of the post-bootstrap coefficient of partition `p`.
pub open spec fn pbs_index(nb: nat, p: nat) -> int {
    (nb + p) as int
}

/// Position of the coefficient of the conversion from `src` to `dst`.
pub open spec fn keyswitch_index(nb: nat, src: nat, dst: nat) -> int {
    (2 * nb + src * nb + dst) as int
}

/// The conversion coefficients lie after the per-partition ones, inside the
/// expression.
pub proof fn lemma_keyswitch_index_in_range(nb: nat, src: nat, dst: nat)
    requires
        src < nb,
        dst < nb,
    ensures
        2 * nb <= keyswitch_index(nb, src, dst) < nb_coeffs(nb),
{
    assert(src * nb + dst < nb * nb) by (nonlinear_arith)
        requires
            src < nb,
            dst < nb,
    ;
    assert(nb * (nb + 2) == nb * nb + 2 * nb) by (nonlinear_arith);
}

/// Two different pairs of partitions have different conversion coefficients.
pub proof fn lemma_keyswitch_index_injective(nb: nat, s1: nat, d1: nat, s2: nat, d2: nat)
    requires
        d1 < nb,
        d2 < nb,
        s1 != s2 || d1 != d2,
    ensures
        keyswitch_index(nb, s1, d1) != keyswitch_index(nb, s2, d2),
{
    if s1 < s2 {
        assert(s1 * nb + nb <= s2 * nb) by (nonlinear_arith)
            requires
                s1 < s2,
        ;
    } else if s2 < s1 {
        assert(s2 * nb + nb <= s1 * nb) by (nonlinear_arith)
            requires
                s2 < s1,
        ;
    }
}

/// The mathematical value of a symbolic variance.
pub struct VarianceModel {
    /// The partition whose ciphertexts carry this variance; `None` marks an
    /// expression that was never computed and must not be read.
    pub partition: Option<nat>,
    pub nb_partitions: nat,
    pub coeffs: Seq<nat>,
}

impl VarianceModel {
    /// There are as many coefficients as the number of partitions asks for.
    pub open spec fn wf(self) -> bool {
        self.coeffs.len() == nb_coeffs(self.nb_partitions)
    }

    /// Every coefficient can be stored in 128 bits.
    pub open spec fn fits(self) -> bool {
        forall|i: int| 0 <= i < self.coeffs.len() ==> #[trigger] self.coeffs[i] <= u128::MAX
    }

    /// The neutral placeholder: an expression over no partition at all.
    pub open spec fn zero() -> Self {
        VarianceModel { partition: Some(0nat), nb_partitions: 0, coeffs: Seq::empty() }
    }

    /// The expression over `nb` partitions whose coefficients are all zero.
    pub open spec fn null(nb: nat, partition: Option<nat>) -> Self {
        VarianceModel {
            partition,
            nb_partitions: nb,
            coeffs: Seq::new(nb_coeffs(nb), |i: int| 0nat),
        }
    }

    /// The expression that stands where nothing was computed.
    pub open spec fn unset(nb: nat) -> Self {
        Self::null(nb, None)
    }

    /// Whether this stands where nothing was computed.
    pub open spec fn is_unset(self) -> bool {
        self.partition is None
    }

    /// The noise of a fresh input of partition `p`.
    pub open spec fn input(nb: nat, p: nat) -> Self {
        VarianceModel {
            partition: Some(p),
            nb_partitions: nb,
            coeffs: Self::null(nb, None).coeffs.update(input_index(p), 1nat),
        }
    }

    /// The noise that a bootstrap of partition `p` leaves.
    pub open spec fn after_pbs(nb: nat, p: nat) -> Self {
        VarianceModel {
            partition: Some(p),
            nb_partitions: nb,
            coeffs: Self::null(nb, None).coeffs.update(pbs_index(nb, p), 1nat),
        }
    }

    /// The weight of the fresh-input noise of the partition `p`.
    pub open spec fn coeff_input(self, p: nat) -> nat {
        self.coeffs[input_index(p)]
    }

    /// The weight of the post-bootstrap noise of the partition `p`.
    pub open spec fn coeff_pbs(self, p: nat) -> nat {
        self.coeffs[pbs_index(self.nb_partitions, p)]
    }

    /// The weight of the noise of the conversion from `src` to `dst`.
    pub open spec fn coeff_partition_keyswitch_to_big(self, src: nat, dst: nat) -> nat {
        self.coeffs[keyswitch_index(self.nb_partitions, src, dst)]
    }

    /// The expression after a conversion from `src` to `dst`: one more unit of
    /// the noise of that conversion, everything else kept.
    pub open spec fn after_partition_keyswitch_to_big(self, src: nat, dst: nat) -> Self {
        let k = keyswitch_index(self.nb_partitions, src, dst);
        VarianceModel {
            partition: Some(dst),
            nb_partitions: self.nb_partitions,
            coeffs: self.coeffs.update(k, self.coeffs[k] + 1),
        }
    }

    /// Every coefficient multiplied by `factor`.
    pub open spec fn scaled(self, factor: nat) -> Self {
        VarianceModel {
            partition: self.partition,
            nb_partitions: self.nb_partitions,
            coeffs: Seq::new(self.coeffs.len(), |i: int| self.coeffs[i] * factor),
        }
    }

    /// The expression after a linear operator that amplifies by `manp`.
    pub open spec fn after_levelled_op(self, manp: nat) -> Self {
        self.scaled(manp * manp)
    }

    /// The sum, coefficient by coefficient; the placeholder is neutral.
    pub open spec fn plus(self, rhs: Self) -> Self {
        if self == Self::zero() {
            rhs
        } else if rhs == Self::zero() {
            self
        } else {
            VarianceModel {
                partition: self.partition,
                nb_partitions: self.nb_partitions,
                coeffs: Seq::new(self.coeffs.len(), |i: int| self.coeffs[i] + rhs.coeffs[i]),
            }
        }
    }

    /// The least expression that is at least `self` and at least `other` in
    /// every coefficient.
    pub open spec fn max(self, other: Self) -> Self {
        VarianceModel {
            partition: self.partition,
            nb_partitions: self.nb_partitions,
            coeffs: Seq::new(
                self.coeffs.len(),
                |i: int|
                    if self.coeffs[i] >= other.coeffs[i] {
                        self.coeffs[i]
                    } else {
                        other.coeffs[i]
                    },
            ),
        }
    }

    /// `self` is at least `other` in every coefficient.
    pub open spec fn dominates(self, other: Self) -> bool {
        &&& self.coeffs.len() == other.coeffs.len()
        &&& forall|i: int| 0 <= i < self.coeffs.len() ==> self.coeffs[i] >= other.coeffs[i]
    }
}

/// Of two expressions of which one dominates the other, `max` selects the
/// dominating one.
pub proof fn lemma_max_selects_dominant(a: VarianceModel, b: VarianceModel)
    requires
        a.coeffs.len() == b.coeffs.len(),
    ensures
        a.dominates(b) ==> a.max(b) == a,
        b.dominates(a) ==> a.max(b).coeffs == b.coeffs,
        a.max(b).dominates(a),
        a.max(b).dominates(b),
{
    if a.dominates(b) {
        assert(a.max(b).coeffs =~= a.coeffs);
    }
    if b.dominates(a) {
        assert(a.max(b).coeffs =~= b.coeffs);
    }
}

/// A symbolic variance with 128-bit coefficients.
#[derive(Debug, PartialEq, Eq)]
pub struct SymbolicVariance {
    partition: Option<usize>,
    nb_partitions: usize,
    coeffs: Vec<u128>,
}

impl View for SymbolicVariance {
    type V = VarianceModel;

    closed spec fn view(&self) -> VarianceModel {
        VarianceModel {
            partition: match self.partition {
                Some(p) => Some(p as nat),
                None => None,
            },
            nb_partitions: self.nb_partitions as nat,
            coeffs: self.coeffs@.map_values(|c: u128| c as nat),
        }
    }
}

fn zeros(n: usize) -> (v: Vec<u128>)
    ensures
        v@.len() == n,
        forall|i: int| 0 <= i < n ==> v@[i] == 0,
{
    let mut v: Vec<u128> = Vec::new();
    let mut i: usize = 0;
    while i < n
        invariant
            i <= n,
            v@.len() == i,
            forall|j: int| 0 <= j < i ==> v@[j] == 0,
        decreases n - i,
    {
        v.push(0);
        i += 1;
    }
    v
}

fn copy_of(src: &Vec<u128>) -> (v: Vec<u128>)
    ensures
        v@ == src@,
{
    let n: usize = src.len();
    let mut v: Vec<u128> = Vec::new();
    let mut i: usize = 0;
    while i < n
        invariant
            n == src@.len(),
            i <= n,
            v@.len() == i,
            forall|j: int| 0 <= j < i ==> v@[j] == src@[j],
        decreases n - i,
    {
        v.push(src[i]);
        i += 1;
    }
    assert(v@ =~= src@);
    v
}

impl Clone for SymbolicVariance {
    fn clone(&self) -> (r: Self)
        ensures
            r@ == self@,
            self.wf() ==> r.wf(),
    {
        SymbolicVariance {
            partition: self.partition,
            nb_partitions: self.nb_partitions,
            coeffs: copy_of(&self.coeffs),
        }
    }
}

impl SymbolicVariance {
    /// The representation is consistent: there are as many coefficients as the
    /// number of partitions asks for.
    pub closed spec fn wf(&self) -> bool {
        self.coeffs@.len() == nb_coeffs(self.nb_partitions as nat)
    }

    /// The value of a well-formed expression is well formed, and its
    /// coefficients fit in 128 bits.
    pub proof fn lemma_view_wf(&self)
        requires
            self.wf(),
        ensures
            self@.wf(),
            self@.fits(),
    {
    }

    /// The neutral placeholder.
    pub fn zero() -> (r: Self)
        ensures
            r.wf(),
            r@ == VarianceModel::zero(),
    {
        let r = SymbolicVariance { partition: Some(0), nb_partitions: 0, coeffs: Vec::new() };
        assert(r@.coeffs =~= VarianceModel::zero().coeffs);
        r
    }

    fn null(nb_partitions: usize, partition: Option<usize>) -> (r: Self)
        requires
            nb_coeffs(nb_partitions as nat) <= usize::MAX,
        ensures
            r.wf(),
            r.partition == partition,
            r.nb_partitions == nb_partitions,
            r.coeffs@.len() == nb_coeffs(nb_partitions as nat),
            forall|i: int| 0 <= i < r.coeffs@.len() ==> r.coeffs@[i] == 0,
    {
        let n: usize = coeffs_len(nb_partitions);
        SymbolicVariance { partition, nb_partitions, coeffs: zeros(n) }
    }

    /// The expression of `partition` whose coefficients are all zero.
    pub fn null_of(nb_partitions: usize, partition: usize) -> (r: Self)
        requires
            nb_coeffs(nb_partitions as nat) <= usize::MAX,
        ensures
            r.wf(),
            r@ == VarianceModel::null(nb_partitions as nat, Some(partition as nat)),
    {
        let r = Self::null(nb_partitions, Some(partition));
        assert(r@.coeffs =~= VarianceModel::null(
            nb_partitions as nat,
            Some(partition as nat),
        ).coeffs);
        r
    }

    /// The expression to store where nothing was computed.
    pub fn unset(nb_partitions: usize) -> (r: Self)
        requires
            nb_coeffs(nb_partitions as nat) <= usize::MAX,
        ensures
            r.wf(),
            r@ == VarianceModel::unset(nb_partitions as nat),
    {
        let r = Self::null(nb_partitions, None);
        assert(r@.coeffs =~= VarianceModel::unset(nb_partitions as nat).coeffs);
        r
    }

    /// The noise of a fresh input of `partition`.
    pub fn input(nb_partitions: usize, partition: usize) -> (r: Self)
        requires
            nb_coeffs(nb_partitions as nat) <= usize::MAX,
            partition < nb_partitions,
        ensures
            r.wf(),
            r@ == VarianceModel::input(nb_partitions as nat, partition as nat),
    {
        let mut r = Self::null(nb_partitions, Some(partition));
        proof {
            lemma_per_partition_index_in_range(nb_partitions as nat, partition as nat);
        }
        r.coeffs.set(partition, 1);
        assert(r@.coeffs =~= VarianceModel::input(nb_partitions as nat, partition as nat).coeffs);
        r
    }

    /// The noise that a bootstrap of `partition` leaves.
    pub fn after_pbs(nb_partitions: usize, partition: usize) -> (r: Self)
        requires
            nb_coeffs(nb_partitions as nat) <= usize::MAX,
            partition < nb_partitions,
        ensures
            r.wf(),
            r@ == VarianceModel::after_pbs(nb_partitions as nat, partition as nat),
    {
        let mut r = Self::null(nb_partitions, Some(partition));
        proof {
            lemma_per_partition_index_in_range(nb_partitions as nat, partition as nat);
        }
        r.coeffs.set(nb_partitions + partition, 1);
        assert(r@.coeffs =~= VarianceModel::after_pbs(nb_partitions as nat, partition as nat).coeffs);
        r
    }

    /// The number of partitions that the expression ranges over.
    pub fn nb_partitions(&self) -> (n: usize)
        ensures
            n == self@.nb_partitions,
    {
        self.nb_partitions
    }

    /// The partition whose ciphertexts carry this variance, if it was computed.
    pub fn partition(&self) -> (p: Option<usize>)
        ensures
            p is None <==> self@.partition is None,
            p is Some ==> p.unwrap() == self@.partition.unwrap(),
    {
        self.partition
    }

    /// Whether this is the expression that stands where nothing was computed.
    pub fn is_unset(&self) -> (b: bool)
        ensures
            b == self@.is_unset(),
    {
        self.partition.is_none()
    }

    /// Whether this is the neutral placeholder.
    pub fn is_zero(&self) -> (b: bool)
        ensures
            b == (self@ == VarianceModel::zero()),
    {
        let b = self.nb_partitions == 0 && self.coeffs.len() == 0 && match self.partition {
            Some(p) => p == 0,
            None => false,
        };
        proof {
            assert(self@.coeffs.len() == self.coeffs@.len());
            if b {
                assert(self@.coeffs =~= VarianceModel::zero().coeffs);
            }
        }
        b
    }

    /// Whether two expressions have the same value.
    pub fn equals(&self, other: &Self) -> (b: bool)
        ensures
            b == (self@ == other@),
    {
        let same_partition = match (self.partition, other.partition) {
            (Some(p), Some(q)) => p == q,
            (None, None) => true,
            _ => false,
        };
        proof {
            assert(self@.coeffs.len() == self.coeffs@.len());
            assert(other@.coeffs.len() == other.coeffs@.len());
        }
        if !same_partition || self.nb_partitions != other.nb_partitions || self.coeffs.len()
            != other.coeffs.len() {
            return false;
        }
        let n: usize = self.coeffs.len();
        let mut i: usize = 0;
        while i < n
            invariant
                n == self.coeffs@.len(),
                n == other.coeffs@.len(),
                i <= n,
                forall|j: int| 0 <= j < i ==> self.coeffs@[j] == other.coeffs@[j],
            decreases n - i,
        {
            if self.coeffs[i] != other.coeffs[i] {
                assert(self@.coeffs[i as int] != other@.coeffs[i as int]);
                return false;
            }
            i += 1;
        }
        assert(self@.coeffs =~= other@.coeffs);
        true
    }

    /// The weight of the fresh-input noise of `partition`.
    pub fn coeff_input(&self, partition: usize) -> (c: u128)
        requires
            self.wf(),
            !self@.is_unset(),
            partition < self@.nb_partitions,
        ensures
            c == self@.coeff_input(partition as nat),
    {
        proof {
            lemma_per_partition_index_in_range(self.nb_partitions as nat, partition as nat);
        }
        self.coeffs[partition]
    }

    /// The weight of the post-bootstrap noise of `partition`.
    pub fn coeff_pbs(&self, partition: usize) -> (c: u128)
        requires
            self.wf(),
            !self@.is_unset(),
            partition < self@.nb_partitions,
        ensures
            c == self@.coeff_pbs(partition as nat),
    {
        let n: usize = self.coeffs.len();
        proof {
            lemma_per_partition_index_in_range(self.nb_partitions as nat, partition as nat);
        }
        assert(self.nb_partitions + partition < n);
        self.coeffs[self.nb_partitions + partition]
    }

    /// The weight of the noise of the conversion from `src_partition` to
    /// `dst_partition`.
    pub fn coeff_partition_keyswitch_to_big(&self, src_partition: usize, dst_partition: usize) -> (c: u128)
        requires
            self.wf(),
            !self@.is_unset(),
            src_partition < self@.nb_partitions,
            dst_partition < self@.nb_partitions,
        ensures
            c == self@.coeff_partition_keyswitch_to_big(src_partition as nat, dst_partition as nat),
    {
        let k: usize = self.keyswitch_position(src_partition, dst_partition);
        self.coeffs[k]
    }

    fn keyswitch_position(&self, src: usize, dst: usize) -> (k: usize)
        requires
            self.wf(),
            src < self.nb_partitions,
            dst < self.nb_partitions,
        ensures
            k == keyswitch_index(self.nb_partitions as nat, src as nat, dst as nat),
            k < self.coeffs@.len(),
    {
        let nb: usize = self.nb_partitions;
        let n: usize = self.coeffs.len();
        proof {
            lemma_keyswitch_index_in_range(nb as nat, src as nat, dst as nat);
            assert(0 <= src * nb) by (nonlinear_arith)
                requires
                    0 <= src,
                    0 <= nb,
            ;
            assert(2 * nb + src * nb + dst < n);
        }
        2 * nb + src * nb + dst
    }

    /// The expression after a conversion from `src_partition` to
    /// `dst_partition`, or `None` where the coefficient of that conversion
    /// cannot grow by one.
    pub fn after_partition_keyswitch_to_big(&self, src_partition: usize, dst_partition: usize) -> (r:
        Option<Self>)
        requires
            self.wf(),
            src_partition < self@.nb_partitions,
            dst_partition < self@.nb_partitions,
        ensures
            r is Some <==> self@.after_partition_keyswitch_to_big(
                src_partition as nat,
                dst_partition as nat,
            ).fits(),
            r is Some ==> r.unwrap().wf() && r.unwrap()@ == self@.after_partition_keyswitch_to_big(
                src_partition as nat,
                dst_partition as nat,
            ),
    {
        let k: usize = self.keyswitch_position(src_partition, dst_partition);
        let ghost model = self@.after_partition_keyswitch_to_big(
            src_partition as nat,
            dst_partition as nat,
        );
        match self.coeffs[k].checked_add(1) {
            None => {
                assert(model.coeffs[k as int] > u128::MAX);
                None
            },
            Some(c) => {
                let mut coeffs = copy_of(&self.coeffs);
                coeffs.set(k, c);
                let r = SymbolicVariance {
                    partition: Some(dst_partition),
                    nb_partitions: self.nb_partitions,
                    coeffs,
                };
                assert(r@.coeffs =~= model.coeffs);
                Some(r)
            },
        }
    }

    /// Every coefficient multiplied by `factor`, or `None` where a product
    /// exceeds 128 bits.
    pub fn scaled(&self, factor: u128) -> (r: Option<Self>)
        requires
            self.wf(),
        ensures
            r is Some <==> self@.scaled(factor as nat).fits(),
            r is Some ==> r.unwrap().wf() && r.unwrap()@ == self@.scaled(factor as nat),
    {
        let ghost model = self@.scaled(factor as nat);
        let n: usize = self.coeffs.len();
        let mut coeffs: Vec<u128> = Vec::new();
        let mut i: usize = 0;
        while i < n
            invariant
                n == self.coeffs@.len(),
                i <= n,
                coeffs@.len() == i,
                model == self@.scaled(factor as nat),
                forall|j: int| 0 <= j < i ==> coeffs@[j] as nat == #[trigger] model.coeffs[j],
            decreases n - i,
        {
            let c: u128 = self.coeffs[i];
            assert(model.coeffs[i as int] == (c as nat) * (factor as nat));
            let product: u128 = match c.checked_mul(factor) {
                Some(v) => v,
                None => {
                    return None;
                },
            };
            coeffs.push(product);
            i += 1;
        }
        let r = SymbolicVariance {
            partition: self.partition,
            nb_partitions: self.nb_partitions,
            coeffs,
        };
        assert(r@.coeffs =~= model.coeffs);
        Some(r)
    }

    /// The expression after a linear operator that amplifies by `manp`: every
    /// coefficient multiplied by the square of `manp`.
    pub fn after_levelled_op(&self, manp: u64) -> (r: Option<Self>)
        requires
            self.wf(),
        ensures
            r is Some <==> self@.after_levelled_op(manp as nat).fits(),
            r is Some ==> r.unwrap().wf() && r.unwrap()@ == self@.after_levelled_op(manp as nat),
    {
        assert((manp as nat) * (manp as nat) <= u128::MAX) by (nonlinear_arith)
            requires
                manp <= u64::MAX,
        ;
        let factor: u128 = (manp as u128) * (manp as u128);
        self.scaled(factor)
    }

    /// The sum of two expressions, or `None` where a coefficient exceeds 64
    /// bits. The placeholder is neutral.
    pub fn checked_add(&self, rhs: &Self) -> (r: Option<Self>)
        requires
            self.wf(),
            rhs.wf(),
            self@ == VarianceModel::zero() || rhs@ == VarianceModel::zero() || self@.nb_partitions
                == rhs@.nb_partitions,
        ensures
            r is Some <==> self@.plus(rhs@).fits(),
            r is Some ==> r.unwrap().wf() && r.unwrap()@ == self@.plus(rhs@),
    {
        if self.is_zero() {
            return Some(rhs.clone());
        }
        if rhs.is_zero() {
            return Some(self.clone());
        }
        let ghost model = self@.plus(rhs@);
        let n: usize = self.coeffs.len();
        let mut coeffs: Vec<u128> = Vec::new();
        let mut i: usize = 0;
        while i < n
            invariant
                n == self.coeffs@.len(),
                n == rhs.coeffs@.len(),
                i <= n,
                coeffs@.len() == i,
                model == self@.plus(rhs@),
                model.coeffs.len() == n,
                forall|j: int| 0 <= j < n ==> #[trigger] model.coeffs[j] == self.coeffs@[j] + rhs.coeffs@[j],
                forall|j: int| 0 <= j < i ==> coeffs@[j] as nat == #[trigger] model.coeffs[j],
            decreases n - i,
        {
            match self.coeffs[i].checked_add(rhs.coeffs[i]) {
                Some(v) => {
                    coeffs.push(v);
                },
                None => {
                    assert(model.coeffs[i as int] > u128::MAX);
                    return None;
                },
            }
            i += 1;
        }
        let r = SymbolicVariance {
            partition: self.partition,
            nb_partitions: self.nb_partitions,
            coeffs,
        };
        assert(r@.coeffs =~= model.coeffs);
        Some(r)
    }

    /// The least expression that is at least `self` and at least `other` in
    /// every coefficient.
    pub fn max(&self, other: &Self) -> (r: Self)
        requires
            self.wf(),
            other.wf(),
            self@.nb_partitions == other@.nb_partitions,
        ensures
            r.wf(),
            r@ == self@.max(other@),
    {
        let ghost model = self@.max(other@);
        let n: usize = self.coeffs.len();
        let mut coeffs: Vec<u128> = Vec::new();
        let mut i: usize = 0;
        while i < n
            invariant
                n == self.coeffs@.len(),
                n == other.coeffs@.len(),
                i <= n,
                coeffs@.len() == i,
                model == self@.max(other@),
                forall|j: int| 0 <= j < i ==> coeffs@[j] as nat == #[trigger] model.coeffs[j],
            decreases n - i,
        {
            let a: u128 = self.coeffs[i];
            let b: u128 = other.coeffs[i];
            assert(model.coeffs[i as int] == if a >= b { a as nat } else { b as nat });
            coeffs.push(if a >= b { a } else { b });
            i += 1;
        }
        let r = SymbolicVariance {
            partition: self.partition,
            nb_partitions: self.nb_partitions,
            coeffs,
        };
        assert(r@.coeffs =~= model.coeffs);
        r
    }
}

/// The per-partition coefficients lie inside the expression.
pub proof fn lemma_per_partition_index_in_range(nb: nat, p: nat)
    requires
        p < nb,
    ensures
        0 <= input_index(p) < nb,
        nb <= pbs_index(nb, p) < 2 * nb,
        2 * nb <= nb_coeffs(nb),
{
    assert(nb * (nb + 2) == nb * nb + 2 * nb) by (nonlinear_arith);
    assert(nb * nb >= 0) by (nonlinear_arith);
}

fn coeffs_len(nb_partitions: usize) -> (n: usize)
    requires
        nb_coeffs(nb_partitions as nat) <= usize::MAX,
    ensures
        n == nb_coeffs(nb_partitions as nat),
{
    if nb_partitions == 0 {
        assert(nb_coeffs(0) == 0) by (nonlinear_arith);
        0
    } else {
        assert(nb_partitions + 2 <= nb_partitions * (nb_partitions + 2)) by (nonlinear_arith)
            requires
                nb_partitions >= 1,
        ;
        nb_partitions * (nb_partitions + 2)
    }
}

} // verus!
