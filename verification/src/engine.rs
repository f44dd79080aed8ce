//! The adaptive refinement engine.

use vstd::prelude::*;

use crate::keys::KEY_NEG_INFINITY;
use crate::keys::KEY_ONE;
use crate::keys::KEY_POS_INFINITY;
use crate::keys::KEY_ZERO;
use crate::keys::finite_key;
use crate::keys::valid_loss;
use crate::subdiv::Subdiv;

verus! {

/// How an engine operation can fail.
#[derive(Clone, Copy, Debug, PartialEq, Eq, Structural)]
pub enum SamplerError {
    /// Construction was given bounds that are not finite or not in
    /// strictly increasing order.
    InvalidInterval,
    /// A step found no queued subdivision.  The well-formedness invariant
    /// keeps the queue non-empty from construction on, so the engine never
    /// produces this value; the variant names the condition callers guard
    /// against when they bypass construction.
    EmptyQueue,
    /// A supplied loss score was negative, infinite, or NaN; admitting it
    /// would corrupt the queue order, so the step is refused with the
    /// engine state unchanged.
    NonFiniteLoss,
    /// A supplied split point did not fall strictly inside the selected
    /// segment; accepting it would break the partition invariant, so the
    /// step is refused with the engine state unchanged.
    InvalidMidpoint,
}

/// A well-formed queue: at least one subdivision, each proper, and
/// consecutive subdivisions sharing an endpoint key bit-for-bit.  The
/// records are kept in ascending coordinate order, so this chain condition
/// says exactly that the live segments tile the original interval.
pub open spec fn wf_seq(s: Seq<Subdiv>) -> bool {
    &&& s.len() >= 1
    &&& forall|i: int| 0 <= i < s.len() ==> (#[trigger] s[i]).proper()
    &&& forall|i: int| 1 <= i < s.len() ==> (#[trigger] s[i]).left == s[i - 1].right
}

/// The index the engine pops next: the first subdivision carrying the
/// maximum loss.  First-in-coordinate-order is the engine's tie-break rule
/// among equal losses; any consistent rule would do, and this one is
/// deterministic.
pub open spec fn max_index_of(s: Seq<Subdiv>) -> int
    decreases s.len(),
{
    if s.len() <= 1 {
        0
    } else {
        let j = max_index_of(s.drop_last());
        if s.last().loss > s[j].loss {
            s.len() - 1
        } else {
            j
        }
    }
}

/// Whether `mid` can split the subdivision the engine would pop next:
/// it must fall strictly inside that segment.
pub open spec fn can_split(s: Seq<Subdiv>, mid: u64) -> bool {
    s[max_index_of(s)].left < mid && mid < s[max_index_of(s)].right
}

/// The left child of a split: from the parent's left endpoint to `mid`,
/// with the parent's left value, the midpoint value, and the fresh score.
pub open spec fn child_left(t: Subdiv, mid: u64, f_mid: u64, score: u64) -> Subdiv {
    Subdiv { left: t.left, right: mid, f_left: t.f_left, f_right: f_mid, loss: score }
}

/// The right child of a split: from `mid` to the parent's right endpoint.
pub open spec fn child_right(t: Subdiv, mid: u64, f_mid: u64, score: u64) -> Subdiv {
    Subdiv { left: mid, right: t.right, f_left: f_mid, f_right: t.f_right, loss: score }
}

/// The queue after one refinement step: the popped subdivision — the one at
/// [`max_index_of`] — replaced in place by its two children.
pub open spec fn step_result(
    s: Seq<Subdiv>,
    mid: u64,
    f_mid: u64,
    loss_left: u64,
    loss_right: u64,
) -> Seq<Subdiv> {
    let m = max_index_of(s);
    s.subrange(0, m) + seq![
        child_left(s[m], mid, f_mid, loss_left),
        child_right(s[m], mid, f_mid, loss_right),
    ] + s.subrange(m + 1, s.len() as int)
}

/// [`max_index_of`] is in range, carries a loss no smaller than any other,
/// and is the first index to do so.
pub proof fn lemma_max_index(s: Seq<Subdiv>)
    requires
        s.len() >= 1,
    ensures
        0 <= max_index_of(s) < s.len(),
        forall|j: int| 0 <= j < s.len() ==> (#[trigger] s[j]).loss <= s[max_index_of(s)].loss,
        forall|j: int| 0 <= j < max_index_of(s) ==> (#[trigger] s[j]).loss < s[max_index_of(s)].loss,
    decreases s.len(),
{
    if s.len() > 1 {
        lemma_max_index(s.drop_last());
        assert(forall|j: int| 0 <= j < s.len() - 1 ==> s.drop_last()[j] == s[j]);
    }
}

/// In a well-formed queue, a subdivision ends no later than any later one
/// begins: the live segments are pairwise non-overlapping.
pub proof fn lemma_chain_order(s: Seq<Subdiv>, i: int, j: int)
    requires
        wf_seq(s),
        0 <= i < j < s.len(),
    ensures
        s[i].right <= s[j].left,
    decreases j - i,
{
    if j > i + 1 {
        lemma_chain_order(s, i, j - 1);
    }
}

/// In a well-formed queue, every subdivision lies within the original
/// interval `[s[0].left, s[last].right]`.
pub proof fn lemma_segment_in_bounds(s: Seq<Subdiv>, i: int)
    requires
        wf_seq(s),
        0 <= i < s.len(),
    ensures
        s[0].left <= s[i].left,
        s[i].right <= s[s.len() - 1].right,
{
    if i > 0 {
        lemma_chain_order(s, 0, i);
    }
    if i < s.len() - 1 {
        lemma_chain_order(s, i, s.len() - 1);
    }
}

/// Partition invariant: after any sequence of steps the live segments are
/// pairwise non-overlapping — one ends no later than a later one begins —
/// and each lies within the original interval `[s[0].left, s[last].right]`,
/// whose bounds every step preserves.  Together with
/// [`lemma_partition_covers`], which puts every key of the interval inside
/// some segment, the live segments tile the original interval exactly,
/// endpoint keys matching bit-for-bit.
pub proof fn lemma_partition(s: Seq<Subdiv>)
    requires
        wf_seq(s),
    ensures
        forall|i: int, j: int|
            #![trigger s[i], s[j]]
            0 <= i < j < s.len() ==> s[i].right <= s[j].left,
        forall|i: int|
            0 <= i < s.len() ==> s[0].left <= (#[trigger] s[i]).left && s[i].right
                <= s[s.len() - 1].right,
{
    assert forall|i: int, j: int|
        #![trigger s[i], s[j]]
        0 <= i < j < s.len() implies s[i].right <= s[j].left by {
        lemma_chain_order(s, i, j);
    }
    assert forall|i: int| 0 <= i < s.len() implies s[0].left <= (#[trigger] s[i]).left
        && s[i].right <= s[s.len() - 1].right by {
        lemma_segment_in_bounds(s, i);
    }
}

/// Partition invariant, coverage half: in a well-formed queue, every key
/// in `[s[0].left, s[last].right)` lies in exactly one live segment — at
/// least one by this lemma, at most one by [`lemma_chain_order`].  Together
/// they say the segments tile the original interval, endpoint keys matching
/// bit-for-bit, after any sequence of steps.
pub proof fn lemma_partition_covers(s: Seq<Subdiv>, k: u64)
    requires
        wf_seq(s),
        s[0].left <= k,
        k < s[s.len() - 1].right,
    ensures
        exists|i: int| 0 <= i < s.len() && (#[trigger] s[i]).left <= k && k < s[i].right,
{
    lemma_partition_covers_from(s, k, 0);
}

/// Helper for [`lemma_partition_covers`]: walks the chain from index `i`.
proof fn lemma_partition_covers_from(s: Seq<Subdiv>, k: u64, i: int)
    requires
        wf_seq(s),
        0 <= i < s.len(),
        s[i].left <= k,
        k < s[s.len() - 1].right,
    ensures
        exists|j: int| 0 <= j < s.len() && (#[trigger] s[j]).left <= k && k < s[j].right,
    decreases s.len() - i,
{
    if k < s[i].right {
        assert(0 <= i < s.len() && s[i].left <= k && k < s[i].right);
    } else {
        assert(i < s.len() - 1);
        lemma_partition_covers_from(s, k, i + 1);
    }
}

/// Determinism: the selected index, the convergence test, and the queue
/// after a step are pure functions of the queue contents and the supplied
/// keys, so two engines in equal states, driven with equal inputs, select
/// the same subdivision and move to equal states.
pub proof fn lemma_step_deterministic(
    s1: Seq<Subdiv>,
    s2: Seq<Subdiv>,
    mid: u64,
    f_mid: u64,
    loss_left: u64,
    loss_right: u64,
)
    requires
        s1 == s2,
    ensures
        max_index_of(s1) == max_index_of(s2),
        can_split(s1, mid) == can_split(s2, mid),
        step_result(s1, mid, f_mid, loss_left, loss_right) == step_result(
            s2,
            mid,
            f_mid,
            loss_left,
            loss_right,
        ),
{
}

/// The refinement engine: the live subdivisions, in ascending coordinate
/// order, forming a partition of the original interval.
///
/// The view of an engine is the sequence of queued subdivisions.  The
/// caller drives refinement: it asks (via [`AdaptiveSampler::peek`]) which
/// segment is up next, evaluates the function at that segment's midpoint
/// and scores the two halves in floating point, and hands the resulting
/// keys to [`AdaptiveSampler::next`].
#[derive(Debug)]
pub struct AdaptiveSampler {
    segs: Vec<Subdiv>,
}

impl View for AdaptiveSampler {
    type V = Seq<Subdiv>;

    closed spec fn view(&self) -> Seq<Subdiv> {
        self.segs@
    }
}

impl AdaptiveSampler {
    /// The engine invariant: the queued subdivisions are well-formed.
    /// Construction establishes it and every operation preserves it.
    pub open spec fn wf(&self) -> bool {
        wf_seq(self@)
    }

    /// Key of the lower bound of the interval being sampled.
    pub open spec fn lo(&self) -> u64 {
        self@[0].left
    }

    /// Key of the upper bound of the interval being sampled.
    pub open spec fn hi(&self) -> u64 {
        self@[self@.len() - 1].right
    }

    /// Builds an engine over `[lower, upper]` from the function values
    /// already sampled at the two bounds.  Succeeds exactly when both
    /// bounds are finite and in strictly increasing order; the queue then
    /// holds the single root subdivision, scored with the placeholder
    /// [`KEY_ONE`].  Any other bounds are rejected eagerly as
    /// [`SamplerError::InvalidInterval`], never silently swapped.
    pub fn new(lower: u64, upper: u64, f_lower: u64, f_upper: u64) -> (r: Result<
        AdaptiveSampler,
        SamplerError,
    >)
        ensures
            r is Ok <==> finite_key(lower) && finite_key(upper) && lower < upper,
            r matches Ok(s) ==> s.wf() && s@ == seq![
                (Subdiv { left: lower, right: upper, f_left: f_lower, f_right: f_upper, loss: KEY_ONE }),
            ],
            r matches Err(e) ==> e == SamplerError::InvalidInterval,
    {
        let ok = KEY_NEG_INFINITY < lower && lower < KEY_POS_INFINITY && KEY_NEG_INFINITY < upper
            && upper < KEY_POS_INFINITY && lower < upper;
        if !ok {
            return Err(SamplerError::InvalidInterval);
        }
        let root = Subdiv { left: lower, right: upper, f_left: f_lower, f_right: f_upper, loss: KEY_ONE };
        let mut segs: Vec<Subdiv> = Vec::new();
        segs.push(root);
        let s = AdaptiveSampler { segs };
        proof {
            assert(s@ =~= seq![root]);
            assert(KEY_ZERO <= KEY_ONE && KEY_ONE < KEY_POS_INFINITY);
        }
        Ok(s)
    }

    /// Index of the subdivision the engine pops next, by a left-to-right
    /// scan that keeps the first maximum seen.
    fn max_index(&self) -> (i: usize)
        requires
            self@.len() >= 1,
        ensures
            i as int == max_index_of(self@),
    {
        let mut best: usize = 0;
        let mut k: usize = 1;
        while k < self.segs.len()
            invariant
                1 <= k <= self@.len(),
                best < k,
                best as int == max_index_of(self@.subrange(0, k as int)),
            decreases self@.len() - k,
        {
            proof {
                let pre = self@.subrange(0, k as int + 1);
                assert(pre.drop_last() =~= self@.subrange(0, k as int));
                assert(pre.last() == self@[k as int]);
            }
            if self.segs[k].loss > self.segs[best].loss {
                best = k;
            }
            k = k + 1;
        }
        proof {
            assert(self@.subrange(0, self@.len() as int) =~= self@);
        }
        best
    }

    /// The subdivision the engine will split on the next step: the first
    /// one carrying the maximum loss.  A read-only query; repeated calls
    /// on an unchanged engine return the same record.
    pub fn peek(&self) -> (r: Subdiv)
        requires
            self.wf(),
        ensures
            r == self@[max_index_of(self@)],
            forall|j: int| 0 <= j < self@.len() ==> (#[trigger] self@[j]).loss <= r.loss,
    {
        proof {
            lemma_max_index(self@);
        }
        let i = self.max_index();
        self.segs[i]
    }

    /// Whether the worst queued subdivision still scores above `tol`: the
    /// convergence test of refinement.  Returns false exactly when every
    /// queued loss is at or below the tolerance.
    pub fn needs_refinement(&self, tol: u64) -> (r: bool)
        requires
            self.wf(),
        ensures
            r == (self@[max_index_of(self@)].loss > tol),
            r == (exists|j: int| 0 <= j < self@.len() && (#[trigger] self@[j]).loss > tol),
    {
        proof {
            lemma_max_index(self@);
        }
        let i = self.max_index();
        let r = self.segs[i].loss > tol;
        proof {
            if r {
                assert(0 <= max_index_of(self@) < self@.len() && self@[max_index_of(self@)].loss
                    > tol);
            }
        }
        r
    }

    /// One refinement step.  The engine pops the subdivision scoring the
    /// maximum loss (first in coordinate order among equal maxima) and
    /// replaces it by its two halves, split at `mid`; `f_mid` is the
    /// function value the caller sampled there, and `loss_left` and
    /// `loss_right` are the metric's scores for the two halves.  Returns
    /// the newly sampled point `(mid, f_mid)`.
    ///
    /// The step is refused, with the engine unchanged, when a supplied
    /// score is not a non-negative finite value ([`SamplerError::NonFiniteLoss`])
    /// or when `mid` does not fall strictly inside the popped segment
    /// ([`SamplerError::InvalidMidpoint`]); it succeeds on all other
    /// inputs.  A successful step grows the queue by a net one record,
    /// keeps the interval bounds, and samples strictly inside them.
    #[verifier::rlimit(50)]
    pub fn next(&mut self, mid: u64, f_mid: u64, loss_left: u64, loss_right: u64) -> (r: Result<
        (u64, u64),
        SamplerError,
    >)
        requires
            old(self).wf(),
        ensures
            final(self).wf(),
            r is Err ==> final(self)@ == old(self)@,
            (r == Err::<(u64, u64), SamplerError>(SamplerError::NonFiniteLoss)) == !(valid_loss(
                loss_left,
            ) && valid_loss(loss_right)),
            (r == Err::<(u64, u64), SamplerError>(SamplerError::InvalidMidpoint)) == (valid_loss(
                loss_left,
            ) && valid_loss(loss_right) && !can_split(old(self)@, mid)),
            r is Ok == (valid_loss(loss_left) && valid_loss(loss_right) && can_split(
                old(self)@,
                mid,
            )),
            r matches Ok(p) ==> p == (mid, f_mid),
            r is Ok ==> final(self)@ == step_result(old(self)@, mid, f_mid, loss_left, loss_right),
            r is Ok ==> final(self)@.len() == old(self)@.len() + 1,
            r is Ok ==> old(self).lo() < mid && mid < old(self).hi(),
            r is Ok ==> final(self).lo() == old(self).lo() && final(self).hi() == old(self).hi(),
    {
        let ghost s0 = self@;
        if !(crate::keys::is_valid_loss(loss_left) && crate::keys::is_valid_loss(loss_right)) {
            return Err(SamplerError::NonFiniteLoss);
        }
        proof {
            lemma_max_index(s0);
        }
        let i = self.max_index();
        let top = self.segs[i];
        if !(top.left < mid && mid < top.right) {
            return Err(SamplerError::InvalidMidpoint);
        }
        let lc = Subdiv { left: top.left, right: mid, f_left: top.f_left, f_right: f_mid, loss: loss_left };
        let rc = Subdiv { left: mid, right: top.right, f_left: f_mid, f_right: top.f_right, loss: loss_right };
        let _ = self.segs.remove(i);
        self.segs.insert(i, rc);
        self.segs.insert(i, lc);
        proof {
            let m = max_index_of(s0);
            lemma_segment_in_bounds(s0, m);
            assert(self@ =~= step_result(s0, mid, f_mid, loss_left, loss_right));
            assert forall|q: int| 0 <= q < self@.len() implies (#[trigger] self@[q]).proper() by {
                if q > m + 1 {
                    assert(self@[q] == s0[q - 1]);
                }
            }
            assert forall|q: int| 1 <= q < self@.len() implies (#[trigger] self@[q]).left
                == self@[q - 1].right by {
                if q > m + 2 {
                    assert(self@[q] == s0[q - 1] && self@[q - 1] == s0[q - 2]);
                }
            }
        }
        Ok((mid, f_mid))
    }

    /// How many subdivisions are live: one at construction, one more after
    /// each successful step.
    pub fn num_subdivisions(&self) -> (n: usize)
        ensures
            n == self@.len(),
    {
        self.segs.len()
    }

    /// A copy of the live subdivisions, in ascending coordinate order.
    pub fn subdivisions(&self) -> (v: Vec<Subdiv>)
        ensures
            v@ == self@,
    {
        let mut v: Vec<Subdiv> = Vec::new();
        let mut k: usize = 0;
        while k < self.segs.len()
            invariant
                k <= self@.len(),
                v@ =~= self@.subrange(0, k as int),
            decreases self@.len() - k,
        {
            v.push(self.segs[k]);
            k = k + 1;
        }
        proof {
            assert(v@ =~= self@);
        }
        v
    }
}

} // verus!
