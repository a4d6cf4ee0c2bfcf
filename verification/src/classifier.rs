//! The outcome of a classification, the verdict for a regular orbit, and the
//! checkpoint schedule of the two-trajectory Lyapunov estimate.
//!
//! An orbit whose exponent exceeds the chaotic threshold is chaotic. Any
//! other orbit is judged by its Poincaré section: too few crossings cannot
//! decide, a section that collapses to a handful of cells is a finite
//! repeating set (periodic), and one that spreads over many cells densifies
//! a curve (quasiperiodic).
use vstd::prelude::*;

verus! {

/// Outcome of a classification.
#[derive(Clone, Copy, Debug, PartialEq, Eq, Structural)]
pub enum Classification {
    Chaotic,
    Periodic,
    Quasiperiodic,
    /// Regular, but too few section crossings were collected in the horizon.
    NeedsLongerIntegration,
}

/// Minimum number of section crossings needed before the section can decide.
pub const MIN_SECTION_POINTS: usize = 10;

/// A section with at most this many distinct cells is a finite repeating set.
pub const MAX_PERIODIC_CELLS: usize = 10;

/// The verdict for a regular orbit, from the size of its section.
pub open spec fn spec_regular_verdict(n_points: nat, n_unique: nat) -> Classification {
    if n_points < MIN_SECTION_POINTS {
        Classification::NeedsLongerIntegration
    } else if n_unique <= MAX_PERIODIC_CELLS {
        Classification::Periodic
    } else {
        Classification::Quasiperiodic
    }
}

/// Decides between periodic, quasiperiodic and "needs longer integration"
/// for an orbit whose exponent is at or below the chaotic threshold.
pub fn regular_verdict(n_points: usize, n_unique: usize) -> (c: Classification)
    ensures
        c == spec_regular_verdict(n_points as nat, n_unique as nat),
        n_points < 10 ==> c == Classification::NeedsLongerIntegration,
        n_points >= 10 && n_unique <= 10 ==> c == Classification::Periodic,
        n_points >= 10 && n_unique > 10 ==> c == Classification::Quasiperiodic,
{
    if n_points < MIN_SECTION_POINTS {
        Classification::NeedsLongerIntegration
    } else if n_unique <= MAX_PERIODIC_CELLS {
        Classification::Periodic
    } else {
        Classification::Quasiperiodic
    }
}

/// Fewer than ten crossings never decide: whatever the number of cells,
/// such a section asks for a longer integration.
pub proof fn lemma_short_section_needs_longer(n_points: nat, n_unique: nat)
    requires
        n_points < 10,
    ensures
        spec_regular_verdict(n_points, n_unique) == Classification::NeedsLongerIntegration,
{
}

/// With at least ten crossings the section always decides: periodic for at
/// most ten cells, quasiperiodic for more, never "needs longer".
pub proof fn lemma_long_section_decides(n_points: nat, n_unique: nat)
    requires
        n_points >= 10,
    ensures
        n_unique <= 10 ==> spec_regular_verdict(n_points, n_unique) == Classification::Periodic,
        n_unique > 10 ==> spec_regular_verdict(n_points, n_unique)
            == Classification::Quasiperiodic,
        spec_regular_verdict(n_points, n_unique) != Classification::NeedsLongerIntegration,
{
}

/// Once enough crossings are collected, the verdict depends on the number of
/// distinct cells alone: a longer horizon, which only adds crossings, cannot
/// change it.
pub proof fn lemma_verdict_independent_of_horizon(n1: nat, n2: nat, n_unique: nat)
    requires
        n1 >= MIN_SECTION_POINTS,
        n2 >= MIN_SECTION_POINTS,
    ensures
        spec_regular_verdict(n1, n_unique) == spec_regular_verdict(n2, n_unique),
{
}

/// A section that occupies fewer cells than a periodic one is periodic too,
/// and one that occupies more cells than a quasiperiodic one is
/// quasiperiodic too.
pub proof fn lemma_verdict_monotone_in_cells(n_points: nat, u1: nat, u2: nat)
    requires
        u1 <= u2,
    ensures
        spec_regular_verdict(n_points, u2) == Classification::Periodic ==> spec_regular_verdict(
            n_points,
            u1,
        ) == Classification::Periodic,
        spec_regular_verdict(n_points, u1) == Classification::Quasiperiodic
            ==> spec_regular_verdict(n_points, u2) == Classification::Quasiperiodic,
{
}

/// A regular orbit is never reported as chaotic.
pub proof fn lemma_regular_verdict_not_chaotic(n_points: nat, n_unique: nat)
    ensures
        spec_regular_verdict(n_points, n_unique) != Classification::Chaotic,
{
}

impl Classification {
    /// The text shown to a user for this outcome.
    pub open spec fn label(self) -> Seq<char> {
        match self {
            Classification::Chaotic => "chaotic"@,
            Classification::Periodic => "periodic"@,
            Classification::Quasiperiodic => "quasiperiodic"@,
            Classification::NeedsLongerIntegration => "regular (need longer integration)"@,
        }
    }

    /// The text shown to a user for this outcome.
    pub fn to_string(&self) -> (s: String)
        ensures
            s@ == self.label(),
            *self == Classification::Chaotic ==> s@ == "chaotic"@,
            *self == Classification::Periodic ==> s@ == "periodic"@,
            *self == Classification::Quasiperiodic ==> s@ == "quasiperiodic"@,
            *self == Classification::NeedsLongerIntegration ==> s@
                == "regular (need longer integration)"@,
    {
        match self {
            Classification::Chaotic => String::from_str("chaotic"),
            Classification::Periodic => String::from_str("periodic"),
            Classification::Quasiperiodic => String::from_str("quasiperiodic"),
            Classification::NeedsLongerIntegration => String::from_str(
                "regular (need longer integration)",
            ),
        }
    }
}

/// Different outcomes are shown with different texts.
pub proof fn lemma_labels_distinct(a: Classification, b: Classification)
    ensures
        a.label() == b.label() <==> a == b,
{
    reveal_strlit("chaotic");
    reveal_strlit("periodic");
    reveal_strlit("quasiperiodic");
    reveal_strlit("regular (need longer integration)");
    if a != b {
        assert(a.label()[0] != b.label()[0] || a.label().len() != b.label().len());
    }
}

/// Whether `idx` is a renormalisation checkpoint of a run of `n_samples`
/// grid samples taken every `stride` samples: a positive multiple of
/// `stride` below `n_samples`.
pub open spec fn is_checkpoint(idx: int, n_samples: int, stride: int) -> bool {
    &&& 0 < idx < n_samples
    &&& idx % stride == 0
}

/// The grid indices at which the perturbed trajectory is compared with the
/// reference and renormalised: `stride, 2·stride, …`, every one below
/// `n_samples`, in increasing order.
pub fn checkpoints(n_samples: usize, stride: usize) -> (r: Vec<usize>)
    requires
        stride >= 1,
    ensures
        forall|j: int| 0 <= j < r.len() ==> #[trigger] r@[j] == (j + 1) * stride,
        forall|j: int| 0 <= j < r.len() ==> #[trigger] r@[j] < n_samples,
        (r.len() + 1) * stride >= n_samples,
{
    let mut r: Vec<usize> = Vec::new();
    let mut idx: usize = stride;
    while idx < n_samples
        invariant
            stride >= 1,
            idx == (r.len() + 1) * stride,
            forall|j: int| 0 <= j < r.len() ==> #[trigger] r@[j] == (j + 1) * stride,
            forall|j: int| 0 <= j < r.len() ==> #[trigger] r@[j] < n_samples,
        decreases n_samples - idx,
    {
        r.push(idx);
        assert((r.len() + 1) * stride == r.len() * stride + stride) by (nonlinear_arith);
        if stride >= n_samples - idx {
            assert((r.len() + 1) * stride >= n_samples);
            return r;
        }
        idx = idx + stride;
    }
    r
}

/// The schedule holds exactly the checkpoints: an index is listed if and
/// only if it is a positive multiple of the stride below the sample count.
pub proof fn lemma_checkpoints_exact(r: Seq<usize>, n_samples: int, stride: int, idx: usize)
    requires
        stride >= 1,
        forall|j: int| 0 <= j < r.len() ==> #[trigger] r[j] == (j + 1) * stride,
        forall|j: int| 0 <= j < r.len() ==> #[trigger] r[j] < n_samples,
        (r.len() + 1) * stride >= n_samples,
    ensures
        r.contains(idx) <==> is_checkpoint(idx as int, n_samples, stride),
{
    let i = idx as int;
    if is_checkpoint(i, n_samples, stride) {
        let q = i / stride;
        vstd::arithmetic::div_mod::lemma_fundamental_div_mod(i, stride);
        assert(i == stride * q);
        assert(q >= 1) by (nonlinear_arith)
            requires
                i == stride * q,
                i > 0,
                stride >= 1,
        ;
        assert(q <= r.len()) by (nonlinear_arith)
            requires
                i == stride * q,
                i < n_samples,
                (r.len() + 1) * stride >= n_samples,
                stride >= 1,
        ;
        assert(r[q - 1] == ((q - 1) + 1) * stride);
        vstd::arithmetic::mul::lemma_mul_is_commutative(q, stride);
        assert(r[q - 1] == i);
    }
    if r.contains(idx) {
        let j = choose|j: int| 0 <= j < r.len() && r[j] == idx;
        assert(r[j] == (j + 1) * stride);
        vstd::arithmetic::div_mod::lemma_mod_multiples_basic(j + 1, stride);
        assert(i > 0) by (nonlinear_arith)
            requires
                i == (j + 1) * stride,
                stride >= 1,
                j >= 0,
        ;
    }
}

} // verus!
