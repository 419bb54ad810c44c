//! The decisions the mode solver takes from its configuration: which
//! characteristic function detects a mode, where the coefficient walk starts,
//! which complex-plane search regime the boundary conditions select, which
//! normalization applies, and which mode of a sorted list is returned.
use vstd::prelude::*;

use crate::enums::{BackEnd, BoundaryCondition, Normalization};
use crate::multilayer::MultiLayer;

verus! {

/// How the real-axis characteristic function, whose zeros are the guided
/// modes, is evaluated.
#[derive(Clone, Copy, Debug, PartialEq, Eq, Structural)]
pub enum ModeCondition {
    /// The determinant of the stack's scattering matrix.
    ScatteringDeterminant,
    /// `1 / t22` of the stack's transfer matrix: semi-infinite claddings on both sides.
    InverseT22,
    /// PEC wall on the left: the transfer matrix, after propagation through
    /// layer 0, applied to `(1, -1)`; the inverse of the backward amplitude out.
    PecLeft,
    /// PEC wall on the right: propagation through the last layer after the
    /// transfer matrix, applied to `(0, 1)`; the inverse of the sum of the
    /// amplitudes out.
    PecRight,
}

/// Where the walk of modal coefficients across the layers starts.
#[derive(Clone, Copy, Debug, PartialEq, Eq, Structural)]
pub enum CoefficientStart {
    /// At the right edge of a semi-infinite left cladding.
    Cladding,
    /// At a PEC wall on the left edge of layer 0.
    PecWall,
}

/// The kind of mode a complex-plane search looks for, as selected by the
/// boundary conditions.
#[derive(Clone, Copy, Debug, PartialEq, Eq, Structural)]
pub enum SearchRegime {
    /// No outgoing boundary: guided and lossy guided modes near the real axis.
    Guided,
    /// Outgoing boundaries on both sides: quasi-normal modes, `Im(neff) < 0`.
    QuasiNormal,
    /// An outgoing boundary on one side only: one-sided leaky modes.
    Leaky,
}

/// The stages of the adaptive complex-plane search that run.
#[derive(Clone, Copy, Debug, PartialEq, Eq, Structural)]
pub struct AdaptivePlan {
    /// The real-axis solver probes the full stack.
    pub probe_full: bool,
    /// When the full-stack probe finds nothing, the isolated core is probed.
    pub probe_isolated_core: bool,
    /// The full-stack probe's modes are the answer; no complex search runs.
    pub probe_is_answer: bool,
    /// Real-axis modes of the full-stack probe are emitted with `Im = 0`
    /// when they lie in a searched window.
    pub real_fallback: bool,
}

/// Why a requested mode cannot be returned.
#[derive(Clone, Copy, Debug, PartialEq, Eq, Structural)]
pub struct ModeNotFound {
    /// The requested (zero-based) mode number.
    pub mode: usize,
    /// How many modes were found.
    pub available: usize,
}

/// What the complex-plane search does with a rectangle once it knows how
/// many zeros the rectangle encloses.
#[derive(Clone, Copy, Debug, PartialEq, Eq, Structural)]
pub enum RectangleAction {
    /// No zero is enclosed: nothing to do.
    Skip,
    /// One zero (or the subdivision depth is exhausted): polish a root from
    /// the rectangle's centre.
    Polish,
    /// Several zeros: cut the rectangle in two along its longer side and search both halves.
    Bisect,
}

/// Maximum recursion depth of the rectangle subdivision; a rectangle at this
/// depth is polished directly.
pub const MAX_SUBDIVISION_DEPTH: usize = 20;

/// The threshold for the peak finder at a given number of significant digits.
pub open spec fn spec_threshold(accuracy: i32) -> i32 {
    if 0 <= accuracy <= 2 {
        -2i32
    } else if 3 <= accuracy <= 5 {
        0
    } else if 6 <= accuracy <= 8 {
        3
    } else if 9 <= accuracy <= 11 {
        6
    } else {
        9
    }
}

/// On the real axis an outgoing boundary behaves as a semi-infinite one.
pub open spec fn real_axis_bc(bc: BoundaryCondition) -> BoundaryCondition {
    if bc == BoundaryCondition::Outgoing {
        BoundaryCondition::SemiInfinite
    } else {
        bc
    }
}

/// The real-axis mode condition for a back end and boundary conditions;
/// `None` for PEC walls on both sides, which the solver does not support.
pub open spec fn spec_mode_condition(
    backend: BackEnd,
    left: BoundaryCondition,
    right: BoundaryCondition,
) -> Option<ModeCondition> {
    match backend {
        BackEnd::Scattering => Some(ModeCondition::ScatteringDeterminant),
        BackEnd::Transfer => {
            let l = real_axis_bc(left);
            let r = real_axis_bc(right);
            if l == BoundaryCondition::PEC && r == BoundaryCondition::PEC {
                None
            } else if l == BoundaryCondition::PEC {
                Some(ModeCondition::PecLeft)
            } else if r == BoundaryCondition::PEC {
                Some(ModeCondition::PecRight)
            } else {
                Some(ModeCondition::InverseT22)
            }
        },
    }
}

/// The search regime selected by two boundary conditions.
pub open spec fn spec_search_regime(left: BoundaryCondition, right: BoundaryCondition) -> SearchRegime {
    let lo = left == BoundaryCondition::Outgoing;
    let ro = right == BoundaryCondition::Outgoing;
    if lo && ro {
        SearchRegime::QuasiNormal
    } else if lo || ro {
        SearchRegime::Leaky
    } else {
        SearchRegime::Guided
    }
}

/// The amplitudes `(a, b)` of the forward and backward waves where the
/// coefficient walk starts: only the decaying wave in a cladding, and a pair
/// whose sum vanishes at a PEC wall.
pub open spec fn spec_start_amplitudes(left: BoundaryCondition) -> (i32, i32) {
    if left == BoundaryCondition::PEC {
        (1i32, -1i32)
    } else {
        (0, 1)
    }
}

/// The threshold the peak finder uses at `accuracy` significant digits.
pub fn get_threshold(accuracy: i32) -> (t: i32)
    ensures
        t == spec_threshold(accuracy),
{
    match accuracy {
        0..=2 => -2,
        3..=5 => 0,
        6..=8 => 3,
        9..=11 => 6,
        _ => 9,
    }
}

/// The action for a rectangle enclosing `winding` zeros at subdivision depth `depth`.
pub fn rectangle_action(winding: i32, depth: usize) -> (a: RectangleAction)
    ensures
        winding == 0 ==> a == RectangleAction::Skip,
        winding != 0 && (winding == 1 || depth >= MAX_SUBDIVISION_DEPTH) ==> a
            == RectangleAction::Polish,
        winding != 0 && winding != 1 && depth < MAX_SUBDIVISION_DEPTH ==> a
            == RectangleAction::Bisect,
{
    if winding == 0 {
        RectangleAction::Skip
    } else if winding == 1 || depth >= MAX_SUBDIVISION_DEPTH {
        RectangleAction::Polish
    } else {
        RectangleAction::Bisect
    }
}

/// The complex-plane search regime selected by the boundary conditions.
pub fn search_regime(left: BoundaryCondition, right: BoundaryCondition) -> (r: SearchRegime)
    ensures
        r == spec_search_regime(left, right),
{
    let lo = matches!(left, BoundaryCondition::Outgoing);
    let ro = matches!(right, BoundaryCondition::Outgoing);
    if lo && ro {
        SearchRegime::QuasiNormal
    } else if lo || ro {
        SearchRegime::Leaky
    } else {
        SearchRegime::Guided
    }
}

/// The stages of the adaptive complex-plane search for the given boundary
/// conditions and whether every layer is lossless.
pub fn adaptive_plan(
    left: BoundaryCondition,
    right: BoundaryCondition,
    all_lossless: bool,
) -> (p: AdaptivePlan)
    ensures
        p.probe_full == all_lossless,
        p.probe_isolated_core == (all_lossless && spec_search_regime(left, right)
            != SearchRegime::Guided),
        p.probe_is_answer == (all_lossless && spec_search_regime(left, right)
            == SearchRegime::Guided),
        p.real_fallback == (spec_search_regime(left, right) != SearchRegime::QuasiNormal),
{
    let regime = search_regime(left, right);
    let guided = matches!(regime, SearchRegime::Guided);
    let quasi_normal = matches!(regime, SearchRegime::QuasiNormal);
    AdaptivePlan {
        probe_full: all_lossless,
        probe_isolated_core: all_lossless && !guided,
        probe_is_answer: all_lossless && guided,
        real_fallback: !quasi_normal,
    }
}

/// Whether a search over an explicitly given rectangle is supplemented by the
/// real-axis solver's modes: only for lossless stacks with no outgoing boundary.
pub fn supplement_with_real_axis(
    left: BoundaryCondition,
    right: BoundaryCondition,
    all_lossless: bool,
) -> (b: bool)
    ensures
        b == (all_lossless && spec_search_regime(left, right) == SearchRegime::Guided),
{
    all_lossless && matches!(search_regime(left, right), SearchRegime::Guided)
}

/// The amplitudes `(a, b)` with which the coefficient walk starts for a left
/// boundary condition.
pub fn start_amplitudes(left: BoundaryCondition) -> (ab: (i32, i32))
    ensures
        ab == spec_start_amplitudes(left),
{
    match left {
        BoundaryCondition::SemiInfinite | BoundaryCondition::Outgoing => (0, 1),
        BoundaryCondition::PEC => (1, -1),
    }
}

/// Whether the field of a real-index mode drops the backward wave in the
/// last layer: yes for a semi-infinite or outgoing right cladding, no at a
/// PEC wall.
pub fn drops_last_backward_wave(right: BoundaryCondition) -> (b: bool)
    ensures
        b == (right != BoundaryCondition::PEC),
{
    match right {
        BoundaryCondition::SemiInfinite | BoundaryCondition::Outgoing => true,
        BoundaryCondition::PEC => false,
    }
}

/// Whether the plotting grid starts at the left edge of layer 0 (a PEC
/// wall) rather than one layer-0 thickness to the left of it.
pub fn grid_starts_at_wall(left: BoundaryCondition) -> (b: bool)
    ensures
        b == (left == BoundaryCondition::PEC),
{
    match left {
        BoundaryCondition::SemiInfinite | BoundaryCondition::Outgoing => false,
        BoundaryCondition::PEC => true,
    }
}

/// The normalization applied to a field: power normalization is only valid
/// for a real effective index and falls back to max-field normalization for a
/// complex one.
pub fn effective_normalization(requested: Normalization, complex_neff: bool) -> (n: Normalization)
    ensures
        n == (if complex_neff && requested == Normalization::Power {
            Normalization::MaxField
        } else {
            requested
        }),
{
    if complex_neff {
        match requested {
            Normalization::Power => Normalization::MaxField,
            other => other,
        }
    } else {
        requested
    }
}

/// Returns mode number `mode` of a list of modes sorted from the highest
/// index down, or why it does not exist.
pub fn select_mode<T: Copy>(solutions: &Vec<T>, mode: usize) -> (r: Result<T, ModeNotFound>)
    ensures
        r is Ok <==> mode < solutions@.len(),
        r matches Ok(x) ==> x == solutions@[mode as int],
        r matches Err(e) ==> e == (ModeNotFound { mode, available: solutions@.len() as usize }),
{
    if mode < solutions.len() {
        Ok(solutions[mode])
    } else {
        Err(ModeNotFound { mode, available: solutions.len() })
    }
}

impl ModeNotFound {
    /// The highest mode number that is available (0 when none is).
    pub fn last_available(&self) -> (m: usize)
        ensures
            m == (if self.available == 0 { 0 } else { self.available - 1 }),
    {
        self.available.saturating_sub(1)
    }
}

impl<L> MultiLayer<L> {
    /// The threshold the peak finder uses at `accuracy` significant digits.
    pub fn get_threshold(accuracy: i32) -> (t: i32)
        ensures
            t == spec_threshold(accuracy),
    {
        get_threshold(accuracy)
    }

    /// How the real-axis characteristic function is evaluated for this
    /// structure; `None` when both boundaries are PEC walls, which is not supported.
    pub fn mode_condition(&self) -> (c: Option<ModeCondition>)
        ensures
            c == spec_mode_condition(self.backend, self.left_bc, self.right_bc),
    {
        match self.backend {
            BackEnd::Scattering => Some(ModeCondition::ScatteringDeterminant),
            BackEnd::Transfer => {
                let l = match self.left_bc {
                    BoundaryCondition::Outgoing => BoundaryCondition::SemiInfinite,
                    bc => bc,
                };
                let r = match self.right_bc {
                    BoundaryCondition::Outgoing => BoundaryCondition::SemiInfinite,
                    bc => bc,
                };
                match (l, r) {
                    (BoundaryCondition::SemiInfinite, BoundaryCondition::SemiInfinite) => Some(
                        ModeCondition::InverseT22,
                    ),
                    (BoundaryCondition::PEC, BoundaryCondition::SemiInfinite) => Some(
                        ModeCondition::PecLeft,
                    ),
                    (BoundaryCondition::SemiInfinite, BoundaryCondition::PEC) => Some(
                        ModeCondition::PecRight,
                    ),
                    (BoundaryCondition::PEC, BoundaryCondition::PEC) => None,
                    _ => Some(ModeCondition::InverseT22),
                }
            },
        }
    }

    /// Where the walk of modal coefficients starts for this structure; `None`
    /// for the scattering back end, which does not reconstruct fields.
    pub fn coefficient_start(&self) -> (s: Option<CoefficientStart>)
        ensures
            self.backend == BackEnd::Scattering ==> s is None,
            self.backend == BackEnd::Transfer ==> s == Some(
                if self.left_bc == BoundaryCondition::PEC {
                    CoefficientStart::PecWall
                } else {
                    CoefficientStart::Cladding
                },
            ),
    {
        match self.backend {
            BackEnd::Transfer => match self.left_bc {
                BoundaryCondition::PEC => Some(CoefficientStart::PecWall),
                BoundaryCondition::SemiInfinite | BoundaryCondition::Outgoing => Some(
                    CoefficientStart::Cladding,
                ),
            },
            BackEnd::Scattering => None,
        }
    }
}


/// The search regime does not depend on which side carries which boundary
/// condition, and a PEC wall selects the same regime as a semi-infinite cladding.
pub proof fn lemma_search_regime_symmetric(left: BoundaryCondition, right: BoundaryCondition)
    ensures
        spec_search_regime(left, right) == spec_search_regime(right, left),
        spec_search_regime(BoundaryCondition::PEC, right) == spec_search_regime(
            BoundaryCondition::SemiInfinite,
            right,
        ),
        spec_search_regime(left, BoundaryCondition::PEC) == spec_search_regime(
            left,
            BoundaryCondition::SemiInfinite,
        ),
{
}

/// On the transfer back end, a PEC wall on the left of one structure gives
/// the mirrored condition of a PEC wall on the right of the mirrored
/// structure, semi-infinite claddings on both sides give `1 / t22` either
/// way, and PEC on both sides is unsupported either way.
pub proof fn lemma_mode_condition_mirror(left: BoundaryCondition, right: BoundaryCondition)
    ensures
        spec_mode_condition(BackEnd::Transfer, left, right) == Some(ModeCondition::PecLeft)
            <==> spec_mode_condition(BackEnd::Transfer, right, left) == Some(
            ModeCondition::PecRight,
        ),
        spec_mode_condition(BackEnd::Transfer, left, right) == Some(ModeCondition::InverseT22)
            <==> spec_mode_condition(BackEnd::Transfer, right, left) == Some(
            ModeCondition::InverseT22,
        ),
        spec_mode_condition(BackEnd::Transfer, left, right) is None <==> spec_mode_condition(
            BackEnd::Transfer,
            right,
            left,
        ) is None,
{
}

/// On the real axis an outgoing boundary is solved as a semi-infinite one,
/// and the scattering back end ignores the boundary conditions.
pub proof fn lemma_mode_condition_real_axis(
    backend: BackEnd,
    left: BoundaryCondition,
    right: BoundaryCondition,
)
    ensures
        spec_mode_condition(backend, BoundaryCondition::Outgoing, right) == spec_mode_condition(
            backend,
            BoundaryCondition::SemiInfinite,
            right,
        ),
        spec_mode_condition(backend, left, BoundaryCondition::Outgoing) == spec_mode_condition(
            backend,
            left,
            BoundaryCondition::SemiInfinite,
        ),
        spec_mode_condition(BackEnd::Scattering, left, right) == Some(
            ModeCondition::ScatteringDeterminant,
        ),
{
}

/// The starting amplitudes at a PEC wall make the tangential field `a + b`
/// vanish there; in a cladding only the wave decaying away from the guide
/// is present.
pub proof fn lemma_start_amplitudes(left: BoundaryCondition)
    ensures
        left == BoundaryCondition::PEC ==> spec_start_amplitudes(left).0
            + spec_start_amplitudes(left).1 == 0,
        left != BoundaryCondition::PEC ==> spec_start_amplitudes(left).0 == 0
            && spec_start_amplitudes(left).1 == 1,
{
}

/// Asking for more significant digits never lowers the peak-finder threshold.
pub proof fn lemma_threshold_monotone(a1: i32, a2: i32)
    requires
        0 <= a1 <= a2,
    ensures
        spec_threshold(a1) <= spec_threshold(a2),
{
}

} // verus!
