//! The layout of a stack computation: the order in which interface and
//! propagation matrices are combined across the layers, and which sheet of
//! the transverse wavevector each layer uses.
//!
//! For layers `L0 … L(n-1)` both the scattering matrix and the transfer
//! matrix walk the stack left to right: the interface `L0|L1`, propagation
//! through `L1`, the interface `L1|L2`, …, propagation through `L(n-2)`, and
//! the interface `L(n-2)|L(n-1)`. The outer layers are claddings and are
//! never propagated through.
use vstd::prelude::*;

use crate::enums::BoundaryCondition;

verus! {

/// The sheet on which a layer's transverse wavevector `kz` is taken.
#[derive(Clone, Copy, Debug, PartialEq, Eq, Structural)]
pub enum Sheet {
    /// `Im(kz) >= 0`: fields decay away from the guide.
    Physical,
    /// `Im(kz) <= 0`: outgoing radiation.
    Outgoing,
}

/// One step of the walk across the stack.
#[derive(Clone, Copy, Debug, PartialEq, Eq, Structural)]
pub enum StackStep {
    /// The interface between two adjacent layers.
    Interface { left: usize, right: usize },
    /// Propagation through one layer.
    Propagation { layer: usize },
}

/// Step `i` of the walk: even steps are interfaces, the interface after step
/// `2k` being `Lk|L(k+1)`; odd step `2k-1` is propagation through `Lk`.
pub open spec fn stack_step(i: int) -> StackStep {
    if i % 2 == 0 {
        StackStep::Interface { left: (i / 2) as usize, right: (i / 2 + 1) as usize }
    } else {
        StackStep::Propagation { layer: ((i + 1) / 2) as usize }
    }
}

/// How many interfaces a walk crosses.
pub open spec fn interface_count(steps: Seq<StackStep>) -> nat
    decreases steps.len(),
{
    if steps.len() == 0 {
        0
    } else {
        interface_count(steps.drop_last()) + if steps.last() is Interface {
            1nat
        } else {
            0nat
        }
    }
}

proof fn lemma_interface_count_push(steps: Seq<StackStep>, step: StackStep)
    ensures
        interface_count(steps.push(step)) == interface_count(steps) + if step is Interface {
            1nat
        } else {
            0nat
        },
{
    assert(steps.push(step).drop_last() =~= steps);
}

/// The sheet a cladding takes under a boundary condition: outgoing for an
/// outgoing-wave boundary, physical otherwise (a PEC wall is treated as a
/// semi-infinite cladding here).
pub open spec fn bc_sheet(bc: BoundaryCondition) -> Sheet {
    if bc == BoundaryCondition::Outgoing {
        Sheet::Outgoing
    } else {
        Sheet::Physical
    }
}

/// The sheet of layer `j` of an `n`-layer stack: the claddings follow their
/// boundary conditions, interior layers are always physical.
pub open spec fn spec_layer_sheet(
    j: int,
    n: int,
    left: BoundaryCondition,
    right: BoundaryCondition,
) -> Sheet {
    if j == 0 {
        bc_sheet(left)
    } else if j == n - 1 {
        bc_sheet(right)
    } else {
        Sheet::Physical
    }
}

/// The sheet on which layer `j` of an `n`-layer stack takes its transverse
/// wavevector when the stack's scattering matrix is built with the given
/// boundary conditions.
pub fn layer_sheet(
    j: usize,
    n: usize,
    left: BoundaryCondition,
    right: BoundaryCondition,
) -> (s: Sheet)
    requires
        j < n,
    ensures
        s == spec_layer_sheet(j as int, n as int, left, right),
        j == 0 ==> (s == Sheet::Outgoing <==> left == BoundaryCondition::Outgoing),
        n >= 2 && j == n - 1 ==> (s == Sheet::Outgoing <==> right == BoundaryCondition::Outgoing),
        0 < j < n - 1 ==> s == Sheet::Physical,
{
    let bc = if j == 0 {
        left
    } else if j == n - 1 {
        right
    } else {
        return Sheet::Physical;
    };
    match bc {
        BoundaryCondition::Outgoing => Sheet::Outgoing,
        _ => Sheet::Physical,
    }
}

/// The walk across an `n`-layer stack: `2n - 3` steps alternating interface
/// and propagation, starting and ending with an interface.
pub fn stack_steps(n: usize) -> (steps: Vec<StackStep>)
    requires
        2 <= n <= usize::MAX / 2,
    ensures
        steps@.len() == 2 * n - 3,
        forall|i: int| 0 <= i < steps@.len() ==> #[trigger] steps@[i] == stack_step(i),
        interface_count(steps@) == n - 1,
{
    let mut steps: Vec<StackStep> = Vec::new();
    proof {
        lemma_interface_count_push(steps@, StackStep::Interface { left: 0, right: 1 });
    }
    steps.push(StackStep::Interface { left: 0, right: 1 });
    let mut k: usize = 1;
    while k + 1 < n
        invariant
            2 <= n <= usize::MAX / 2,
            1 <= k <= n - 1,
            steps@.len() == 2 * k - 1,
            forall|i: int| 0 <= i < steps@.len() ==> #[trigger] steps@[i] == stack_step(i),
            interface_count(steps@) == k,
        decreases n - k,
    {
        proof {
            lemma_interface_count_push(steps@, StackStep::Propagation { layer: k });
        }
        steps.push(StackStep::Propagation { layer: k });
        proof {
            lemma_interface_count_push(steps@, StackStep::Interface { left: k, right: (k + 1) as usize });
        }
        steps.push(StackStep::Interface { left: k, right: k + 1 });
        k = k + 1;
    }
    steps
}

/// The walk that carries the modal coefficients across the stack. With a
/// semi-infinite (or outgoing) left cladding the walk starts at the first
/// interface; with a PEC wall at the left edge of layer 0, layer 0 has finite
/// thickness and is propagated through first. The coefficients of a layer
/// are read after each interface, plus once at the start for layer 0: one
/// reading per layer.
pub fn coefficient_steps(n: usize, pec_left: bool) -> (steps: Vec<StackStep>)
    requires
        2 <= n <= usize::MAX / 2,
    ensures
        pec_left ==> steps@.len() == 2 * n - 2 && steps@[0] == (StackStep::Propagation { layer: 0 })
            && forall|i: int| 1 <= i < steps@.len() ==> #[trigger] steps@[i] == stack_step(i - 1),
        !pec_left ==> steps@.len() == 2 * n - 3
            && forall|i: int| 0 <= i < steps@.len() ==> #[trigger] steps@[i] == stack_step(i),
        interface_count(steps@) + 1 == n,
{
    let walk = stack_steps(n);
    if !pec_left {
        return walk;
    }
    let mut steps: Vec<StackStep> = Vec::new();
    proof {
        lemma_interface_count_push(steps@, StackStep::Propagation { layer: 0 });
    }
    steps.push(StackStep::Propagation { layer: 0 });
    let mut i: usize = 0;
    while i < walk.len()
        invariant
            walk@.len() == 2 * n - 3,
            forall|j: int| 0 <= j < walk@.len() ==> #[trigger] walk@[j] == stack_step(j),
            i <= walk@.len(),
            steps@.len() == i + 1,
            steps@[0] == (StackStep::Propagation { layer: 0 }),
            forall|j: int| 1 <= j < steps@.len() ==> #[trigger] steps@[j] == stack_step(j - 1),
            interface_count(walk@) == n - 1,
            interface_count(steps@) == interface_count(walk@.subrange(0, i as int)),
        decreases walk@.len() - i,
    {
        proof {
            lemma_interface_count_push(steps@, walk@[i as int]);
            lemma_interface_count_push(walk@.subrange(0, i as int), walk@[i as int]);
            assert(walk@.subrange(0, i as int).push(walk@[i as int]) =~= walk@.subrange(0, i + 1));
        }
        steps.push(walk[i]);
        i = i + 1;
    }
    proof {
        assert(walk@.subrange(0, walk@.len() as int) =~= walk@);
    }
    steps
}


/// Mirroring the stack (layer `j` becomes layer `n - 1 - j`) and swapping the
/// boundary conditions leaves every layer on the same sheet.
pub proof fn lemma_sheet_mirror(j: int, n: int, left: BoundaryCondition, right: BoundaryCondition)
    requires
        n >= 2,
        0 <= j < n,
    ensures
        spec_layer_sheet(j, n, left, right) == spec_layer_sheet(n - 1 - j, n, right, left),
{
}

/// The scattering matrix treats a PEC wall exactly as a semi-infinite cladding.
pub proof fn lemma_sheet_pec_as_semi_infinite(j: int, n: int, other: BoundaryCondition)
    ensures
        spec_layer_sheet(j, n, BoundaryCondition::PEC, other)
            == spec_layer_sheet(j, n, BoundaryCondition::SemiInfinite, other),
        spec_layer_sheet(j, n, other, BoundaryCondition::PEC)
            == spec_layer_sheet(j, n, other, BoundaryCondition::SemiInfinite),
{
}

/// Interior layers are always on the physical sheet; with no outgoing
/// boundary every layer is; with outgoing boundaries on both sides both
/// claddings are on the outgoing sheet.
pub proof fn lemma_sheet_by_boundary(j: int, n: int, left: BoundaryCondition, right: BoundaryCondition)
    requires
        n >= 2,
        0 <= j < n,
    ensures
        0 < j < n - 1 ==> spec_layer_sheet(j, n, left, right) == Sheet::Physical,
        left != BoundaryCondition::Outgoing && right != BoundaryCondition::Outgoing
            ==> spec_layer_sheet(j, n, left, right) == Sheet::Physical,
        left == BoundaryCondition::Outgoing && right == BoundaryCondition::Outgoing && (j == 0 || j
            == n - 1) ==> spec_layer_sheet(j, n, left, right) == Sheet::Outgoing,
{
}

/// The walk across an `n`-layer stack crosses each interface `Lk|L(k+1)`
/// exactly at step `2k`, propagates through each interior layer `Lk` exactly
/// at step `2k - 1`, and never propagates through a cladding.
pub proof fn lemma_stack_steps_cover(n: int)
    requires
        2 <= n <= usize::MAX / 2,
    ensures
        forall|k: int| 0 <= k < n - 1 ==> #[trigger] stack_step(2 * k)
            == (StackStep::Interface { left: k as usize, right: (k + 1) as usize }),
        forall|k: int| 1 <= k < n - 1 ==> #[trigger] stack_step(2 * k - 1)
            == (StackStep::Propagation { layer: k as usize }),
        forall|i: int| 0 <= i < 2 * n - 3 ==> match #[trigger] stack_step(i) {
            StackStep::Propagation { layer } => 1 <= layer < n - 1,
            StackStep::Interface { left, right } => 0 <= left && right == left + 1 && right < n,
        },
{
    assert forall|k: int| 0 <= k < n - 1 implies #[trigger] stack_step(2 * k)
        == (StackStep::Interface { left: k as usize, right: (k + 1) as usize }) by {
        assert((2 * k) % 2 == 0) by (nonlinear_arith);
        assert((2 * k) / 2 == k) by (nonlinear_arith);
    }
    assert forall|k: int| 1 <= k < n - 1 implies #[trigger] stack_step(2 * k - 1)
        == (StackStep::Propagation { layer: k as usize }) by {
        assert((2 * k - 1) % 2 == 1) by (nonlinear_arith) requires k >= 1;
        assert((2 * k - 1 + 1) / 2 == k) by (nonlinear_arith);
    }
    assert forall|i: int| 0 <= i < 2 * n - 3 implies match #[trigger] stack_step(i) {
        StackStep::Propagation { layer } => 1 <= layer < n - 1,
        StackStep::Interface { left, right } => 0 <= left && right == left + 1 && right < n,
    } by {
        if i % 2 == 0 {
            assert(0 <= i / 2 && i / 2 + 1 < n);
        } else {
            assert(1 <= (i + 1) / 2 < n - 1);
        }
    }
}


/// In a stack of any number `n >= 2` of layers, the left cladding is on the
/// outgoing sheet exactly when the left boundary is outgoing and the right
/// cladding exactly when the right boundary is, whatever the other boundary;
/// every interior layer is on the physical sheet.
pub proof fn lemma_cladding_sheets(n: int, left: BoundaryCondition, right: BoundaryCondition)
    requires
        n >= 2,
    ensures
        spec_layer_sheet(0, n, left, right) == Sheet::Outgoing <==> left
            == BoundaryCondition::Outgoing,
        spec_layer_sheet(n - 1, n, left, right) == Sheet::Outgoing <==> right
            == BoundaryCondition::Outgoing,
        spec_layer_sheet(0, n, left, right) == Sheet::Physical <==> left
            != BoundaryCondition::Outgoing,
        spec_layer_sheet(n - 1, n, left, right) == Sheet::Physical <==> right
            != BoundaryCondition::Outgoing,
        forall|j: int| 0 < j < n - 1 ==> #[trigger] spec_layer_sheet(j, n, left, right)
            == Sheet::Physical,
{
}

} // verus!
