//! The multilayer stack's configuration: its layers, back end, boundary
//! conditions and normalization, and the rules that build it from a list of
//! layers and PEC wall markers.
use vstd::prelude::*;

use crate::enums::{BackEnd, BoundaryCondition, Normalization};

verus! {

/// One element of the list a stack is built from: a PEC wall marker, a
/// dielectric layer, or something that is neither.
pub enum StackItem<L> {
    /// A Perfect Electric Conductor wall marker.
    Pec,
    /// A dielectric layer.
    Layer(L),
    /// An element that is neither a layer nor a PEC marker.
    Other,
}

/// Why a list of elements does not describe a valid stack.
#[derive(Clone, Copy, Debug, PartialEq, Eq, Structural)]
pub enum StackError {
    /// Fewer than two elements in the list.
    TooFewElements,
    /// A PEC marker stands neither first nor last.
    PecNotAtEnd,
    /// An element is neither a layer nor a PEC marker.
    NotALayer,
    /// PEC markers stand both first and last.
    PecOnBothSides,
    /// Fewer than two dielectric layers remain once the PEC markers are removed.
    TooFewDielectricLayers,
}

/// The multilayer structure: its layers and the settings that control how
/// modes and fields are computed.
pub struct MultiLayer<L> {
    /// The layers of the stack, left to right.
    pub layers: Vec<L>,
    /// The back end used for the calculations.
    pub backend: BackEnd,
    /// Number of significant digits requested for the real-axis neff search.
    pub required_accuracy: i32,
    /// Boundary condition on the left side of the structure.
    pub left_bc: BoundaryCondition,
    /// Boundary condition on the right side of the structure.
    pub right_bc: BoundaryCondition,
    /// Normalization convention used for field reconstruction.
    pub normalization: Normalization,
}

/// The number of significant digits a new structure asks for.
pub open spec fn default_accuracy() -> i32 {
    10
}

/// Element `i` of `items` cannot stand where it is: a PEC marker strictly
/// inside the list, or an element that is not a layer at all.
pub open spec fn misplaced<L>(items: Seq<StackItem<L>>, i: int) -> bool {
    ||| (items[i] is Pec && 0 < i < items.len() - 1)
    ||| items[i] is Other
}

/// `i` is the first index of `items` whose element is misplaced.
pub open spec fn first_misplaced<L>(items: Seq<StackItem<L>>, i: int) -> bool {
    &&& 0 <= i < items.len()
    &&& misplaced(items, i)
    &&& forall|j: int| 0 <= j < i ==> !misplaced(items, j)
}

/// The dielectric layers of `items`, in order.
pub open spec fn dielectric_layers<L>(items: Seq<StackItem<L>>) -> Seq<L>
    decreases items.len(),
{
    if items.len() == 0 {
        Seq::empty()
    } else {
        let rest = dielectric_layers(items.drop_last());
        match items.last() {
            StackItem::Layer(l) => rest.push(l),
            _ => rest,
        }
    }
}

/// The boundary condition that an edge element imposes: PEC for a PEC
/// marker, a semi-infinite cladding otherwise.
pub open spec fn edge_bc<L>(item: StackItem<L>) -> BoundaryCondition {
    if item is Pec {
        BoundaryCondition::PEC
    } else {
        BoundaryCondition::SemiInfinite
    }
}

/// The error, if any, that a list of elements gives when a stack is built
/// from it; the checks run in this order.
pub open spec fn stack_error<L>(items: Seq<StackItem<L>>) -> Option<StackError> {
    if items.len() < 2 {
        Some(StackError::TooFewElements)
    } else if exists|i: int| first_misplaced(items, i) {
        let i = choose|i: int| first_misplaced(items, i);
        if items[i] is Pec {
            Some(StackError::PecNotAtEnd)
        } else {
            Some(StackError::NotALayer)
        }
    } else if items[0] is Pec && items.last() is Pec {
        Some(StackError::PecOnBothSides)
    } else if dielectric_layers(items).len() < 2 {
        Some(StackError::TooFewDielectricLayers)
    } else {
        None
    }
}

/// Pushing one more element extends the dielectric layers by that element's
/// layer, if it is one.
proof fn lemma_dielectric_push<L>(items: Seq<StackItem<L>>, item: StackItem<L>)
    ensures
        dielectric_layers(items.push(item)) == match item {
            StackItem::Layer(l) => dielectric_layers(items).push(l),
            _ => dielectric_layers(items),
        },
{
    assert(items.push(item).drop_last() =~= items);
}

/// There is at most one first misplaced index.
proof fn lemma_first_misplaced_unique<L>(items: Seq<StackItem<L>>, i: int, k: int)
    requires
        first_misplaced(items, i),
        first_misplaced(items, k),
    ensures
        i == k,
{
}

impl<L> MultiLayer<L> {
    /// Creates a structure from a list of layers, with semi-infinite claddings
    /// on both sides, the transfer-matrix back end, ten significant digits and
    /// max-field normalization.
    pub fn new(layers: Vec<L>) -> (m: MultiLayer<L>)
        ensures
            m.layers@ == layers@,
            m.backend == BackEnd::Transfer,
            m.required_accuracy == default_accuracy(),
            m.left_bc == BoundaryCondition::SemiInfinite,
            m.right_bc == BoundaryCondition::SemiInfinite,
            m.normalization == Normalization::MaxField,
    {
        let mut m = MultiLayer {
            layers,
            backend: BackEnd::Transfer,
            required_accuracy: 10,
            left_bc: BoundaryCondition::SemiInfinite,
            right_bc: BoundaryCondition::SemiInfinite,
            normalization: Normalization::MaxField,
        };
        m.set_backend(BackEnd::Transfer);
        m
    }

    /// Creates a structure from a list of layers and PEC wall markers.
    ///
    /// A PEC marker placed first gives a PEC left boundary, one placed last a
    /// PEC right boundary; a PEC marker anywhere else, PEC markers at both
    /// ends, an element that is neither, fewer than two elements or fewer than
    /// two dielectric layers are refused.
    pub fn from_python_layers(items: Vec<StackItem<L>>) -> (res: Result<MultiLayer<L>, StackError>)
        ensures
            res is Ok <==> stack_error(items@) is None,
            res matches Err(e) ==> stack_error(items@) == Some(e),
            res matches Ok(m) ==> {
                &&& m.layers@ == dielectric_layers(items@)
                &&& m.left_bc == edge_bc(items@[0])
                &&& m.right_bc == edge_bc(items@.last())
                &&& m.backend == BackEnd::Transfer
                &&& m.required_accuracy == default_accuracy()
                &&& m.normalization == Normalization::MaxField
            },
    {
        let len = items.len();
        if len < 2 {
            return Err(StackError::TooFewElements);
        }
        let ghost all = items@;
        let mut left_bc = BoundaryCondition::SemiInfinite;
        let mut right_bc = BoundaryCondition::SemiInfinite;
        let mut dielectric: Vec<L> = Vec::new();
        let mut rest = items;
        let mut i: usize = 0;
        while i < len
            invariant
                all == items@,
                len == all.len(),
                len >= 2,
                i <= len,
                rest@.len() == len - i,
                rest@ == all.subrange(i as int, len as int),
                forall|j: int| 0 <= j < i ==> !misplaced(all, j),
                dielectric@ == dielectric_layers(all.subrange(0, i as int)),
                left_bc == (if i > 0 { edge_bc(all[0]) } else { BoundaryCondition::SemiInfinite }),
                right_bc == (if i == len { edge_bc(all[len - 1]) } else { BoundaryCondition::SemiInfinite }),
            decreases len - i,
        {
            let item = rest.remove(0);
            proof {
                lemma_dielectric_push(all.subrange(0, i as int), item);
                assert(all.subrange(0, i as int).push(item) =~= all.subrange(0, i + 1));
            }
            match item {
                StackItem::Pec => {
                    if i == 0 {
                        left_bc = BoundaryCondition::PEC;
                    } else if i == len - 1 {
                        right_bc = BoundaryCondition::PEC;
                    } else {
                        proof {
                            assert(all[i as int] is Pec);
                            assert(first_misplaced(all, i as int));
                            let c = choose|k: int| first_misplaced(all, k);
                            lemma_first_misplaced_unique(all, i as int, c);
                        }
                        return Err(StackError::PecNotAtEnd);
                    }
                },
                StackItem::Layer(l) => {
                    dielectric.push(l);
                },
                StackItem::Other => {
                    proof {
                        assert(first_misplaced(all, i as int));
                        assert forall|k: int| first_misplaced(all, k) implies k == i by {
                            lemma_first_misplaced_unique(all, i as int, k);
                        }
                    }
                    return Err(StackError::NotALayer);
                },
            }
            i = i + 1;
        }
        proof {
            assert(all.subrange(0, len as int) =~= all);
            assert(!exists|k: int| first_misplaced(all, k));
        }
        if left_bc == BoundaryCondition::PEC && right_bc == BoundaryCondition::PEC {
            return Err(StackError::PecOnBothSides);
        }
        if dielectric.len() < 2 {
            return Err(StackError::TooFewDielectricLayers);
        }
        let mut m = MultiLayer {
            layers: dielectric,
            backend: BackEnd::Transfer,
            required_accuracy: 10,
            left_bc,
            right_bc,
            normalization: Normalization::MaxField,
        };
        m.set_backend(BackEnd::Transfer);
        Ok(m)
    }

    /// Sets the left boundary condition; nothing else changes.
    pub fn set_left_boundary(&mut self, bc: BoundaryCondition)
        ensures
            final(self).left_bc == bc,
            final(self).layers@ == old(self).layers@,
            final(self).backend == old(self).backend,
            final(self).required_accuracy == old(self).required_accuracy,
            final(self).right_bc == old(self).right_bc,
            final(self).normalization == old(self).normalization,
    {
        self.left_bc = bc;
    }

    /// Sets the right boundary condition; nothing else changes.
    pub fn set_right_boundary(&mut self, bc: BoundaryCondition)
        ensures
            final(self).right_bc == bc,
            final(self).layers@ == old(self).layers@,
            final(self).backend == old(self).backend,
            final(self).required_accuracy == old(self).required_accuracy,
            final(self).left_bc == old(self).left_bc,
            final(self).normalization == old(self).normalization,
    {
        self.right_bc = bc;
    }

    /// Switches the back end; nothing else changes.
    pub fn set_backend(&mut self, backend: BackEnd)
        ensures
            final(self).backend == backend,
            final(self).layers@ == old(self).layers@,
            final(self).required_accuracy == old(self).required_accuracy,
            final(self).left_bc == old(self).left_bc,
            final(self).right_bc == old(self).right_bc,
            final(self).normalization == old(self).normalization,
    {
        self.backend = backend;
    }

    /// Sets the field normalization convention; nothing else changes.
    pub fn python_set_normalization(&mut self, norm: Normalization)
        ensures
            final(self).normalization == norm,
            final(self).layers@ == old(self).layers@,
            final(self).backend == old(self).backend,
            final(self).required_accuracy == old(self).required_accuracy,
            final(self).left_bc == old(self).left_bc,
            final(self).right_bc == old(self).right_bc,
    {
        self.normalization = norm;
    }
}



impl<L: Copy> MultiLayer<L> {
    /// The isolated core of the stack: its interior layers between two copies
    /// of `cladding`; `None` for a stack of fewer than three layers, which has
    /// no interior.
    pub fn isolated_core_layers(&self, cladding: L) -> (core: Option<Vec<L>>)
        ensures
            self.layers@.len() < 3 ==> core is None,
            self.layers@.len() >= 3 ==> (core matches Some(c) && c@ == seq![cladding]
                + self.layers@.subrange(1, self.layers@.len() - 1) + seq![cladding]),
    {
        let n = self.layers.len();
        if n < 3 {
            return None;
        }
        let mut core: Vec<L> = Vec::new();
        core.push(cladding);
        let mut i: usize = 1;
        while i < n - 1
            invariant
                n == self.layers@.len(),
                n >= 3,
                1 <= i <= n - 1,
                core@ == seq![cladding] + self.layers@.subrange(1, i as int),
            decreases n - i,
        {
            core.push(self.layers[i]);
            proof {
                assert(seq![cladding] + self.layers@.subrange(1, i + 1) =~= (seq![cladding]
                    + self.layers@.subrange(1, i as int)).push(self.layers@[i as int]));
            }
            i = i + 1;
        }
        core.push(cladding);
        Some(core)
    }
}

/// The list of elements that describes `layers` between the given walls: a
/// PEC marker first when the left boundary is PEC, the layers, and a PEC
/// marker last when the right boundary is PEC.
pub open spec fn stack_items<L>(
    layers: Seq<L>,
    left: BoundaryCondition,
    right: BoundaryCondition,
) -> Seq<StackItem<L>> {
    let walls_left: Seq<StackItem<L>> = if left == BoundaryCondition::PEC {
        seq![StackItem::Pec]
    } else {
        Seq::empty()
    };
    let walls_right: Seq<StackItem<L>> = if right == BoundaryCondition::PEC {
        seq![StackItem::Pec]
    } else {
        Seq::empty()
    };
    walls_left + layers.map_values(|l: L| StackItem::Layer(l)) + walls_right
}

proof fn lemma_dielectric_concat<L>(a: Seq<StackItem<L>>, b: Seq<StackItem<L>>)
    ensures
        dielectric_layers(a + b) == dielectric_layers(a) + dielectric_layers(b),
    decreases b.len(),
{
    if b.len() == 0 {
        assert(a + b =~= a);
        assert(dielectric_layers(a) + dielectric_layers(b) =~= dielectric_layers(a));
    } else {
        let b0 = b.drop_last();
        lemma_dielectric_concat(a, b0);
        assert((a + b).drop_last() =~= a + b0);
        assert((a + b).last() == b.last());
        match b.last() {
            StackItem::Layer(l) => {
                assert(dielectric_layers(a) + dielectric_layers(b0).push(l)
                    =~= (dielectric_layers(a) + dielectric_layers(b0)).push(l));
            },
            _ => {},
        }
    }
}

proof fn lemma_dielectric_of_layers<L>(layers: Seq<L>)
    ensures
        dielectric_layers(layers.map_values(|l: L| StackItem::Layer(l))) == layers,
    decreases layers.len(),
{
    let items = layers.map_values(|l: L| StackItem::<L>::Layer(l));
    if layers.len() == 0 {
        assert(layers =~= Seq::<L>::empty());
    } else {
        let shorter = layers.drop_last();
        lemma_dielectric_of_layers(shorter);
        assert(items.drop_last() =~= shorter.map_values(|l: L| StackItem::<L>::Layer(l)));
        assert(shorter.push(layers.last()) =~= layers);
    }
}

proof fn lemma_dielectric_of_walls<L>()
    ensures
        dielectric_layers(seq![StackItem::<L>::Pec]) == Seq::<L>::empty(),
        dielectric_layers(Seq::<StackItem<L>>::empty()) == Seq::<L>::empty(),
{
    let none = Seq::<StackItem<L>>::empty();
    assert(dielectric_layers(none) == Seq::<L>::empty());
    assert(seq![StackItem::<L>::Pec].drop_last() =~= none);
    assert(dielectric_layers(seq![StackItem::<L>::Pec]) == dielectric_layers(none));
}

/// A list made of PEC markers at the requested ends around at least two
/// layers (not PEC on both ends) builds a stack: its dielectric layers are
/// the given ones and its boundary conditions are the requested ones.
pub proof fn lemma_stack_items_build<L>(
    layers: Seq<L>,
    left: BoundaryCondition,
    right: BoundaryCondition,
)
    requires
        layers.len() >= 2,
        left != BoundaryCondition::Outgoing,
        right != BoundaryCondition::Outgoing,
        !(left == BoundaryCondition::PEC && right == BoundaryCondition::PEC),
    ensures
        stack_error(stack_items(layers, left, right)) is None,
        dielectric_layers(stack_items(layers, left, right)) == layers,
        edge_bc(stack_items(layers, left, right)[0]) == left,
        edge_bc(stack_items(layers, left, right).last()) == right,
{
    let items = stack_items(layers, left, right);
    let wl: Seq<StackItem<L>> = if left == BoundaryCondition::PEC {
        seq![StackItem::Pec]
    } else {
        Seq::empty()
    };
    let wr: Seq<StackItem<L>> = if right == BoundaryCondition::PEC {
        seq![StackItem::Pec]
    } else {
        Seq::empty()
    };
    let mid = layers.map_values(|l: L| StackItem::<L>::Layer(l));
    assert(items == wl + mid + wr);
    lemma_dielectric_concat(wl + mid, wr);
    lemma_dielectric_concat(wl, mid);
    lemma_dielectric_of_layers(layers);
    lemma_dielectric_of_walls::<L>();
    assert(dielectric_layers(items) =~= layers);
    assert forall|i: int| 0 <= i < items.len() implies !misplaced(items, i) by {
        if i < wl.len() {
            assert(items[i] == wl[i]);
        } else if i < wl.len() + mid.len() {
            assert(items[i] == mid[i - wl.len()]);
        } else {
            assert(items[i] == wr[i - wl.len() - mid.len()]);
        }
    }
    assert(!exists|i: int| first_misplaced(items, i));
    if left == BoundaryCondition::PEC {
        assert(items[0] == wl[0]);
    } else {
        assert(items[0] == mid[0]);
    }
    if right == BoundaryCondition::PEC {
        assert(items.last() == wr[0]);
    } else {
        assert(items.last() == mid[mid.len() - 1]);
    }
}

/// Every list that builds a stack is exactly the stack's layers between PEC
/// markers standing where its boundary conditions are PEC.
pub proof fn lemma_stack_items_shape<L>(items: Seq<StackItem<L>>)
    requires
        stack_error(items) is None,
    ensures
        items == stack_items(dielectric_layers(items), edge_bc(items[0]), edge_bc(items.last())),
{
    let len = items.len() as int;
    let s: int = if items[0] is Pec { 1 } else { 0 };
    let e: int = if items.last() is Pec { len - 1 } else { len };
    assert(!exists|i: int| first_misplaced(items, i));
    assert forall|i: int| 0 <= i < len implies !misplaced(items, i) by {
        if misplaced(items, i) {
            lemma_some_first_misplaced(items, i);
        }
    }
    let wl = items.subrange(0, s);
    let core = items.subrange(s, e);
    let wr = items.subrange(e, len);
    assert(items =~= wl + core + wr);
    assert forall|i: int| 0 <= i < core.len() implies core[i] is Layer by {
        assert(core[i] == items[s + i]);
        assert(!misplaced(items, s + i));
    }
    lemma_all_layers(core);
    lemma_dielectric_concat(wl + core, wr);
    lemma_dielectric_concat(wl, core);
    lemma_dielectric_of_walls::<L>();
    let left = edge_bc(items[0]);
    let right = edge_bc(items.last());
    if items[0] is Pec {
        assert(wl =~= seq![StackItem::<L>::Pec]);
    } else {
        assert(wl =~= Seq::<StackItem<L>>::empty());
    }
    if items.last() is Pec {
        assert(wr =~= seq![StackItem::<L>::Pec]);
    } else {
        assert(wr =~= Seq::<StackItem<L>>::empty());
    }
    assert(dielectric_layers(items) =~= dielectric_layers(core));
}

/// Some misplaced index makes a first misplaced index exist.
proof fn lemma_some_first_misplaced<L>(items: Seq<StackItem<L>>, i: int)
    requires
        0 <= i < items.len(),
        misplaced(items, i),
    ensures
        exists|k: int| first_misplaced(items, k),
    decreases i,
{
    if forall|j: int| 0 <= j < i ==> !misplaced(items, j) {
        assert(first_misplaced(items, i));
    } else {
        let j = choose|j: int| 0 <= j < i && misplaced(items, j);
        lemma_some_first_misplaced(items, j);
    }
}

/// A list made of layers only is its dielectric layers, each wrapped as an element.
proof fn lemma_all_layers<L>(items: Seq<StackItem<L>>)
    requires
        forall|i: int| 0 <= i < items.len() ==> items[i] is Layer,
    ensures
        items == dielectric_layers(items).map_values(|l: L| StackItem::Layer(l)),
    decreases items.len(),
{
    if items.len() == 0 {
        assert(dielectric_layers(items).map_values(|l: L| StackItem::Layer(l)) =~= items);
    } else {
        let shorter = items.drop_last();
        assert forall|i: int| 0 <= i < shorter.len() implies shorter[i] is Layer by {
            assert(shorter[i] == items[i]);
        }
        lemma_all_layers(shorter);
        let d = dielectric_layers(shorter);
        match items.last() {
            StackItem::Layer(l) => {
                assert(dielectric_layers(items) == d.push(l));
                assert(d.push(l).map_values(|l: L| StackItem::Layer(l))
                    =~= d.map_values(|l: L| StackItem::Layer(l)).push(StackItem::Layer(l)));
                assert(shorter.push(items.last()) =~= items);
            },
            _ => {
                assert(items[items.len() - 1] is Layer);
            },
        }
    }
}


/// A stack built from a list of elements has at least two dielectric layers
/// and no PEC wall on both sides.
pub proof fn lemma_built_stack_valid<L>(items: Seq<StackItem<L>>)
    requires
        stack_error(items) is None,
    ensures
        dielectric_layers(items).len() >= 2,
        !(edge_bc(items[0]) == BoundaryCondition::PEC && edge_bc(items.last())
            == BoundaryCondition::PEC),
        edge_bc(items[0]) != BoundaryCondition::Outgoing,
        edge_bc(items.last()) != BoundaryCondition::Outgoing,
{
}

} // verus!
