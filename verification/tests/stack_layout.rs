use remsol::assembly::{coefficient_steps, layer_sheet, stack_steps, Sheet, StackStep};
use remsol::enums::BoundaryCondition::{Outgoing, SemiInfinite, PEC};

#[test]
fn two_layer_walk_is_one_interface() {
    assert_eq!(stack_steps(2), vec![StackStep::Interface { left: 0, right: 1 }]);
}

#[test]
fn four_layer_walk() {
    assert_eq!(
        stack_steps(4),
        vec![
            StackStep::Interface { left: 0, right: 1 },
            StackStep::Propagation { layer: 1 },
            StackStep::Interface { left: 1, right: 2 },
            StackStep::Propagation { layer: 2 },
            StackStep::Interface { left: 2, right: 3 },
        ]
    );
}

#[test]
fn coefficient_walk_with_pec_propagates_layer_zero_first() {
    let walk = coefficient_steps(3, true);
    assert_eq!(
        walk,
        vec![
            StackStep::Propagation { layer: 0 },
            StackStep::Interface { left: 0, right: 1 },
            StackStep::Propagation { layer: 1 },
            StackStep::Interface { left: 1, right: 2 },
        ]
    );
    assert_eq!(coefficient_steps(3, false), stack_steps(3));
}

#[test]
fn sheets_follow_boundaries() {
    assert_eq!(layer_sheet(0, 3, Outgoing, SemiInfinite), Sheet::Outgoing);
    assert_eq!(layer_sheet(1, 3, Outgoing, Outgoing), Sheet::Physical);
    assert_eq!(layer_sheet(2, 3, SemiInfinite, Outgoing), Sheet::Outgoing);
    assert_eq!(layer_sheet(2, 3, Outgoing, PEC), Sheet::Physical);
    // Two layers: the second one is the right cladding.
    assert_eq!(layer_sheet(1, 2, SemiInfinite, Outgoing), Sheet::Outgoing);
    assert_eq!(layer_sheet(0, 2, SemiInfinite, Outgoing), Sheet::Physical);
}

#[test]
fn mirrored_stack_has_mirrored_sheets() {
    let n = 5;
    for j in 0..n {
        assert_eq!(
            layer_sheet(j, n, Outgoing, SemiInfinite),
            layer_sheet(n - 1 - j, n, SemiInfinite, Outgoing)
        );
    }
}

#[test]
fn one_coefficient_reading_per_layer() {
    for n in 2..7 {
        for pec in [false, true] {
            let walk = coefficient_steps(n, pec);
            let interfaces = walk
                .iter()
                .filter(|s| matches!(s, StackStep::Interface { .. }))
                .count();
            assert_eq!(interfaces + 1, n);
        }
        assert_eq!(stack_steps(n).len(), 2 * n - 3);
    }
}
