use remsol::enums::{BackEnd, BoundaryCondition, Normalization};
use remsol::layer::PEC;
use remsol::multilayer::{MultiLayer, StackError, StackItem};

fn layer(v: u32) -> StackItem<u32> {
    StackItem::Layer(v)
}

#[test]
fn plain_layers_give_semi_infinite_claddings() {
    let m = MultiLayer::from_python_layers(vec![layer(1), layer(2), layer(3)]).unwrap();
    assert_eq!(m.layers, vec![1, 2, 3]);
    assert_eq!(m.left_bc, BoundaryCondition::SemiInfinite);
    assert_eq!(m.right_bc, BoundaryCondition::SemiInfinite);
    assert_eq!(m.backend, BackEnd::Transfer);
    assert_eq!(m.required_accuracy, 10);
    assert_eq!(m.normalization, Normalization::MaxField);
}

#[test]
fn pec_first_sets_left_wall() {
    let m = MultiLayer::from_python_layers(vec![StackItem::Pec, layer(2), layer(1)]).unwrap();
    assert_eq!(m.layers, vec![2, 1]);
    assert_eq!(m.left_bc, BoundaryCondition::PEC);
    assert_eq!(m.right_bc, BoundaryCondition::SemiInfinite);
}

#[test]
fn pec_last_sets_right_wall() {
    let m = MultiLayer::from_python_layers(vec![layer(1), layer(2), StackItem::Pec]).unwrap();
    assert_eq!(m.layers, vec![1, 2]);
    assert_eq!(m.left_bc, BoundaryCondition::SemiInfinite);
    assert_eq!(m.right_bc, BoundaryCondition::PEC);
}

#[test]
fn too_few_elements_refused() {
    assert_eq!(
        MultiLayer::from_python_layers(vec![layer(1)]).err(),
        Some(StackError::TooFewElements)
    );
    assert_eq!(
        MultiLayer::<u32>::from_python_layers(vec![]).err(),
        Some(StackError::TooFewElements)
    );
}

#[test]
fn pec_in_middle_refused() {
    assert_eq!(
        MultiLayer::from_python_layers(vec![layer(1), StackItem::Pec, layer(2)]).err(),
        Some(StackError::PecNotAtEnd)
    );
}

#[test]
fn non_layer_refused() {
    assert_eq!(
        MultiLayer::from_python_layers(vec![layer(1), StackItem::Other, layer(2)]).err(),
        Some(StackError::NotALayer)
    );
}

#[test]
fn first_offending_element_decides_error() {
    // The element that is not a layer comes before the misplaced PEC.
    assert_eq!(
        MultiLayer::from_python_layers(vec![
            layer(1),
            StackItem::Other,
            StackItem::Pec,
            layer(2)
        ])
        .err(),
        Some(StackError::NotALayer)
    );
    assert_eq!(
        MultiLayer::from_python_layers(vec![
            layer(1),
            StackItem::Pec,
            StackItem::Other,
            layer(2)
        ])
        .err(),
        Some(StackError::PecNotAtEnd)
    );
}

#[test]
fn pec_on_both_sides_refused() {
    assert_eq!(
        MultiLayer::from_python_layers(vec![StackItem::Pec, layer(1), layer(2), StackItem::Pec])
            .err(),
        Some(StackError::PecOnBothSides)
    );
}

#[test]
fn too_few_dielectric_layers_refused() {
    assert_eq!(
        MultiLayer::from_python_layers(vec![StackItem::Pec, layer(1)]).err(),
        Some(StackError::TooFewDielectricLayers)
    );
    assert_eq!(
        MultiLayer::<u32>::from_python_layers(vec![StackItem::Pec, StackItem::Pec]).err(),
        Some(StackError::PecOnBothSides)
    );
}

#[test]
fn new_uses_defaults() {
    let m = MultiLayer::new(vec![7u8, 8u8]);
    assert_eq!(m.layers, vec![7, 8]);
    assert_eq!(m.backend, BackEnd::Transfer);
    assert_eq!(m.required_accuracy, 10);
    assert_eq!(m.left_bc, BoundaryCondition::SemiInfinite);
    assert_eq!(m.right_bc, BoundaryCondition::SemiInfinite);
    assert_eq!(m.normalization, Normalization::MaxField);
}

#[test]
fn setters_change_one_setting() {
    let mut m = MultiLayer::new(vec![1u8, 2u8, 3u8]);
    m.set_left_boundary(BoundaryCondition::PEC);
    assert_eq!(m.left_bc, BoundaryCondition::PEC);
    assert_eq!(m.right_bc, BoundaryCondition::SemiInfinite);
    m.set_right_boundary(BoundaryCondition::Outgoing);
    assert_eq!(m.right_bc, BoundaryCondition::Outgoing);
    assert_eq!(m.left_bc, BoundaryCondition::PEC);
    m.set_backend(BackEnd::Scattering);
    assert_eq!(m.backend, BackEnd::Scattering);
    m.python_set_normalization(Normalization::Power);
    assert_eq!(m.normalization, Normalization::Power);
    assert_eq!(m.layers, vec![1, 2, 3]);
    assert_eq!(m.required_accuracy, 10);
}

#[test]
fn isolated_core_keeps_interior_layers() {
    let m = MultiLayer::new(vec![5u32, 6, 7, 8]);
    assert_eq!(m.isolated_core_layers(1), Some(vec![1, 6, 7, 1]));
    let short = MultiLayer::new(vec![5u32, 6]);
    assert_eq!(short.isolated_core_layers(1), None);
}

#[test]
fn pec_marker_and_default_normalization() {
    assert_eq!(PEC::new(), PEC);
    assert_eq!(Normalization::default(), Normalization::MaxField);
}

#[test]
fn walls_and_layers_round_trip() {
    let walls = [BoundaryCondition::SemiInfinite, BoundaryCondition::PEC];
    for left in walls {
        for right in walls {
            if left == BoundaryCondition::PEC && right == BoundaryCondition::PEC {
                continue;
            }
            let mut items = Vec::new();
            if left == BoundaryCondition::PEC {
                items.push(StackItem::Pec);
            }
            items.extend([1u32, 2, 3].into_iter().map(StackItem::Layer));
            if right == BoundaryCondition::PEC {
                items.push(StackItem::Pec);
            }
            let m = MultiLayer::from_python_layers(items).unwrap();
            assert_eq!(m.layers, vec![1, 2, 3]);
            assert_eq!(m.left_bc, left);
            assert_eq!(m.right_bc, right);
        }
    }
}
