use remsol::enums::{BackEnd, BoundaryCondition, Normalization};
use remsol::multilayer::MultiLayer;
use remsol::solver::{
    adaptive_plan, drops_last_backward_wave, effective_normalization, get_threshold,
    grid_starts_at_wall, search_regime, select_mode, start_amplitudes, supplement_with_real_axis,
    CoefficientStart, ModeCondition, ModeNotFound, SearchRegime,
};
use remsol::solver::{rectangle_action, RectangleAction, MAX_SUBDIVISION_DEPTH};

use BoundaryCondition::{Outgoing, SemiInfinite, PEC};

#[test]
fn threshold_by_accuracy() {
    let expected = [
        (0, -2),
        (2, -2),
        (3, 0),
        (5, 0),
        (6, 3),
        (8, 3),
        (9, 6),
        (11, 6),
        (12, 9),
        (-1, 9),
    ];
    for (accuracy, t) in expected {
        assert_eq!(get_threshold(accuracy), t);
        assert_eq!(MultiLayer::<u8>::get_threshold(accuracy), t);
    }
}

#[test]
fn regimes_follow_boundary_table() {
    assert_eq!(search_regime(SemiInfinite, SemiInfinite), SearchRegime::Guided);
    assert_eq!(search_regime(Outgoing, Outgoing), SearchRegime::QuasiNormal);
    assert_eq!(search_regime(SemiInfinite, Outgoing), SearchRegime::Leaky);
    assert_eq!(search_regime(Outgoing, SemiInfinite), SearchRegime::Leaky);
    assert_eq!(search_regime(PEC, SemiInfinite), SearchRegime::Guided);
    assert_eq!(search_regime(PEC, Outgoing), SearchRegime::Leaky);
}

#[test]
fn adaptive_plan_stages() {
    let p = adaptive_plan(SemiInfinite, SemiInfinite, true);
    assert!(p.probe_full && p.probe_is_answer && !p.probe_isolated_core && p.real_fallback);
    let p = adaptive_plan(SemiInfinite, SemiInfinite, false);
    assert!(!p.probe_full && !p.probe_is_answer && !p.probe_isolated_core && p.real_fallback);
    let p = adaptive_plan(Outgoing, Outgoing, true);
    assert!(p.probe_full && !p.probe_is_answer && p.probe_isolated_core && !p.real_fallback);
    let p = adaptive_plan(SemiInfinite, Outgoing, true);
    assert!(p.probe_full && !p.probe_is_answer && p.probe_isolated_core && p.real_fallback);
    assert!(supplement_with_real_axis(SemiInfinite, PEC, true));
    assert!(!supplement_with_real_axis(SemiInfinite, SemiInfinite, false));
    assert!(!supplement_with_real_axis(Outgoing, SemiInfinite, true));
}

#[test]
fn mode_condition_by_boundaries() {
    let mut m = MultiLayer::new(vec![1u8, 2]);
    assert_eq!(m.mode_condition(), Some(ModeCondition::InverseT22));
    m.set_left_boundary(PEC);
    assert_eq!(m.mode_condition(), Some(ModeCondition::PecLeft));
    m.set_right_boundary(Outgoing);
    assert_eq!(m.mode_condition(), Some(ModeCondition::PecLeft));
    m.set_right_boundary(PEC);
    assert_eq!(m.mode_condition(), None);
    m.set_left_boundary(Outgoing);
    assert_eq!(m.mode_condition(), Some(ModeCondition::PecRight));
    m.set_backend(BackEnd::Scattering);
    assert_eq!(m.mode_condition(), Some(ModeCondition::ScatteringDeterminant));
}

#[test]
fn coefficient_walk_start() {
    let mut m = MultiLayer::new(vec![1u8, 2]);
    assert_eq!(m.coefficient_start(), Some(CoefficientStart::Cladding));
    m.set_left_boundary(PEC);
    assert_eq!(m.coefficient_start(), Some(CoefficientStart::PecWall));
    m.set_left_boundary(Outgoing);
    assert_eq!(m.coefficient_start(), Some(CoefficientStart::Cladding));
    m.set_backend(BackEnd::Scattering);
    assert_eq!(m.coefficient_start(), None);
}

#[test]
fn field_boundary_choices() {
    assert_eq!(start_amplitudes(SemiInfinite), (0, 1));
    assert_eq!(start_amplitudes(Outgoing), (0, 1));
    assert_eq!(start_amplitudes(PEC), (1, -1));
    assert!(drops_last_backward_wave(SemiInfinite));
    assert!(drops_last_backward_wave(Outgoing));
    assert!(!drops_last_backward_wave(PEC));
    assert!(grid_starts_at_wall(PEC));
    assert!(!grid_starts_at_wall(SemiInfinite));
    assert!(!grid_starts_at_wall(Outgoing));
}

#[test]
fn power_normalization_falls_back_for_complex_neff() {
    assert_eq!(effective_normalization(Normalization::Power, true), Normalization::MaxField);
    assert_eq!(effective_normalization(Normalization::Power, false), Normalization::Power);
    assert_eq!(effective_normalization(Normalization::MaxField, true), Normalization::MaxField);
    assert_eq!(effective_normalization(Normalization::MaxField, false), Normalization::MaxField);
}

#[test]
fn mode_selection() {
    let modes = vec![1.8f64, 1.5, 1.2];
    assert_eq!(select_mode(&modes, 0), Ok(1.8));
    assert_eq!(select_mode(&modes, 2), Ok(1.2));
    let err = select_mode(&modes, 3).unwrap_err();
    assert_eq!(err, ModeNotFound { mode: 3, available: 3 });
    assert_eq!(err.last_available(), 2);
    let none: Vec<f64> = vec![];
    let err = select_mode(&none, 0).unwrap_err();
    assert_eq!(err.available, 0);
    assert_eq!(err.last_available(), 0);
}

#[test]
fn rectangle_subdivision_actions() {
    assert_eq!(rectangle_action(0, 0), RectangleAction::Skip);
    assert_eq!(rectangle_action(0, MAX_SUBDIVISION_DEPTH), RectangleAction::Skip);
    assert_eq!(rectangle_action(1, 3), RectangleAction::Polish);
    assert_eq!(rectangle_action(3, 3), RectangleAction::Bisect);
    assert_eq!(rectangle_action(2, MAX_SUBDIVISION_DEPTH - 1), RectangleAction::Bisect);
    assert_eq!(rectangle_action(2, MAX_SUBDIVISION_DEPTH), RectangleAction::Polish);
    assert_eq!(MAX_SUBDIVISION_DEPTH, 20);
}
