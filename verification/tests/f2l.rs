use last_layer_algs::f2l_cubestate::F2LCubeState;
use last_layer_algs::tables::Tables;

#[test]
fn is_ll_tells_if_state_is_ll() {
    let tables = Tables::new();
    let state = F2LCubeState::new();
    let result = state.apply_idx(3, &tables);
    assert!(!result.is_ll());

    let result2 = state
        .apply_idx(6, &tables)
        .apply_idx(12, &tables)
        .apply_idx(0, &tables)
        .apply_idx(14, &tables)
        .apply_idx(2, &tables)
        .apply_idx(8, &tables);
    assert!(result2.is_ll());
}

#[test]
fn is_ll_is_false_if_ll_is_solved() {
    let tables = Tables::new();
    let state = F2LCubeState::new();
    assert!(!state.is_ll());

    let result = state.apply_idx(0, &tables);
    assert!(!result.is_ll());
}

#[test]
fn solved_state_is_not_prunable_at_depth_zero() {
    let tables = Tables::new();
    let state = F2LCubeState::new();
    assert!(!state.prunable(0, &tables));
}

#[test]
fn one_move_needs_one_move_back() {
    let tables = Tables::new();
    let state = F2LCubeState::new().apply_idx(12, &tables);
    assert!(state.prunable(0, &tables));
    assert!(!state.prunable(1, &tables));
}
