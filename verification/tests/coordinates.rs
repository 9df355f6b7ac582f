use last_layer_algs::corner_orientation;
use last_layer_algs::corner_permutation::CornerPermutation;
use last_layer_algs::edge_orientation;
use last_layer_algs::prunable::{make_pruning_table, make_transition_table, Prunable};

#[test]
fn performs_permutation() {
    let perm = CornerPermutation::new([1, 0, 2, 3, 4, 5, 6, 7]);
    let perm2 = CornerPermutation::new([0, 2, 1, 3, 7, 5, 6, 4]);
    let composed = perm.apply(&perm2);
    assert_eq!([1, 2, 0, 3, 7, 5, 6, 4], composed.state);
}

#[test]
fn indexes_permutations() {
    assert_eq!(0, CornerPermutation::new([0, 1, 2, 3, 4, 5, 6, 7]).index());
    assert_eq!(1, CornerPermutation::new([0, 1, 2, 3, 4, 5, 7, 6]).index());
    assert_eq!(40319, CornerPermutation::new([7, 6, 5, 4, 3, 2, 1, 0]).index());
    assert_eq!(5880, CornerPermutation::new([1, 2, 3, 0, 4, 5, 6, 7]).index());
}

#[test]
fn lookup_table() {
    let transitions = make_transition_table::<CornerPermutation>();
    assert_eq!(5880, transitions[0][0]);
}

#[test]
fn pruning_table() {
    let transitions = make_transition_table::<CornerPermutation>();
    let pruning = make_pruning_table::<CornerPermutation>(&transitions);
    assert_eq!(0, pruning[5880]);
}

#[test]
fn corner_pruning_has_no_unreached_entries() {
    let transitions = make_transition_table::<CornerPermutation>();
    let pruning = make_pruning_table::<CornerPermutation>(&transitions);
    for i in 0..pruning.len() {
        assert!(pruning[i] < 100);
    }
}

#[test]
fn orientation_pruning_has_no_unreached_entries() {
    let co_t = make_transition_table::<corner_orientation::Orientation>();
    let co_p = make_pruning_table::<corner_orientation::Orientation>(&co_t);
    for i in 0..co_p.len() {
        assert!(co_p[i] < 100);
    }
    let eo_t = make_transition_table::<edge_orientation::Orientation>();
    let eo_p = make_pruning_table::<edge_orientation::Orientation>(&eo_t);
    for i in 0..eo_p.len() {
        assert!(eo_p[i] < 100);
    }
}

#[test]
fn corner_pruning_is_admissible_under_every_move() {
    let transitions = make_transition_table::<CornerPermutation>();
    let pruning = make_pruning_table::<CornerPermutation>(&transitions);
    for i in 0..transitions.len() {
        for m in 0..18 {
            assert!(pruning[i] <= pruning[transitions[i][m]] + 1);
        }
    }
}

#[test]
fn corner_moves_transit_as_the_table_says() {
    let transitions = make_transition_table::<CornerPermutation>();
    let mut state = CornerPermutation::initial_pos();
    let mut idx = state.index();
    for m in [12usize, 0, 14, 2, 6, 8, 3, 16] {
        state = state.apply_idx(m);
        idx = transitions[idx][m];
        assert_eq!(idx, state.index());
    }
}
