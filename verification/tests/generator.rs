use last_layer_algs::algorithm::Algorithm;
use last_layer_algs::cubestate::CubeState;
use last_layer_algs::edge_permutation::EdgePermutation;
use last_layer_algs::generator::{Face, Generator, Modifier};

#[test]
fn gives_successors() {
    let alg = Algorithm::parse("F").unwrap();
    let f = alg.moves[0];
    let tokens: Vec<&str> = f.successors().iter().map(|g| g.token_str()).collect();
    assert_eq!(tokens.join(" "), "U U2 U' D D2 D' B B2 B' R R2 R' L L2 L'");
}

#[test]
fn starting_moves_are_the_r_family() {
    let tokens: Vec<&str> = Generator::starting_moves().iter().map(|g| g.token_str()).collect();
    assert_eq!(tokens.join(" "), "R R2 R'");
}

#[test]
fn scores_weigh_r_and_f_highest() {
    assert_eq!(Face::R.score(), 3);
    assert_eq!(Face::F.score(), 2);
    assert_eq!(Face::L.score(), 1);
    assert_eq!(Face::U.score(), 0);
    assert_eq!(Face::D.score(), 0);
    assert_eq!(Face::B.score(), 0);
}

#[test]
fn move_inverse_flips_the_modifier() {
    let r = Generator { face: Face::R, modifier: Modifier::Normal };
    assert_eq!(r.inverse().token_str(), "R'");
    let r2 = Generator { face: Face::R, modifier: Modifier::Twice };
    assert_eq!(r2.inverse().token_str(), "R2");
}

#[test]
fn rotate_y_cycles_the_side_faces() {
    let f = Generator { face: Face::F, modifier: Modifier::Prime };
    assert_eq!(f.rotate_y().token_str(), "L'");
    assert_eq!(f.rotate_y().rotate_y().token_str(), "B'");
    assert_eq!(f.rotate_y().rotate_y().rotate_y().token_str(), "R'");
    assert_eq!(f.rotate_y().rotate_y().rotate_y().rotate_y().token_str(), "F'");
}

#[test]
fn move_indices_follow_face_and_modifier() {
    let u = Generator { face: Face::U, modifier: Modifier::Normal };
    let lp = Generator { face: Face::L, modifier: Modifier::Prime };
    assert_eq!(u.index(), 0);
    assert_eq!(lp.index(), 17);
    assert_eq!(u.components(), (Face::U, Modifier::Normal));
}

#[test]
fn a_face_turn_keeps_the_bottom_layers() {
    let u = Generator { face: Face::U, modifier: Modifier::Normal };
    let turned = CubeState::solved().apply(&u.effect());
    assert!(turned.is_ll());
    assert!(!turned.is_solved());
    let d = Generator { face: Face::D, modifier: Modifier::Normal };
    let turned_d = CubeState::solved().apply(&d.effect());
    assert!(!turned_d.is_ll());
}

#[test]
fn edge_permutation_tracks_the_bottom_edges() {
    let e = EdgePermutation::new();
    assert!(e.is_solved());
    let after_u = e.apply_idx(0);
    assert!(after_u.is_ll());
    assert!(!after_u.is_solved());
    let after_r = e.apply_idx(12);
    assert!(!after_r.is_ll());
}

#[test]
fn invalid_successor_shares_the_face() {
    let r = Generator { face: Face::R, modifier: Modifier::Normal };
    let r2 = Generator { face: Face::R, modifier: Modifier::Twice };
    let u = Generator { face: Face::U, modifier: Modifier::Normal };
    let d = Generator { face: Face::D, modifier: Modifier::Normal };
    assert!(!r.is_valid_successor(&r2));
    assert!(r.is_valid_successor(&u));
    assert!(u.is_valid_successor(&d));
    assert!(!d.is_valid_successor(&u));
}
