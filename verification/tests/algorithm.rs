use last_layer_algs::algorithm::Algorithm;
use last_layer_algs::lla_error::LLAError;
use last_layer_algs::tables::Tables;

#[test]
fn gives_alg_length() {
    let alg = Algorithm::parse("R U R' U'").unwrap();
    assert_eq!(alg.length(), 4);
}

#[test]
fn gives_cubestates() {
    let tables = Tables::new();
    let alg = Algorithm::parse("R U R' U'").unwrap();
    let cubestates = alg.cubestates_stack(&tables);
    assert_eq!(cubestates.len(), 4);
}

#[test]
fn can_restringify() {
    let alg = Algorithm::parse("R U R' U'").unwrap();
    assert_eq!(alg.to_string(), "R U R' U'");
}

#[test]
fn gives_best_rotation() {
    let alg = Algorithm::parse("R U R' U'").unwrap();
    let best = alg.best_rotation();
    assert_eq!(best.to_string(), "R U R' U'");

    let alg2 = Algorithm::parse("F U F' U'").unwrap();
    let best2 = alg2.best_rotation();
    assert_eq!(best2.to_string(), "R U R' U'");
}

#[test]
fn gives_canonical_if_starts_with_u_or_d() {
    let alg = Algorithm::parse("U F").unwrap();
    assert_eq!(alg.canonical_rotation().to_string(), "U R");
}

#[test]
fn can_take_inverses() {
    let alg = Algorithm::parse("R U R' U'").unwrap();
    assert_eq!(alg.inverse().to_string(), "U R U' R'");
}

#[test]
fn handles_empty_alg() {
    let alg = Algorithm::parse("").unwrap();
    assert_eq!(alg.length(), 0);
    assert_eq!(alg.best_rotation().to_string(), "");
    assert_eq!(alg.canonical_rotation().to_string(), "");
}

#[test]
fn rejects_unknown_move() {
    let err = Algorithm::parse("R U X").unwrap_err();
    assert_eq!(err.message(), "No move 'X'");
    match err {
        LLAError::InvalidMove(tok) => assert_eq!(tok, "X"),
        _ => panic!("expected an unknown-move error"),
    }
}

#[test]
fn rejects_invalid_pair() {
    let err = Algorithm::parse("R R").unwrap_err();
    assert_eq!(err.message(), "\"R R\" is an invalid pair");
    match err {
        LLAError::InvalidPair(_, _) => {}
        _ => panic!("expected an invalid-pair error"),
    }
}

#[test]
fn rejects_non_primary_opposite_pair() {
    let err = Algorithm::parse("D U").unwrap_err();
    assert_eq!(err.message(), "\"D U\" is an invalid pair");
}

#[test]
fn accepts_any_whitespace_run() {
    let alg = Algorithm::parse("  R \t U2\n L'  ").unwrap();
    assert_eq!(alg.to_string(), "R U2 L'");
}

#[test]
fn inverse_twice_gives_the_algorithm_back() {
    let alg = Algorithm::parse("F R U R' U' F'").unwrap();
    assert_eq!(alg.inverse().inverse().to_string(), alg.to_string());
}

#[test]
fn algorithm_then_inverse_solves() {
    let tables = Tables::new();
    let alg = Algorithm::parse("F R U R' U' F'").unwrap();
    let inverse = alg.inverse();
    let mut moves = alg.moves.clone();
    moves.extend(inverse.moves.iter().cloned());
    let round_trip = Algorithm { moves };
    assert!(round_trip.cube(&tables).cubestate.is_solved());
}

#[test]
fn best_rotation_is_a_fixpoint() {
    for s in ["F U R U' R' F'", "L' U' L U L' U' L", "B2 D B2 D'"] {
        let best = Algorithm::parse(s).unwrap().best_rotation();
        assert_eq!(best.best_rotation().to_string(), best.to_string());
    }
}

#[test]
fn finds_first_side_move() {
    let alg = Algorithm::parse("U2 D' F R").unwrap();
    let first = alg.first_non_ud_move().unwrap();
    assert_eq!(first.token_str(), "F");
    let only_ud = Algorithm::parse("U D2").unwrap();
    assert!(only_ud.first_non_ud_move().is_none());
}
