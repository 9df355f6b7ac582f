use last_layer_algs::algorithm_iterator::AlgorithmIterator;
use last_layer_algs::lla_error::LLAError;

#[test]
fn test_6_movers() {
    let mut it = AlgorithmIterator::new();
    let mut got: Vec<String> = Vec::new();
    for _ in 0..4 {
        got.push(it.next().unwrap().to_string());
    }
    assert_eq!(
        got,
        vec!["F U R U' R' F'", "F R U R' U' F'", "R' U' F' U F R", "R' F' U' F U R"]
    );
}

#[test]
fn test_skips_identities() {
    let alg = AlgorithmIterator::from_starting_algorithm("L F2 R' F' R F' L'")
        .unwrap()
        .next()
        .unwrap();
    assert_eq!(alg.to_string(), "R' U L U' R U L'");
}

#[test]
fn test_from_algorithm_starts_from_certain_position() {
    let first = AlgorithmIterator::from_starting_algorithm("F R U R' U' F'")
        .unwrap()
        .next()
        .unwrap();
    assert_eq!(first.to_string(), "R' U' F' U F R");
}

#[test]
fn test_increments_length() {
    let first = AlgorithmIterator::from_starting_algorithm("R' F' U' F U R")
        .unwrap()
        .next()
        .unwrap();
    assert_eq!(first.to_string(), "R U R' U R U2 R'");
}

#[test]
fn emitted_lengths_never_shrink() {
    let mut it = AlgorithmIterator::new();
    let mut prev: usize = 0;
    for _ in 0..6 {
        let alg = it.next().unwrap();
        let n = alg.to_string().split(' ').count();
        assert!(n >= prev);
        prev = n;
    }
}

#[test]
fn resuming_from_only_ud_moves_starts_fresh() {
    let mut it = AlgorithmIterator::from_starting_algorithm("U D2").unwrap();
    assert_eq!(it.next().unwrap().to_string(), "F U R U' R' F'");
}

#[test]
fn resuming_forwards_parse_errors() {
    let err = AlgorithmIterator::from_starting_algorithm("R Q").unwrap_err();
    assert_eq!(err.message(), "No move 'Q'");
    let err2 = AlgorithmIterator::from_starting_algorithm("R R2").unwrap_err();
    assert_eq!(err2.message(), "\"R R2\" is an invalid pair");
}

#[test]
fn resuming_rejects_a_pair_the_rotation_breaks() {
    // "L U F B" obeys the grammar, but its canonical rotation "R U B F"
    // holds the pair B F, which only the primary face F may open.
    let err = AlgorithmIterator::from_starting_algorithm("L U F B").unwrap_err();
    match err {
        LLAError::InvalidPair(a, b) => {
            assert_eq!(a.token_str(), "B");
            assert_eq!(b.token_str(), "F");
        }
        _ => panic!("expected an invalid-pair error"),
    }
}
