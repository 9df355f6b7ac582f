//! The placement of the twelve edge pieces, kept as a plain permutation
//! array: the first two layers hold edges 4..12, so they are intact exactly
//! when those positions are fixed.

use vstd::prelude::*;

verus! {

/// A well-formed edge arrangement names an edge piece in each of the twelve
/// positions.
pub open spec fn wf_edges(s: Seq<u8>) -> bool {
    s.len() == 12 && (forall|i: int| 0 <= i < 12 ==> s[i] < 12)
}

/// Every edge in its home position.
pub open spec fn spec_edges_solved() -> Seq<u8> {
    Seq::new(12, |i: int| i as u8)
}

/// Applying the move permutation `b` after reaching `a`.
pub open spec fn spec_edges_compose(a: Seq<u8>, b: Seq<u8>) -> Seq<u8> {
    Seq::new(12, |i: int| a[b[i] as int])
}

/// The eight edges of the bottom two layers are in place.
pub open spec fn spec_edges_ll(s: Seq<u8>) -> bool {
    forall|i: int| 4 <= i < 12 ==> s[i] == i
}

/// All twelve edges are in place.
pub open spec fn spec_edges_all(s: Seq<u8>) -> bool {
    forall|i: int| 0 <= i < 12 ==> s[i] == i
}

/// The permutation an edge move performs, by move index.
pub open spec fn spec_edge_move(m: int) -> Seq<u8> {
    if m == 0 {
        seq![1u8, 2, 3, 0, 4, 5, 6, 7, 8, 9, 10, 11]
    } else if m == 1 {
        seq![2u8, 3, 0, 1, 4, 5, 6, 7, 8, 9, 10, 11]
    } else if m == 2 {
        seq![3u8, 0, 1, 2, 4, 5, 6, 7, 8, 9, 10, 11]
    } else if m == 3 {
        seq![0u8, 1, 2, 3, 7, 4, 5, 6, 8, 9, 10, 11]
    } else if m == 4 {
        seq![0u8, 1, 2, 3, 6, 7, 4, 5, 8, 9, 10, 11]
    } else if m == 5 {
        seq![0u8, 1, 2, 3, 5, 6, 7, 4, 8, 9, 10, 11]
    } else if m == 6 {
        seq![9u8, 1, 2, 3, 8, 5, 6, 7, 0, 4, 10, 11]
    } else if m == 7 {
        seq![4u8, 1, 2, 3, 0, 5, 6, 7, 9, 8, 10, 11]
    } else if m == 8 {
        seq![8u8, 1, 2, 3, 9, 5, 6, 7, 4, 0, 10, 11]
    } else if m == 9 {
        seq![0u8, 1, 10, 3, 4, 5, 11, 7, 8, 9, 6, 2]
    } else if m == 10 {
        seq![0u8, 1, 6, 3, 4, 5, 2, 7, 8, 9, 11, 10]
    } else if m == 11 {
        seq![0u8, 1, 11, 3, 4, 5, 10, 7, 8, 9, 2, 6]
    } else if m == 12 {
        seq![0u8, 8, 2, 3, 4, 10, 6, 7, 5, 9, 1, 11]
    } else if m == 13 {
        seq![0u8, 5, 2, 3, 4, 1, 6, 7, 10, 9, 8, 11]
    } else if m == 14 {
        seq![0u8, 10, 2, 3, 4, 8, 6, 7, 1, 9, 5, 11]
    } else if m == 15 {
        seq![0u8, 1, 2, 11, 4, 5, 6, 9, 8, 3, 10, 7]
    } else if m == 16 {
        seq![0u8, 1, 2, 7, 4, 5, 6, 3, 8, 11, 10, 9]
    } else {
        seq![0u8, 1, 2, 9, 4, 5, 6, 11, 8, 7, 10, 3]
    }
}

/// Where the twelve edge pieces sit.
#[derive(Debug, Copy, Clone)]
pub struct EdgePermutation {
    pub state: [u8; 12],
}

/// The edge permutation of the move with the given index.
fn edge_move(m: usize) -> (r: [u8; 12])
    requires
        m < 18,
    ensures
        r@ == spec_edge_move(m as int),
        wf_edges(r@),
{
    if m == 0 {
        let a: [u8; 12] = [1u8, 2, 3, 0, 4, 5, 6, 7, 8, 9, 10, 11];
        proof {
            assert(a@ =~= spec_edge_move(0));
            assert(wf_edges(a@));
        }
        a
    } else if m == 1 {
        let a: [u8; 12] = [2u8, 3, 0, 1, 4, 5, 6, 7, 8, 9, 10, 11];
        proof {
            assert(a@ =~= spec_edge_move(1));
            assert(wf_edges(a@));
        }
        a
    } else if m == 2 {
        let a: [u8; 12] = [3u8, 0, 1, 2, 4, 5, 6, 7, 8, 9, 10, 11];
        proof {
            assert(a@ =~= spec_edge_move(2));
            assert(wf_edges(a@));
        }
        a
    } else if m == 3 {
        let a: [u8; 12] = [0u8, 1, 2, 3, 7, 4, 5, 6, 8, 9, 10, 11];
        proof {
            assert(a@ =~= spec_edge_move(3));
            assert(wf_edges(a@));
        }
        a
    } else if m == 4 {
        let a: [u8; 12] = [0u8, 1, 2, 3, 6, 7, 4, 5, 8, 9, 10, 11];
        proof {
            assert(a@ =~= spec_edge_move(4));
            assert(wf_edges(a@));
        }
        a
    } else if m == 5 {
        let a: [u8; 12] = [0u8, 1, 2, 3, 5, 6, 7, 4, 8, 9, 10, 11];
        proof {
            assert(a@ =~= spec_edge_move(5));
            assert(wf_edges(a@));
        }
        a
    } else if m == 6 {
        let a: [u8; 12] = [9u8, 1, 2, 3, 8, 5, 6, 7, 0, 4, 10, 11];
        proof {
            assert(a@ =~= spec_edge_move(6));
            assert(wf_edges(a@));
        }
        a
    } else if m == 7 {
        let a: [u8; 12] = [4u8, 1, 2, 3, 0, 5, 6, 7, 9, 8, 10, 11];
        proof {
            assert(a@ =~= spec_edge_move(7));
            assert(wf_edges(a@));
        }
        a
    } else if m == 8 {
        let a: [u8; 12] = [8u8, 1, 2, 3, 9, 5, 6, 7, 4, 0, 10, 11];
        proof {
            assert(a@ =~= spec_edge_move(8));
            assert(wf_edges(a@));
        }
        a
    } else if m == 9 {
        let a: [u8; 12] = [0u8, 1, 10, 3, 4, 5, 11, 7, 8, 9, 6, 2];
        proof {
            assert(a@ =~= spec_edge_move(9));
            assert(wf_edges(a@));
        }
        a
    } else if m == 10 {
        let a: [u8; 12] = [0u8, 1, 6, 3, 4, 5, 2, 7, 8, 9, 11, 10];
        proof {
            assert(a@ =~= spec_edge_move(10));
            assert(wf_edges(a@));
        }
        a
    } else if m == 11 {
        let a: [u8; 12] = [0u8, 1, 11, 3, 4, 5, 10, 7, 8, 9, 2, 6];
        proof {
            assert(a@ =~= spec_edge_move(11));
            assert(wf_edges(a@));
        }
        a
    } else if m == 12 {
        let a: [u8; 12] = [0u8, 8, 2, 3, 4, 10, 6, 7, 5, 9, 1, 11];
        proof {
            assert(a@ =~= spec_edge_move(12));
            assert(wf_edges(a@));
        }
        a
    } else if m == 13 {
        let a: [u8; 12] = [0u8, 5, 2, 3, 4, 1, 6, 7, 10, 9, 8, 11];
        proof {
            assert(a@ =~= spec_edge_move(13));
            assert(wf_edges(a@));
        }
        a
    } else if m == 14 {
        let a: [u8; 12] = [0u8, 10, 2, 3, 4, 8, 6, 7, 1, 9, 5, 11];
        proof {
            assert(a@ =~= spec_edge_move(14));
            assert(wf_edges(a@));
        }
        a
    } else if m == 15 {
        let a: [u8; 12] = [0u8, 1, 2, 11, 4, 5, 6, 9, 8, 3, 10, 7];
        proof {
            assert(a@ =~= spec_edge_move(15));
            assert(wf_edges(a@));
        }
        a
    } else if m == 16 {
        let a: [u8; 12] = [0u8, 1, 2, 7, 4, 5, 6, 3, 8, 11, 10, 9];
        proof {
            assert(a@ =~= spec_edge_move(16));
            assert(wf_edges(a@));
        }
        a
    } else {
        let a: [u8; 12] = [0u8, 1, 2, 9, 4, 5, 6, 11, 8, 7, 10, 3];
        proof {
            assert(a@ =~= spec_edge_move(17));
            assert(wf_edges(a@));
        }
        a
    }
}

impl EdgePermutation {
    pub open spec fn wf(&self) -> bool {
        wf_edges(self.state@)
    }

    /// The solved arrangement.
    pub fn new() -> (r: EdgePermutation)
        ensures
            r.state@ == spec_edges_solved(),
            r.wf(),
    {
        let r = EdgePermutation { state: [0u8, 1, 2, 3, 4, 5, 6, 7, 8, 9, 10, 11] };
        proof {
            assert(r.state@ =~= spec_edges_solved());
        }
        r
    }

    /// Whether the bottom two layers' edges are all in place.
    pub fn is_ll(&self) -> (r: bool)
        ensures
            r == spec_edges_ll(self.state@),
    {
        let mut i: usize = 4;
        while i < 12
            invariant
                4 <= i <= 12,
                forall|j: int| 4 <= j < i ==> self.state@[j] == j,
            decreases 12 - i,
        {
            if self.state[i] != i as u8 {
                return false;
            }
            i = i + 1;
        }
        true
    }

    /// Whether every edge is in place.
    pub fn is_solved(&self) -> (r: bool)
        ensures
            r == spec_edges_all(self.state@),
    {
        let mut i: usize = 0;
        while i < 12
            invariant
                i <= 12,
                forall|j: int| 0 <= j < i ==> self.state@[j] == j,
            decreases 12 - i,
        {
            if self.state[i] != i as u8 {
                return false;
            }
            i = i + 1;
        }
        true
    }

    /// The arrangement after the move with the given index.
    pub fn apply_idx(&self, idx: usize) -> (r: EdgePermutation)
        requires
            self.wf(),
            idx < 18,
        ensures
            r.state@ == spec_edges_compose(self.state@, spec_edge_move(idx as int)),
            r.wf(),
    {
        let mut dest = EdgePermutation::new();
        self.apply_into_idx(idx, &mut dest);
        dest
    }

    /// The same, writing into a caller-supplied buffer to avoid allocation.
    pub fn apply_into_idx(&self, idx: usize, dest: &mut EdgePermutation)
        requires
            self.wf(),
            idx < 18,
        ensures
            final(dest).state@ == spec_edges_compose(self.state@, spec_edge_move(idx as int)),
            final(dest).wf(),
    {
        let other = edge_move(idx);
        let mut i: usize = 0;
        while i < 12
            invariant
                i <= 12,
                self.wf(),
                other@ == spec_edge_move(idx as int),
                wf_edges(other@),
                forall|j: int|
                    0 <= j < i ==> dest.state@[j] == spec_edges_compose(
                        self.state@,
                        spec_edge_move(idx as int),
                    )[j],
            decreases 12 - i,
        {
            dest.state[i] = self.state[other[i] as usize];
            i = i + 1;
        }
        proof {
            assert(dest.state@ =~= spec_edges_compose(self.state@, spec_edge_move(idx as int)));
        }
    }
}

} // verus!
