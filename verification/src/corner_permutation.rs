//! The placement of the eight corner pieces, indexed by the Lehmer code of
//! the permutation: 40320 distinct positions. The first two layers hold
//! corners 4..8.

use crate::prunable::{
    apply_path, follow, index_settled, path_ok, row_witnessed, tables_ok, Prunable,
};
use vstd::arithmetic::mul::lemma_mul_inequality;
use vstd::prelude::*;

verus! {

/// The number of distinct corner arrangements.
pub const CP_TOTAL: usize = 40320;

/// Entries of `s` are distinct values below `b`: the suffixes the Lehmer
/// walk produces stay of this shape with a shrinking bound.
pub open spec fn distinct_below(s: Seq<u8>, b: int) -> bool {
    (forall|i: int| 0 <= i < s.len() ==> s[i] < b) && (forall|i: int, j: int|
        0 <= i < j < s.len() ==> s[i] != s[j])
}

/// A well-formed corner arrangement: a permutation of the eight pieces.
pub open spec fn wf_corners(s: Seq<u8>) -> bool {
    s.len() == 8 && distinct_below(s, 8)
}

pub open spec fn spec_corners_solved() -> Seq<u8> {
    Seq::new(8, |i: int| i as u8)
}

pub open spec fn spec_corners_compose(a: Seq<u8>, b: Seq<u8>) -> Seq<u8> {
    Seq::new(8, |i: int| a[b[i] as int])
}

/// The four bottom-layer corners are in place.
pub open spec fn spec_corners_f2l(s: Seq<u8>) -> bool {
    forall|i: int| 4 <= i < 8 ==> s[i] == i
}

pub open spec fn fact(n: nat) -> nat
    decreases n,
{
    if n == 0 {
        1
    } else {
        n * fact((n - 1) as nat)
    }
}

/// Each later entry that exceeds the head slides down by one: the head is
/// removed from the value range.
pub open spec fn adjust(s: Seq<u8>, p: u8) -> Seq<u8> {
    Seq::new(s.len(), |k: int| if s[k] > p { (s[k] - 1) as u8 } else { s[k] })
}

/// The Lehmer code of a sequence: the head digit weighted by the factorial
/// of the remaining length, then the code of the adjusted tail.
pub open spec fn spec_lehmer(s: Seq<u8>) -> int
    decreases s.len(),
{
    if s.len() == 0 {
        0
    } else {
        s[0] * fact((s.len() - 1) as nat) + spec_lehmer(adjust(s.skip(1), s[0]))
    }
}

/// The Lehmer index of a corner arrangement.
pub open spec fn spec_cp_index(s: Seq<u8>) -> int {
    spec_lehmer(s)
}

/// The Lehmer code of an ascending arrangement is zero: every head digit is
/// zero and the adjusted tail ascends again.
proof fn lemma_lehmer_ascending(s: Seq<u8>)
    requires
        forall|i: int| 0 <= i < s.len() ==> s[i] as int == i,
    ensures
        spec_lehmer(s) == 0,
    decreases s.len(),
{
    if s.len() > 0 {
        let t = adjust(s.skip(1), s[0]);
        assert(s[0] == 0);
        assert forall|i: int| 0 <= i < t.len() implies t[i] as int == i by {
            assert(s.skip(1)[i] == s[i + 1]);
        }
        lemma_lehmer_ascending(t);
    }
}

/// The solved arrangement has index zero.
pub proof fn lemma_cp_index_initial()
    ensures
        spec_cp_index(spec_corners_solved()) == 0,
{
    lemma_lehmer_ascending(spec_corners_solved());
}

/// Removing the head keeps the tail distinct and tightens the bound.
proof fn lemma_adjust_distinct(s: Seq<u8>, b: int)
    requires
        distinct_below(s, b),
        s.len() > 0,
    ensures
        distinct_below(adjust(s.skip(1), s[0]), b - 1),
{
    let t = adjust(s.skip(1), s[0]);
    let p = s[0];
    assert forall|i: int| 0 <= i < t.len() implies t[i] < b - 1 by {
        assert(s.skip(1)[i] == s[i + 1]);
        assert(s[i + 1] != p);
    }
    assert forall|i: int, j: int| 0 <= i < j < t.len() implies t[i] != t[j] by {
        assert(s.skip(1)[i] == s[i + 1]);
        assert(s.skip(1)[j] == s[j + 1]);
        assert(s[i + 1] != p && s[j + 1] != p && s[i + 1] != s[j + 1]);
    }
}

/// The Lehmer code of a permutation of `n` values is below `n` factorial.
pub proof fn lemma_lehmer_bound(s: Seq<u8>)
    requires
        distinct_below(s, s.len() as int),
    ensures
        0 <= spec_lehmer(s) < fact(s.len()),
    decreases s.len(),
{
    if s.len() > 0 {
        let n = s.len() as int;
        let t = adjust(s.skip(1), s[0]);
        lemma_adjust_distinct(s, n);
        lemma_lehmer_bound(t);
        assert(s[0] < n);
        lemma_mul_inequality(s[0] as int + 1, n, fact((n - 1) as nat) as int);
        assert((s[0] + 1) * fact((n - 1) as nat) == s[0] * fact((n - 1) as nat) + fact(
            (n - 1) as nat,
        )) by (nonlinear_arith);
        assert(n * fact((n - 1) as nat) == fact(n as nat));
    }
}

/// The Lehmer code separates permutations: two distinct arrangements of
/// the same values never share a code, so the corner index is a perfect
/// hash of the corner arrangement.
pub proof fn lemma_lehmer_injective(s1: Seq<u8>, s2: Seq<u8>)
    requires
        s1.len() == s2.len(),
        distinct_below(s1, s1.len() as int),
        distinct_below(s2, s2.len() as int),
        spec_lehmer(s1) == spec_lehmer(s2),
    ensures
        s1 == s2,
    decreases s1.len(),
{
    if s1.len() > 0 {
        let n = s1.len() as int;
        let f = fact((n - 1) as nat) as int;
        let t1 = adjust(s1.skip(1), s1[0]);
        let t2 = adjust(s2.skip(1), s2[0]);
        lemma_adjust_distinct(s1, n);
        lemma_adjust_distinct(s2, n);
        lemma_lehmer_bound(t1);
        lemma_lehmer_bound(t2);
        assert(t1.len() == n - 1 && t2.len() == n - 1);
        assert(s1[0] == s2[0]) by {
            if s1[0] < s2[0] {
                lemma_mul_inequality(s1[0] as int + 1, s2[0] as int, f);
                assert((s1[0] + 1) * f == s1[0] * f + f) by (nonlinear_arith);
                assert(false);
            }
            if s2[0] < s1[0] {
                lemma_mul_inequality(s2[0] as int + 1, s1[0] as int, f);
                assert((s2[0] + 1) * f == s2[0] * f + f) by (nonlinear_arith);
                assert(false);
            }
        }
        assert(spec_lehmer(t1) == spec_lehmer(t2));
        lemma_lehmer_injective(t1, t2);
        let p = s1[0];
        assert forall|k: int| 0 <= k < n implies s1[k] == s2[k] by {
            if k > 0 {
                assert(s1.skip(1)[k - 1] == s1[k]);
                assert(s2.skip(1)[k - 1] == s2[k]);
                assert(t1[k - 1] == t2[k - 1]);
                assert(s1[k] != p && s2[k] != p);
                if s1[k] > p && s2[k] > p {
                    assert(t1[k - 1] == s1[k] - 1 && t2[k - 1] == s2[k] - 1);
                } else if s1[k] < p && s2[k] < p {
                    assert(t1[k - 1] == s1[k] && t2[k - 1] == s2[k]);
                } else if s1[k] > p {
                    assert(t1[k - 1] >= p && t2[k - 1] < p);
                } else {
                    assert(t1[k - 1] < p && t2[k - 1] >= p);
                }
            }
        }
        assert(s1 =~= s2);
    } else {
        assert(s1 =~= s2);
    }
}

/// The perfect-hash claim at the index level: corner arrangements with one
/// index are one arrangement.
pub proof fn lemma_cp_index_injective(v1: Seq<u8>, v2: Seq<u8>)
    requires
        wf_corners(v1),
        wf_corners(v2),
        spec_cp_index(v1) == spec_cp_index(v2),
    ensures
        v1 == v2,
{
    lemma_lehmer_injective(v1, v2);
}

/// Because the corner index is a perfect hash, a witnessed transition row
/// commutes with the one arrangement that hashes to its index: for every
/// arrangement `v` whose index the finished table covers,
/// `t[index(v)][m] == index(apply(v, m))` for each of the eighteen moves.
pub proof fn lemma_cp_row_exact(t: Seq<[usize; 18]>, v: Seq<u8>)
    requires
        wf_corners(v),
        row_witnessed::<CornerPermutation>(t, spec_cp_index(v)),
    ensures
        forall|m: int|
            0 <= m < 18 ==> #[trigger] t[spec_cp_index(v)]@[m] == CornerPermutation::spec_index_of(
                CornerPermutation::spec_apply(v, m),
            ),
{
    let i = spec_cp_index(v);
    let w = choose|w: Seq<u8>|
        {
            &&& #[trigger] CornerPermutation::wf_repr(w)
            &&& CornerPermutation::spec_index_of(w) == i
            &&& forall|m: int|
                0 <= m < 18 ==> #[trigger] t[i]@[m] == CornerPermutation::spec_index_of(
                    CornerPermutation::spec_apply(w, m),
                )
        };
    lemma_cp_index_injective(w, v);
}

/// Every concrete move table is itself a permutation of the eight pieces.
proof fn lemma_corner_move_wf(m: int)
    requires
        0 <= m < 18,
    ensures
        wf_corners(spec_corner_move(m)),
{
    assert forall|i: int| 0 <= i < 8 implies spec_corner_move(m)[i] < 8 by {}
    assert forall|i: int, j: int|
        0 <= i < j < 8 implies spec_corner_move(m)[i] != spec_corner_move(m)[j] by {}
}

/// Along any move path the corner transition table tracks the Lehmer index
/// of the arrangement itself: `transitions[index(v)][m] == index(apply(v,
/// m))`, iterated, for every arrangement whose index the table covers.
pub proof fn lemma_cp_table_tracks(t: Seq<[usize; 18]>, v: Seq<u8>, path: Seq<int>)
    requires
        wf_corners(v),
        path_ok(path),
        forall|p2: Seq<int>|
            path_ok(p2) ==> row_witnessed::<CornerPermutation>(
                t,
                #[trigger] follow(t, spec_cp_index(v), p2),
            ),
    ensures
        wf_corners(apply_path::<CornerPermutation>(v, path)),
        follow(t, spec_cp_index(v), path) == spec_cp_index(
            apply_path::<CornerPermutation>(v, path),
        ),
    decreases path.len(),
{
    if path.len() > 0 {
        let m = path[0];
        let v2 = CornerPermutation::spec_apply(v, m);
        lemma_corner_move_wf(m);
        lemma_compose_wf(v, spec_corner_move(m));
        let e = Seq::<int>::empty();
        assert(path_ok(e));
        assert(follow(t, spec_cp_index(v), e) == spec_cp_index(v));
        assert(row_witnessed::<CornerPermutation>(t, spec_cp_index(v)));
        lemma_cp_row_exact(t, v);
        assert(t[spec_cp_index(v)]@[m] as int == spec_cp_index(v2));
        assert forall|p2: Seq<int>| path_ok(p2) implies row_witnessed::<CornerPermutation>(
            t,
            #[trigger] follow(t, spec_cp_index(v2), p2),
        ) by {
            let p3 = seq![m] + p2;
            assert(path_ok(p3)) by {
                assert forall|k: int| 0 <= k < p3.len() implies 0 <= #[trigger] p3[k] < 18 by {
                    if k == 0 {
                        assert(p3[0] == m);
                    } else {
                        assert(p3[k] == p2[k - 1]);
                    }
                }
            }
            assert(p3.skip(1) =~= p2);
            assert(follow(t, spec_cp_index(v), p3) == follow(t, spec_cp_index(v2), p2));
        }
        assert(path_ok(path.skip(1))) by {
            assert(forall|k: int|
                0 <= k < path.skip(1).len() ==> path.skip(1)[k] == path[k + 1]);
        }
        lemma_cp_table_tracks(t, v2, path.skip(1));
        assert(apply_path::<CornerPermutation>(v, path) == apply_path::<CornerPermutation>(
            v2,
            path.skip(1),
        ));
        assert(follow(t, spec_cp_index(v), path) == follow(t, spec_cp_index(v2), path.skip(1)));
    }
}

/// The transition invariant from the solved arrangement: a finished corner
/// table maps index to index exactly as the moves map arrangement to
/// arrangement, along every move path.
pub proof fn lemma_cp_table_tracks_solved(t: Seq<[usize; 18]>, p: Seq<u16>, path: Seq<int>)
    requires
        tables_ok::<CornerPermutation>(t, p),
        path_ok(path),
    ensures
        wf_corners(apply_path::<CornerPermutation>(spec_corners_solved(), path)),
        follow(t, spec_cp_index(spec_corners_solved()), path) == spec_cp_index(
            apply_path::<CornerPermutation>(spec_corners_solved(), path),
        ),
{
    assert(wf_corners(spec_corners_solved()));
    lemma_cp_table_tracks(t, spec_corners_solved(), path);
}

/// The pruning zeros of a finished corner table are exact on every
/// arrangement the table covers: the entry at its index is zero if and
/// only if its four bottom-layer corners are in place.
pub proof fn lemma_cp_prune_zero_exact(t: Seq<[usize; 18]>, p: Seq<u16>, path: Seq<int>)
    requires
        tables_ok::<CornerPermutation>(t, p),
        path_ok(path),
    ensures
        p[spec_cp_index(apply_path::<CornerPermutation>(spec_corners_solved(), path))] == 0
            <==> spec_corners_f2l(apply_path::<CornerPermutation>(spec_corners_solved(), path)),
{
    lemma_cp_table_tracks_solved(t, p, path);
    let v = apply_path::<CornerPermutation>(spec_corners_solved(), path);
    let fi = follow(t, spec_cp_index(spec_corners_solved()), path);
    assert(fi == spec_cp_index(v));
    assert(index_settled::<CornerPermutation>(t, p, fi));
    let w = choose|w: Seq<u8>|
        {
            &&& #[trigger] CornerPermutation::wf_repr(w)
            &&& CornerPermutation::spec_index_of(w) == fi
            &&& forall|m: int|
                0 <= m < 18 ==> #[trigger] t[fi]@[m] == CornerPermutation::spec_index_of(
                    CornerPermutation::spec_apply(w, m),
                )
            &&& (p[fi] == 0 <==> CornerPermutation::spec_solved_at(w))
        };
    lemma_cp_index_injective(w, v);
}

/// The factorials up to eight, as plain numbers.
pub proof fn lemma_fact_values()
    ensures
        fact(0) == 1,
        fact(1) == 1,
        fact(2) == 2,
        fact(3) == 6,
        fact(4) == 24,
        fact(5) == 120,
        fact(6) == 720,
        fact(7) == 5040,
        fact(8) == 40320,
{
    assert(fact(0) == 1);
    assert(fact(1) == 1);
    assert(fact(2) == 2);
    assert(fact(3) == 6);
    assert(fact(4) == 24);
    assert(fact(5) == 120);
    assert(fact(6) == 720);
    assert(fact(7) == 5040);
    assert(fact(8) == 40320);
}

/// The permutation a move performs on the corner positions, by move index.
pub open spec fn spec_corner_move(m: int) -> Seq<u8> {
    if m == 0 {
        seq![1u8, 2, 3, 0, 4, 5, 6, 7]
    } else if m == 1 {
        seq![2u8, 3, 0, 1, 4, 5, 6, 7]
    } else if m == 2 {
        seq![3u8, 0, 1, 2, 4, 5, 6, 7]
    } else if m == 3 {
        seq![0u8, 1, 2, 3, 5, 6, 7, 4]
    } else if m == 4 {
        seq![0u8, 1, 2, 3, 6, 7, 4, 5]
    } else if m == 5 {
        seq![0u8, 1, 2, 3, 7, 4, 5, 6]
    } else if m == 6 {
        seq![3u8, 1, 2, 5, 0, 4, 6, 7]
    } else if m == 7 {
        seq![5u8, 1, 2, 4, 3, 0, 6, 7]
    } else if m == 8 {
        seq![4u8, 1, 2, 0, 5, 3, 6, 7]
    } else if m == 9 {
        seq![0u8, 7, 1, 3, 4, 5, 2, 6]
    } else if m == 10 {
        seq![0u8, 6, 7, 3, 4, 5, 1, 2]
    } else if m == 11 {
        seq![0u8, 2, 6, 3, 4, 5, 7, 1]
    } else if m == 12 {
        seq![4u8, 0, 2, 3, 7, 5, 6, 1]
    } else if m == 13 {
        seq![7u8, 4, 2, 3, 1, 5, 6, 0]
    } else if m == 14 {
        seq![1u8, 7, 2, 3, 0, 5, 6, 4]
    } else if m == 15 {
        seq![0u8, 1, 6, 2, 4, 3, 5, 7]
    } else if m == 16 {
        seq![0u8, 1, 5, 6, 4, 2, 3, 7]
    } else {
        seq![0u8, 1, 3, 5, 4, 6, 2, 7]
    }
}

fn corner_move(m: usize) -> (r: [u8; 8])
    requires
        m < 18,
    ensures
        r@ == spec_corner_move(m as int),
        wf_corners(r@),
{
    if m == 0 {
        let a: [u8; 8] = [1u8, 2, 3, 0, 4, 5, 6, 7];
        proof {
            assert(a@ =~= spec_corner_move(0));
            assert(wf_corners(a@));
        }
        a
    } else if m == 1 {
        let a: [u8; 8] = [2u8, 3, 0, 1, 4, 5, 6, 7];
        proof {
            assert(a@ =~= spec_corner_move(1));
            assert(wf_corners(a@));
        }
        a
    } else if m == 2 {
        let a: [u8; 8] = [3u8, 0, 1, 2, 4, 5, 6, 7];
        proof {
            assert(a@ =~= spec_corner_move(2));
            assert(wf_corners(a@));
        }
        a
    } else if m == 3 {
        let a: [u8; 8] = [0u8, 1, 2, 3, 5, 6, 7, 4];
        proof {
            assert(a@ =~= spec_corner_move(3));
            assert(wf_corners(a@));
        }
        a
    } else if m == 4 {
        let a: [u8; 8] = [0u8, 1, 2, 3, 6, 7, 4, 5];
        proof {
            assert(a@ =~= spec_corner_move(4));
            assert(wf_corners(a@));
        }
        a
    } else if m == 5 {
        let a: [u8; 8] = [0u8, 1, 2, 3, 7, 4, 5, 6];
        proof {
            assert(a@ =~= spec_corner_move(5));
            assert(wf_corners(a@));
        }
        a
    } else if m == 6 {
        let a: [u8; 8] = [3u8, 1, 2, 5, 0, 4, 6, 7];
        proof {
            assert(a@ =~= spec_corner_move(6));
            assert(wf_corners(a@));
        }
        a
    } else if m == 7 {
        let a: [u8; 8] = [5u8, 1, 2, 4, 3, 0, 6, 7];
        proof {
            assert(a@ =~= spec_corner_move(7));
            assert(wf_corners(a@));
        }
        a
    } else if m == 8 {
        let a: [u8; 8] = [4u8, 1, 2, 0, 5, 3, 6, 7];
        proof {
            assert(a@ =~= spec_corner_move(8));
            assert(wf_corners(a@));
        }
        a
    } else if m == 9 {
        let a: [u8; 8] = [0u8, 7, 1, 3, 4, 5, 2, 6];
        proof {
            assert(a@ =~= spec_corner_move(9));
            assert(wf_corners(a@));
        }
        a
    } else if m == 10 {
        let a: [u8; 8] = [0u8, 6, 7, 3, 4, 5, 1, 2];
        proof {
            assert(a@ =~= spec_corner_move(10));
            assert(wf_corners(a@));
        }
        a
    } else if m == 11 {
        let a: [u8; 8] = [0u8, 2, 6, 3, 4, 5, 7, 1];
        proof {
            assert(a@ =~= spec_corner_move(11));
            assert(wf_corners(a@));
        }
        a
    } else if m == 12 {
        let a: [u8; 8] = [4u8, 0, 2, 3, 7, 5, 6, 1];
        proof {
            assert(a@ =~= spec_corner_move(12));
            assert(wf_corners(a@));
        }
        a
    } else if m == 13 {
        let a: [u8; 8] = [7u8, 4, 2, 3, 1, 5, 6, 0];
        proof {
            assert(a@ =~= spec_corner_move(13));
            assert(wf_corners(a@));
        }
        a
    } else if m == 14 {
        let a: [u8; 8] = [1u8, 7, 2, 3, 0, 5, 6, 4];
        proof {
            assert(a@ =~= spec_corner_move(14));
            assert(wf_corners(a@));
        }
        a
    } else if m == 15 {
        let a: [u8; 8] = [0u8, 1, 6, 2, 4, 3, 5, 7];
        proof {
            assert(a@ =~= spec_corner_move(15));
            assert(wf_corners(a@));
        }
        a
    } else if m == 16 {
        let a: [u8; 8] = [0u8, 1, 5, 6, 4, 2, 3, 7];
        proof {
            assert(a@ =~= spec_corner_move(16));
            assert(wf_corners(a@));
        }
        a
    } else {
        let a: [u8; 8] = [0u8, 1, 3, 5, 4, 6, 2, 7];
        proof {
            assert(a@ =~= spec_corner_move(17));
            assert(wf_corners(a@));
        }
        a
    }
}

/// Composing two permutations of the corners gives a permutation.
proof fn lemma_compose_wf(a: Seq<u8>, b: Seq<u8>)
    requires
        wf_corners(a),
        wf_corners(b),
    ensures
        wf_corners(spec_corners_compose(a, b)),
{
    let c = spec_corners_compose(a, b);
    assert forall|i: int, j: int| 0 <= i < j < 8 implies c[i] != c[j] by {
        assert(b[i] != b[j]);
    }
}

/// Where the eight corner pieces sit.
#[derive(Debug, Copy, Clone)]
pub struct CornerPermutation {
    pub state: [u8; 8],
}

impl CornerPermutation {
    pub open spec fn wf_state(&self) -> bool {
        wf_corners(self.state@)
    }

    pub fn new(state: [u8; 8]) -> (r: CornerPermutation)
        ensures
            r.state@ == state@,
    {
        CornerPermutation { state }
    }

    /// Apply the permutation `other` after reaching `self`.
    pub fn apply(&self, other: &CornerPermutation) -> (r: CornerPermutation)
        requires
            self.wf_state(),
            other.wf_state(),
        ensures
            r.state@ == spec_corners_compose(self.state@, other.state@),
            r.wf_state(),
    {
        let mut state: [u8; 8] = [0u8; 8];
        let mut i: usize = 0;
        while i < 8
            invariant
                i <= 8,
                self.wf_state(),
                other.wf_state(),
                forall|j: int|
                    0 <= j < i ==> state@[j] == spec_corners_compose(self.state@, other.state@)[j],
            decreases 8 - i,
        {
            state[i] = self.state[other.state[i] as usize];
            i = i + 1;
        }
        proof {
            assert(state@ =~= spec_corners_compose(self.state@, other.state@));
            lemma_compose_wf(self.state@, other.state@);
        }
        CornerPermutation { state }
    }
}

fn fact_exec(k: usize) -> (r: usize)
    requires
        k < 8,
    ensures
        r as nat == fact(k as nat),
{
    let table: [usize; 8] = [1, 1, 2, 6, 24, 120, 720, 5040];
    proof {
        lemma_fact_values();
    }
    table[k]
}

impl Prunable for CornerPermutation {
    open spec fn repr(&self) -> Seq<u8> {
        self.state@
    }

    open spec fn wf_repr(v: Seq<u8>) -> bool {
        wf_corners(v)
    }

    open spec fn spec_apply(v: Seq<u8>, m: int) -> Seq<u8> {
        spec_corners_compose(v, spec_corner_move(m))
    }

    open spec fn spec_index_of(v: Seq<u8>) -> int {
        spec_cp_index(v)
    }

    open spec fn spec_solved_at(v: Seq<u8>) -> bool {
        spec_corners_f2l(v)
    }

    open spec fn spec_initial() -> Seq<u8> {
        spec_corners_solved()
    }

    open spec fn spec_total() -> int {
        CP_TOTAL as int
    }

    fn total_states() -> (n: usize) {
        CP_TOTAL
    }

    fn initial_pos() -> (r: Self) {
        let r = CornerPermutation { state: [0u8, 1, 2, 3, 4, 5, 6, 7] };
        proof {
            assert(r.state@ =~= spec_corners_solved());
        }
        r
    }

    fn apply_idx(&self, idx: usize) -> (r: Self) {
        let mv = CornerPermutation { state: corner_move(idx) };
        self.apply(&mv)
    }

    fn is_solved(&self) -> (b: bool) {
        let mut i: usize = 4;
        while i < 8
            invariant
                4 <= i <= 8,
                forall|j: int| 4 <= j < i ==> self.state@[j] == j,
            decreases 8 - i,
        {
            if self.state[i] != i as u8 {
                return false;
            }
            i = i + 1;
        }
        true
    }

    /// The Lehmer walk: add the head digit weighted by the factorial of the
    /// remaining length, then slide the larger later entries down by one.
    fn index(&self) -> (r: usize) {
        let mut state: [u8; 8] = self.state;
        let mut result: usize = 0;
        proof {
            lemma_lehmer_bound(self.state@);
            lemma_fact_values();
            assert(state@.skip(0) =~= state@);
        }
        let mut i: usize = 0;
        while i < 8
            invariant
                i <= 8,
                state@.len() == 8,
                distinct_below(state@.skip(i as int), 8 - i),
                result as int + spec_lehmer(state@.skip(i as int)) == spec_cp_index(self.state@),
                0 <= spec_lehmer(state@.skip(i as int)),
                spec_cp_index(self.state@) < 40320,
                result <= 40319,
            decreases 8 - i,
        {
            let ghost pre = state@;
            let pivot = state[i];
            proof {
                assert(pre.skip(i as int)[0] == pre[i as int]);
                assert(pivot < 8 - i);
                lemma_adjust_distinct(pre.skip(i as int), 8 - i);
                lemma_lehmer_bound(adjust(pre.skip(i as int).skip(1), pivot));
                assert forall|k: int| i < k < 8 implies pre[k] < 8 && pre[k] != pivot by {
                    assert(pre.skip(i as int)[k - i] == pre[k]);
                    assert(pre.skip(i as int)[0] == pre[i as int]);
                }
            }
            result = result + (pivot as usize) * fact_exec(7 - i);
            let mut j: usize = i + 1;
            while j < 8
                invariant
                    i < j <= 8,
                    state@.len() == 8,
                    pivot == pre[i as int],
                    forall|k: int| 0 <= k < i + 1 ==> state@[k] == pre[k],
                    forall|k: int|
                        i + 1 <= k < j ==> state@[k] == (if pre[k] > pivot {
                            (pre[k] - 1) as u8
                        } else {
                            pre[k]
                        }),
                    forall|k: int| j <= k < 8 ==> state@[k] == pre[k],
                    forall|k: int| i < k < 8 ==> pre[k] < 8 && pre[k] != pivot,
                decreases 8 - j,
            {
                if state[j] > pivot {
                    state[j] = state[j] - 1;
                }
                j = j + 1;
            }
            proof {
                assert(state@.skip(i + 1) =~= adjust(pre.skip(i as int).skip(1), pivot)) by {
                    assert forall|k: int| 0 <= k < 7 - i implies state@.skip(i + 1)[k] == adjust(
                        pre.skip(i as int).skip(1),
                        pivot,
                    )[k] by {
                        assert(state@.skip(i + 1)[k] == state@[k + i + 1]);
                        assert(pre.skip(i as int).skip(1)[k] == pre[k + i + 1]);
                    }
                }
                assert(spec_lehmer(pre.skip(i as int)) == pre[i as int] * fact((7 - i) as nat)
                    + spec_lehmer(adjust(pre.skip(i as int).skip(1), pivot)));
            }
            i = i + 1;
        }
        proof {
            assert(state@.skip(8) =~= Seq::<u8>::empty());
            assert(spec_lehmer(state@.skip(8)) == 0);
        }
        result
    }
}

} // verus!
