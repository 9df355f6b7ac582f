//! The twist of the eight corner pieces, indexed in base three over the
//! first seven twist counters (the eighth is determined on a real cube):
//! 2187 distinct positions.

use crate::prunable::Prunable;
use vstd::prelude::*;

verus! {

/// The number of distinct corner-twist positions.
pub const CO_TOTAL: usize = 2187;

/// A well-formed twist vector: eight counters, each below three.
pub open spec fn wf_co(s: Seq<u8>) -> bool {
    s.len() == 8 && (forall|i: int| 0 <= i < 8 ==> s[i] < 3)
}

pub open spec fn spec_co_solved() -> Seq<u8> {
    Seq::new(8, |i: int| 0u8)
}

/// The bottom-layer corners are untwisted.
pub open spec fn spec_co_f2l(s: Seq<u8>) -> bool {
    forall|i: int| 4 <= i < 8 ==> s[i] == 0
}

/// Powers of three, for the base-three index bound.
pub open spec fn pow3(n: nat) -> nat
    decreases n,
{
    if n == 0 {
        1
    } else {
        3 * pow3((n - 1) as nat)
    }
}

pub proof fn lemma_pow3_values()
    ensures
        pow3(0) == 1,
        pow3(1) == 3,
        pow3(2) == 9,
        pow3(3) == 27,
        pow3(4) == 81,
        pow3(5) == 243,
        pow3(6) == 729,
        pow3(7) == 2187,
{
    assert(pow3(0) == 1);
    assert(pow3(1) == 3);
    assert(pow3(2) == 9);
    assert(pow3(3) == 27);
    assert(pow3(4) == 81);
    assert(pow3(5) == 243);
    assert(pow3(6) == 729);
    assert(pow3(7) == 2187);
}

/// The base-three number with digits `s[0]`, ..., `s[n-1]`, most significant
/// first.
pub open spec fn base3(s: Seq<u8>, n: int) -> int
    decreases n,
{
    if n <= 0 {
        0
    } else {
        base3(s, n - 1) * 3 + s[n - 1]
    }
}

/// The index of a twist vector: the base-three value of its first seven
/// counters.
pub open spec fn spec_co_index(s: Seq<u8>) -> int {
    base3(s, 7)
}

/// The base-three value of a zero vector is zero.
proof fn lemma_base3_zero(s: Seq<u8>, n: int)
    requires
        forall|i: int| 0 <= i < n ==> s[i] == 0,
    ensures
        base3(s, n) == 0,
    decreases n,
{
    if n > 0 {
        lemma_base3_zero(s, n - 1);
    }
}

/// The untwisted vector has index zero.
pub proof fn lemma_co_index_initial()
    ensures
        spec_co_index(spec_co_solved()) == 0,
{
    lemma_base3_zero(spec_co_solved(), 7);
}

proof fn lemma_pow3_le(a: nat, b: nat)
    requires
        a <= b,
    ensures
        pow3(a) <= pow3(b),
    decreases b,
{
    if a < b {
        lemma_pow3_le(a, (b - 1) as nat);
    }
}

proof fn lemma_base3_bound(s: Seq<u8>, n: int)
    requires
        0 <= n <= s.len(),
        forall|i: int| 0 <= i < s.len() ==> s[i] < 3,
    ensures
        0 <= base3(s, n) < pow3(n as nat),
    decreases n,
{
    if n > 0 {
        lemma_base3_bound(s, n - 1);
    }
}

/// Where a move carries each corner slot from, and the twist it adds there.
#[derive(Debug, Copy, Clone)]
pub struct OrientationMove {
    pub positions: [usize; 8],
    pub orientation_effect: [u8; 8],
}

impl OrientationMove {
    pub open spec fn wf(&self) -> bool {
        (forall|i: int| 0 <= i < 8 ==> self.positions@[i] < 8) && (forall|i: int|
            0 <= i < 8 ==> self.orientation_effect@[i] < 3)
    }
}

/// Where each move reads the previous twist counters from, by move index.
pub open spec fn spec_positions(m: int) -> Seq<usize> {
    if m == 0 {
        seq![1usize, 2, 3, 0, 4, 5, 6, 7]
    } else if m == 1 {
        seq![2usize, 3, 0, 1, 4, 5, 6, 7]
    } else if m == 2 {
        seq![3usize, 0, 1, 2, 4, 5, 6, 7]
    } else if m == 3 {
        seq![0usize, 1, 2, 3, 5, 6, 7, 4]
    } else if m == 4 {
        seq![0usize, 1, 2, 3, 6, 7, 4, 5]
    } else if m == 5 {
        seq![0usize, 1, 2, 3, 7, 4, 5, 6]
    } else if m == 6 {
        seq![3usize, 1, 2, 5, 0, 4, 6, 7]
    } else if m == 7 {
        seq![5usize, 1, 2, 4, 3, 0, 6, 7]
    } else if m == 8 {
        seq![4usize, 1, 2, 0, 5, 3, 6, 7]
    } else if m == 9 {
        seq![0usize, 7, 1, 3, 4, 5, 2, 6]
    } else if m == 10 {
        seq![0usize, 6, 7, 3, 4, 5, 1, 2]
    } else if m == 11 {
        seq![0usize, 2, 6, 3, 4, 5, 7, 1]
    } else if m == 12 {
        seq![4usize, 0, 2, 3, 7, 5, 6, 1]
    } else if m == 13 {
        seq![7usize, 4, 2, 3, 1, 5, 6, 0]
    } else if m == 14 {
        seq![1usize, 7, 2, 3, 0, 5, 6, 4]
    } else if m == 15 {
        seq![0usize, 1, 6, 2, 4, 3, 5, 7]
    } else if m == 16 {
        seq![0usize, 1, 5, 6, 4, 2, 3, 7]
    } else {
        seq![0usize, 1, 3, 5, 4, 6, 2, 7]
    }
}

/// The twist each move adds at each slot, by move index.
pub open spec fn spec_effects(m: int) -> Seq<u8> {
    if m == 0 {
        seq![0u8, 0, 0, 0, 0, 0, 0, 0]
    } else if m == 1 {
        seq![0u8, 0, 0, 0, 0, 0, 0, 0]
    } else if m == 2 {
        seq![0u8, 0, 0, 0, 0, 0, 0, 0]
    } else if m == 3 {
        seq![0u8, 0, 0, 0, 0, 0, 0, 0]
    } else if m == 4 {
        seq![0u8, 0, 0, 0, 0, 0, 0, 0]
    } else if m == 5 {
        seq![0u8, 0, 0, 0, 0, 0, 0, 0]
    } else if m == 6 {
        seq![1u8, 0, 0, 2, 2, 1, 0, 0]
    } else if m == 7 {
        seq![0u8, 0, 0, 0, 0, 0, 0, 0]
    } else if m == 8 {
        seq![1u8, 0, 0, 2, 2, 1, 0, 0]
    } else if m == 9 {
        seq![0u8, 2, 1, 0, 0, 0, 2, 1]
    } else if m == 10 {
        seq![0u8, 0, 0, 0, 0, 0, 0, 0]
    } else if m == 11 {
        seq![0u8, 2, 1, 0, 0, 0, 2, 1]
    } else if m == 12 {
        seq![2u8, 1, 0, 0, 1, 0, 0, 2]
    } else if m == 13 {
        seq![0u8, 0, 0, 0, 0, 0, 0, 0]
    } else if m == 14 {
        seq![2u8, 1, 0, 0, 1, 0, 0, 2]
    } else if m == 15 {
        seq![0u8, 0, 2, 1, 0, 2, 1, 0]
    } else if m == 16 {
        seq![0u8, 0, 0, 0, 0, 0, 0, 0]
    } else {
        seq![0u8, 0, 2, 1, 0, 2, 1, 0]
    }
}

fn co_move(m: usize) -> (r: OrientationMove)
    requires
        m < 18,
    ensures
        r.positions@ == spec_positions(m as int),
        r.orientation_effect@ == spec_effects(m as int),
        r.wf(),
{
    if m == 0 {
        let r = OrientationMove { positions: [1usize, 2, 3, 0, 4, 5, 6, 7], orientation_effect: [0u8, 0, 0, 0, 0, 0, 0, 0] };
        proof {
            assert(r.positions@ =~= spec_positions(0));
            assert(r.orientation_effect@ =~= spec_effects(0));
            assert(r.wf());
        }
        r
    } else if m == 1 {
        let r = OrientationMove { positions: [2usize, 3, 0, 1, 4, 5, 6, 7], orientation_effect: [0u8, 0, 0, 0, 0, 0, 0, 0] };
        proof {
            assert(r.positions@ =~= spec_positions(1));
            assert(r.orientation_effect@ =~= spec_effects(1));
            assert(r.wf());
        }
        r
    } else if m == 2 {
        let r = OrientationMove { positions: [3usize, 0, 1, 2, 4, 5, 6, 7], orientation_effect: [0u8, 0, 0, 0, 0, 0, 0, 0] };
        proof {
            assert(r.positions@ =~= spec_positions(2));
            assert(r.orientation_effect@ =~= spec_effects(2));
            assert(r.wf());
        }
        r
    } else if m == 3 {
        let r = OrientationMove { positions: [0usize, 1, 2, 3, 5, 6, 7, 4], orientation_effect: [0u8, 0, 0, 0, 0, 0, 0, 0] };
        proof {
            assert(r.positions@ =~= spec_positions(3));
            assert(r.orientation_effect@ =~= spec_effects(3));
            assert(r.wf());
        }
        r
    } else if m == 4 {
        let r = OrientationMove { positions: [0usize, 1, 2, 3, 6, 7, 4, 5], orientation_effect: [0u8, 0, 0, 0, 0, 0, 0, 0] };
        proof {
            assert(r.positions@ =~= spec_positions(4));
            assert(r.orientation_effect@ =~= spec_effects(4));
            assert(r.wf());
        }
        r
    } else if m == 5 {
        let r = OrientationMove { positions: [0usize, 1, 2, 3, 7, 4, 5, 6], orientation_effect: [0u8, 0, 0, 0, 0, 0, 0, 0] };
        proof {
            assert(r.positions@ =~= spec_positions(5));
            assert(r.orientation_effect@ =~= spec_effects(5));
            assert(r.wf());
        }
        r
    } else if m == 6 {
        let r = OrientationMove { positions: [3usize, 1, 2, 5, 0, 4, 6, 7], orientation_effect: [1u8, 0, 0, 2, 2, 1, 0, 0] };
        proof {
            assert(r.positions@ =~= spec_positions(6));
            assert(r.orientation_effect@ =~= spec_effects(6));
            assert(r.wf());
        }
        r
    } else if m == 7 {
        let r = OrientationMove { positions: [5usize, 1, 2, 4, 3, 0, 6, 7], orientation_effect: [0u8, 0, 0, 0, 0, 0, 0, 0] };
        proof {
            assert(r.positions@ =~= spec_positions(7));
            assert(r.orientation_effect@ =~= spec_effects(7));
            assert(r.wf());
        }
        r
    } else if m == 8 {
        let r = OrientationMove { positions: [4usize, 1, 2, 0, 5, 3, 6, 7], orientation_effect: [1u8, 0, 0, 2, 2, 1, 0, 0] };
        proof {
            assert(r.positions@ =~= spec_positions(8));
            assert(r.orientation_effect@ =~= spec_effects(8));
            assert(r.wf());
        }
        r
    } else if m == 9 {
        let r = OrientationMove { positions: [0usize, 7, 1, 3, 4, 5, 2, 6], orientation_effect: [0u8, 2, 1, 0, 0, 0, 2, 1] };
        proof {
            assert(r.positions@ =~= spec_positions(9));
            assert(r.orientation_effect@ =~= spec_effects(9));
            assert(r.wf());
        }
        r
    } else if m == 10 {
        let r = OrientationMove { positions: [0usize, 6, 7, 3, 4, 5, 1, 2], orientation_effect: [0u8, 0, 0, 0, 0, 0, 0, 0] };
        proof {
            assert(r.positions@ =~= spec_positions(10));
            assert(r.orientation_effect@ =~= spec_effects(10));
            assert(r.wf());
        }
        r
    } else if m == 11 {
        let r = OrientationMove { positions: [0usize, 2, 6, 3, 4, 5, 7, 1], orientation_effect: [0u8, 2, 1, 0, 0, 0, 2, 1] };
        proof {
            assert(r.positions@ =~= spec_positions(11));
            assert(r.orientation_effect@ =~= spec_effects(11));
            assert(r.wf());
        }
        r
    } else if m == 12 {
        let r = OrientationMove { positions: [4usize, 0, 2, 3, 7, 5, 6, 1], orientation_effect: [2u8, 1, 0, 0, 1, 0, 0, 2] };
        proof {
            assert(r.positions@ =~= spec_positions(12));
            assert(r.orientation_effect@ =~= spec_effects(12));
            assert(r.wf());
        }
        r
    } else if m == 13 {
        let r = OrientationMove { positions: [7usize, 4, 2, 3, 1, 5, 6, 0], orientation_effect: [0u8, 0, 0, 0, 0, 0, 0, 0] };
        proof {
            assert(r.positions@ =~= spec_positions(13));
            assert(r.orientation_effect@ =~= spec_effects(13));
            assert(r.wf());
        }
        r
    } else if m == 14 {
        let r = OrientationMove { positions: [1usize, 7, 2, 3, 0, 5, 6, 4], orientation_effect: [2u8, 1, 0, 0, 1, 0, 0, 2] };
        proof {
            assert(r.positions@ =~= spec_positions(14));
            assert(r.orientation_effect@ =~= spec_effects(14));
            assert(r.wf());
        }
        r
    } else if m == 15 {
        let r = OrientationMove { positions: [0usize, 1, 6, 2, 4, 3, 5, 7], orientation_effect: [0u8, 0, 2, 1, 0, 2, 1, 0] };
        proof {
            assert(r.positions@ =~= spec_positions(15));
            assert(r.orientation_effect@ =~= spec_effects(15));
            assert(r.wf());
        }
        r
    } else if m == 16 {
        let r = OrientationMove { positions: [0usize, 1, 5, 6, 4, 2, 3, 7], orientation_effect: [0u8, 0, 0, 0, 0, 0, 0, 0] };
        proof {
            assert(r.positions@ =~= spec_positions(16));
            assert(r.orientation_effect@ =~= spec_effects(16));
            assert(r.wf());
        }
        r
    } else {
        let r = OrientationMove { positions: [0usize, 1, 3, 5, 4, 6, 2, 7], orientation_effect: [0u8, 0, 2, 1, 0, 2, 1, 0] };
        proof {
            assert(r.positions@ =~= spec_positions(17));
            assert(r.orientation_effect@ =~= spec_effects(17));
            assert(r.wf());
        }
        r
    }
}

/// The twist vector reached from `v` by the move with the given tables.
pub open spec fn spec_co_apply_with(v: Seq<u8>, pos: Seq<usize>, eff: Seq<u8>) -> Seq<u8> {
    Seq::new(8, |i: int| ((v[pos[i] as int] + eff[i]) % 3) as u8)
}

pub open spec fn spec_co_apply(v: Seq<u8>, m: int) -> Seq<u8> {
    spec_co_apply_with(v, spec_positions(m), spec_effects(m))
}

/// The twist of the eight corners.
#[derive(Debug, Copy, Clone)]
pub struct Orientation {
    pub state: [u8; 8],
}

impl Orientation {
    pub open spec fn wf_state(&self) -> bool {
        wf_co(self.state@)
    }

    /// Move each counter to its new slot and add the move's twist there.
    pub fn apply(&self, b: &OrientationMove) -> (r: Orientation)
        requires
            self.wf_state(),
            b.wf(),
        ensures
            r.state@ == spec_co_apply_with(self.state@, b.positions@, b.orientation_effect@),
            r.wf_state(),
    {
        let mut state: [u8; 8] = [0u8; 8];
        let mut i: usize = 0;
        while i < 8
            invariant
                i <= 8,
                self.wf_state(),
                b.wf(),
                forall|j: int|
                    0 <= j < i ==> state@[j] == spec_co_apply_with(
                        self.state@,
                        b.positions@,
                        b.orientation_effect@,
                    )[j],
            decreases 8 - i,
        {
            state[i] = (self.state[b.positions[i]] + b.orientation_effect[i]) % 3;
            i = i + 1;
        }
        proof {
            assert(state@ =~= spec_co_apply_with(
                self.state@,
                b.positions@,
                b.orientation_effect@,
            ));
        }
        Orientation { state }
    }
}

impl Prunable for Orientation {
    open spec fn repr(&self) -> Seq<u8> {
        self.state@
    }

    open spec fn wf_repr(v: Seq<u8>) -> bool {
        wf_co(v)
    }

    open spec fn spec_apply(v: Seq<u8>, m: int) -> Seq<u8> {
        spec_co_apply(v, m)
    }

    open spec fn spec_index_of(v: Seq<u8>) -> int {
        spec_co_index(v)
    }

    open spec fn spec_solved_at(v: Seq<u8>) -> bool {
        spec_co_f2l(v)
    }

    open spec fn spec_initial() -> Seq<u8> {
        spec_co_solved()
    }

    open spec fn spec_total() -> int {
        CO_TOTAL as int
    }

    fn total_states() -> (n: usize) {
        CO_TOTAL
    }

    fn initial_pos() -> (r: Self) {
        let r = Orientation { state: [0u8, 0, 0, 0, 0, 0, 0, 0] };
        proof {
            assert(r.state@ =~= spec_co_solved());
        }
        r
    }

    fn apply_idx(&self, idx: usize) -> (r: Self) {
        let mv = co_move(idx);
        self.apply(&mv)
    }

    fn is_solved(&self) -> (b: bool) {
        let mut i: usize = 4;
        while i < 8
            invariant
                4 <= i <= 8,
                forall|j: int| 4 <= j < i ==> self.state@[j] == 0,
            decreases 8 - i,
        {
            if self.state[i] != 0 {
                return false;
            }
            i = i + 1;
        }
        true
    }

    fn index(&self) -> (r: usize) {
        proof {
            lemma_pow3_values();
            lemma_base3_bound(self.state@, 7);
        }
        let mut result: usize = 0;
        let mut i: usize = 0;
        while i < 7
            invariant
                i <= 7,
                self.wf_state(),
                result as int == base3(self.state@, i as int),
                result <= 2186,
                pow3(7) == 2187,
            decreases 7 - i,
        {
            proof {
                lemma_base3_bound(self.state@, i + 1);
                lemma_pow3_le((i + 1) as nat, 7);
            }
            result = result * 3 + self.state[i] as usize;
            i = i + 1;
        }
        result
    }
}

} // verus!
