//! The flip of the twelve edge pieces, indexed in base two over the first
//! eleven flip bits (the twelfth is determined on a real cube): 2048
//! distinct positions.

use crate::prunable::Prunable;
use vstd::prelude::*;

verus! {

/// The number of distinct edge-flip positions.
pub const EO_TOTAL: usize = 2048;

/// A well-formed flip vector: twelve bits.
pub open spec fn wf_eo(s: Seq<u8>) -> bool {
    s.len() == 12 && (forall|i: int| 0 <= i < 12 ==> s[i] < 2)
}

pub open spec fn spec_eo_solved() -> Seq<u8> {
    Seq::new(12, |i: int| 0u8)
}

/// The eight edges of the bottom two layers are unflipped.
pub open spec fn spec_eo_f2l(s: Seq<u8>) -> bool {
    forall|i: int| 4 <= i < 12 ==> s[i] == 0
}

/// Powers of two, for the base-two index bound.
pub open spec fn pow2(n: nat) -> nat
    decreases n,
{
    if n == 0 {
        1
    } else {
        2 * pow2((n - 1) as nat)
    }
}

pub proof fn lemma_pow2_values()
    ensures
        pow2(11) == 2048,
{
    assert(pow2(0) == 1);
    assert(pow2(1) == 2);
    assert(pow2(2) == 4);
    assert(pow2(3) == 8);
    assert(pow2(4) == 16);
    assert(pow2(5) == 32);
    assert(pow2(6) == 64);
    assert(pow2(7) == 128);
    assert(pow2(8) == 256);
    assert(pow2(9) == 512);
    assert(pow2(10) == 1024);
    assert(pow2(11) == 2048);
}

/// The base-two number with digits `s[0]`, ..., `s[n-1]`, most significant
/// first.
pub open spec fn base2(s: Seq<u8>, n: int) -> int
    decreases n,
{
    if n <= 0 {
        0
    } else {
        base2(s, n - 1) * 2 + s[n - 1]
    }
}

/// The index of a flip vector: the base-two value of its first eleven bits.
pub open spec fn spec_eo_index(s: Seq<u8>) -> int {
    base2(s, 11)
}

/// The base-two value of a zero vector is zero.
proof fn lemma_base2_zero(s: Seq<u8>, n: int)
    requires
        forall|i: int| 0 <= i < n ==> s[i] == 0,
    ensures
        base2(s, n) == 0,
    decreases n,
{
    if n > 0 {
        lemma_base2_zero(s, n - 1);
    }
}

/// The unflipped vector has index zero.
pub proof fn lemma_eo_index_initial()
    ensures
        spec_eo_index(spec_eo_solved()) == 0,
{
    lemma_base2_zero(spec_eo_solved(), 11);
}

proof fn lemma_pow2_le(a: nat, b: nat)
    requires
        a <= b,
    ensures
        pow2(a) <= pow2(b),
    decreases b,
{
    if a < b {
        lemma_pow2_le(a, (b - 1) as nat);
    }
}

proof fn lemma_base2_bound(s: Seq<u8>, n: int)
    requires
        0 <= n <= s.len(),
        forall|i: int| 0 <= i < s.len() ==> s[i] < 2,
    ensures
        0 <= base2(s, n) < pow2(n as nat),
    decreases n,
{
    if n > 0 {
        lemma_base2_bound(s, n - 1);
    }
}

/// Where a move carries each edge slot from, and the flip it adds.
#[derive(Debug, Copy, Clone)]
pub struct OrientationMove {
    pub positions: [usize; 12],
    pub orientation_effect: [u8; 12],
}

impl OrientationMove {
    pub open spec fn wf(&self) -> bool {
        (forall|i: int| 0 <= i < 12 ==> self.positions@[i] < 12) && (forall|i: int|
            0 <= i < 12 ==> self.orientation_effect@[i] < 2)
    }
}

/// Where each move reads the previous flip bits from, by move index.
pub open spec fn spec_positions(m: int) -> Seq<usize> {
    if m == 0 {
        seq![1usize, 2, 3, 0, 4, 5, 6, 7, 8, 9, 10, 11]
    } else if m == 1 {
        seq![2usize, 3, 0, 1, 4, 5, 6, 7, 8, 9, 10, 11]
    } else if m == 2 {
        seq![3usize, 0, 1, 2, 4, 5, 6, 7, 8, 9, 10, 11]
    } else if m == 3 {
        seq![0usize, 1, 2, 3, 7, 4, 5, 6, 8, 9, 10, 11]
    } else if m == 4 {
        seq![0usize, 1, 2, 3, 6, 7, 4, 5, 8, 9, 10, 11]
    } else if m == 5 {
        seq![0usize, 1, 2, 3, 5, 6, 7, 4, 8, 9, 10, 11]
    } else if m == 6 {
        seq![9usize, 1, 2, 3, 8, 5, 6, 7, 0, 4, 10, 11]
    } else if m == 7 {
        seq![4usize, 1, 2, 3, 0, 5, 6, 7, 9, 8, 10, 11]
    } else if m == 8 {
        seq![8usize, 1, 2, 3, 9, 5, 6, 7, 4, 0, 10, 11]
    } else if m == 9 {
        seq![0usize, 1, 10, 3, 4, 5, 11, 7, 8, 9, 6, 2]
    } else if m == 10 {
        seq![0usize, 1, 6, 3, 4, 5, 2, 7, 8, 9, 11, 10]
    } else if m == 11 {
        seq![0usize, 1, 11, 3, 4, 5, 10, 7, 8, 9, 2, 6]
    } else if m == 12 {
        seq![0usize, 8, 2, 3, 4, 10, 6, 7, 5, 9, 1, 11]
    } else if m == 13 {
        seq![0usize, 5, 2, 3, 4, 1, 6, 7, 10, 9, 8, 11]
    } else if m == 14 {
        seq![0usize, 10, 2, 3, 4, 8, 6, 7, 1, 9, 5, 11]
    } else if m == 15 {
        seq![0usize, 1, 2, 11, 4, 5, 6, 9, 8, 3, 10, 7]
    } else if m == 16 {
        seq![0usize, 1, 2, 7, 4, 5, 6, 3, 8, 11, 10, 9]
    } else {
        seq![0usize, 1, 2, 9, 4, 5, 6, 11, 8, 7, 10, 3]
    }
}

/// The flip each move adds, read at the source slot, by move index.
pub open spec fn spec_effects(m: int) -> Seq<u8> {
    if m == 0 {
        seq![0u8, 0, 0, 0, 0, 0, 0, 0, 0, 0, 0, 0]
    } else if m == 1 {
        seq![0u8, 0, 0, 0, 0, 0, 0, 0, 0, 0, 0, 0]
    } else if m == 2 {
        seq![0u8, 0, 0, 0, 0, 0, 0, 0, 0, 0, 0, 0]
    } else if m == 3 {
        seq![0u8, 0, 0, 0, 0, 0, 0, 0, 0, 0, 0, 0]
    } else if m == 4 {
        seq![0u8, 0, 0, 0, 0, 0, 0, 0, 0, 0, 0, 0]
    } else if m == 5 {
        seq![0u8, 0, 0, 0, 0, 0, 0, 0, 0, 0, 0, 0]
    } else if m == 6 {
        seq![1u8, 0, 0, 0, 1, 0, 0, 0, 1, 1, 0, 0]
    } else if m == 7 {
        seq![0u8, 0, 0, 0, 0, 0, 0, 0, 0, 0, 0, 0]
    } else if m == 8 {
        seq![1u8, 0, 0, 0, 1, 0, 0, 0, 1, 1, 0, 0]
    } else if m == 9 {
        seq![0u8, 0, 1, 0, 0, 0, 1, 0, 0, 0, 1, 1]
    } else if m == 10 {
        seq![0u8, 0, 0, 0, 0, 0, 0, 0, 0, 0, 0, 0]
    } else if m == 11 {
        seq![0u8, 0, 1, 0, 0, 0, 1, 0, 0, 0, 1, 1]
    } else if m == 12 {
        seq![0u8, 0, 0, 0, 0, 0, 0, 0, 0, 0, 0, 0]
    } else if m == 13 {
        seq![0u8, 0, 0, 0, 0, 0, 0, 0, 0, 0, 0, 0]
    } else if m == 14 {
        seq![0u8, 0, 0, 0, 0, 0, 0, 0, 0, 0, 0, 0]
    } else if m == 15 {
        seq![0u8, 0, 0, 0, 0, 0, 0, 0, 0, 0, 0, 0]
    } else if m == 16 {
        seq![0u8, 0, 0, 0, 0, 0, 0, 0, 0, 0, 0, 0]
    } else {
        seq![0u8, 0, 0, 0, 0, 0, 0, 0, 0, 0, 0, 0]
    }
}

fn eo_move(m: usize) -> (r: OrientationMove)
    requires
        m < 18,
    ensures
        r.positions@ == spec_positions(m as int),
        r.orientation_effect@ == spec_effects(m as int),
        r.wf(),
{
    if m == 0 {
        let r = OrientationMove { positions: [1usize, 2, 3, 0, 4, 5, 6, 7, 8, 9, 10, 11], orientation_effect: [0u8, 0, 0, 0, 0, 0, 0, 0, 0, 0, 0, 0] };
        proof {
            assert(r.positions@ =~= spec_positions(0));
            assert(r.orientation_effect@ =~= spec_effects(0));
            assert(r.wf());
        }
        r
    } else if m == 1 {
        let r = OrientationMove { positions: [2usize, 3, 0, 1, 4, 5, 6, 7, 8, 9, 10, 11], orientation_effect: [0u8, 0, 0, 0, 0, 0, 0, 0, 0, 0, 0, 0] };
        proof {
            assert(r.positions@ =~= spec_positions(1));
            assert(r.orientation_effect@ =~= spec_effects(1));
            assert(r.wf());
        }
        r
    } else if m == 2 {
        let r = OrientationMove { positions: [3usize, 0, 1, 2, 4, 5, 6, 7, 8, 9, 10, 11], orientation_effect: [0u8, 0, 0, 0, 0, 0, 0, 0, 0, 0, 0, 0] };
        proof {
            assert(r.positions@ =~= spec_positions(2));
            assert(r.orientation_effect@ =~= spec_effects(2));
            assert(r.wf());
        }
        r
    } else if m == 3 {
        let r = OrientationMove { positions: [0usize, 1, 2, 3, 7, 4, 5, 6, 8, 9, 10, 11], orientation_effect: [0u8, 0, 0, 0, 0, 0, 0, 0, 0, 0, 0, 0] };
        proof {
            assert(r.positions@ =~= spec_positions(3));
            assert(r.orientation_effect@ =~= spec_effects(3));
            assert(r.wf());
        }
        r
    } else if m == 4 {
        let r = OrientationMove { positions: [0usize, 1, 2, 3, 6, 7, 4, 5, 8, 9, 10, 11], orientation_effect: [0u8, 0, 0, 0, 0, 0, 0, 0, 0, 0, 0, 0] };
        proof {
            assert(r.positions@ =~= spec_positions(4));
            assert(r.orientation_effect@ =~= spec_effects(4));
            assert(r.wf());
        }
        r
    } else if m == 5 {
        let r = OrientationMove { positions: [0usize, 1, 2, 3, 5, 6, 7, 4, 8, 9, 10, 11], orientation_effect: [0u8, 0, 0, 0, 0, 0, 0, 0, 0, 0, 0, 0] };
        proof {
            assert(r.positions@ =~= spec_positions(5));
            assert(r.orientation_effect@ =~= spec_effects(5));
            assert(r.wf());
        }
        r
    } else if m == 6 {
        let r = OrientationMove { positions: [9usize, 1, 2, 3, 8, 5, 6, 7, 0, 4, 10, 11], orientation_effect: [1u8, 0, 0, 0, 1, 0, 0, 0, 1, 1, 0, 0] };
        proof {
            assert(r.positions@ =~= spec_positions(6));
            assert(r.orientation_effect@ =~= spec_effects(6));
            assert(r.wf());
        }
        r
    } else if m == 7 {
        let r = OrientationMove { positions: [4usize, 1, 2, 3, 0, 5, 6, 7, 9, 8, 10, 11], orientation_effect: [0u8, 0, 0, 0, 0, 0, 0, 0, 0, 0, 0, 0] };
        proof {
            assert(r.positions@ =~= spec_positions(7));
            assert(r.orientation_effect@ =~= spec_effects(7));
            assert(r.wf());
        }
        r
    } else if m == 8 {
        let r = OrientationMove { positions: [8usize, 1, 2, 3, 9, 5, 6, 7, 4, 0, 10, 11], orientation_effect: [1u8, 0, 0, 0, 1, 0, 0, 0, 1, 1, 0, 0] };
        proof {
            assert(r.positions@ =~= spec_positions(8));
            assert(r.orientation_effect@ =~= spec_effects(8));
            assert(r.wf());
        }
        r
    } else if m == 9 {
        let r = OrientationMove { positions: [0usize, 1, 10, 3, 4, 5, 11, 7, 8, 9, 6, 2], orientation_effect: [0u8, 0, 1, 0, 0, 0, 1, 0, 0, 0, 1, 1] };
        proof {
            assert(r.positions@ =~= spec_positions(9));
            assert(r.orientation_effect@ =~= spec_effects(9));
            assert(r.wf());
        }
        r
    } else if m == 10 {
        let r = OrientationMove { positions: [0usize, 1, 6, 3, 4, 5, 2, 7, 8, 9, 11, 10], orientation_effect: [0u8, 0, 0, 0, 0, 0, 0, 0, 0, 0, 0, 0] };
        proof {
            assert(r.positions@ =~= spec_positions(10));
            assert(r.orientation_effect@ =~= spec_effects(10));
            assert(r.wf());
        }
        r
    } else if m == 11 {
        let r = OrientationMove { positions: [0usize, 1, 11, 3, 4, 5, 10, 7, 8, 9, 2, 6], orientation_effect: [0u8, 0, 1, 0, 0, 0, 1, 0, 0, 0, 1, 1] };
        proof {
            assert(r.positions@ =~= spec_positions(11));
            assert(r.orientation_effect@ =~= spec_effects(11));
            assert(r.wf());
        }
        r
    } else if m == 12 {
        let r = OrientationMove { positions: [0usize, 8, 2, 3, 4, 10, 6, 7, 5, 9, 1, 11], orientation_effect: [0u8, 0, 0, 0, 0, 0, 0, 0, 0, 0, 0, 0] };
        proof {
            assert(r.positions@ =~= spec_positions(12));
            assert(r.orientation_effect@ =~= spec_effects(12));
            assert(r.wf());
        }
        r
    } else if m == 13 {
        let r = OrientationMove { positions: [0usize, 5, 2, 3, 4, 1, 6, 7, 10, 9, 8, 11], orientation_effect: [0u8, 0, 0, 0, 0, 0, 0, 0, 0, 0, 0, 0] };
        proof {
            assert(r.positions@ =~= spec_positions(13));
            assert(r.orientation_effect@ =~= spec_effects(13));
            assert(r.wf());
        }
        r
    } else if m == 14 {
        let r = OrientationMove { positions: [0usize, 10, 2, 3, 4, 8, 6, 7, 1, 9, 5, 11], orientation_effect: [0u8, 0, 0, 0, 0, 0, 0, 0, 0, 0, 0, 0] };
        proof {
            assert(r.positions@ =~= spec_positions(14));
            assert(r.orientation_effect@ =~= spec_effects(14));
            assert(r.wf());
        }
        r
    } else if m == 15 {
        let r = OrientationMove { positions: [0usize, 1, 2, 11, 4, 5, 6, 9, 8, 3, 10, 7], orientation_effect: [0u8, 0, 0, 0, 0, 0, 0, 0, 0, 0, 0, 0] };
        proof {
            assert(r.positions@ =~= spec_positions(15));
            assert(r.orientation_effect@ =~= spec_effects(15));
            assert(r.wf());
        }
        r
    } else if m == 16 {
        let r = OrientationMove { positions: [0usize, 1, 2, 7, 4, 5, 6, 3, 8, 11, 10, 9], orientation_effect: [0u8, 0, 0, 0, 0, 0, 0, 0, 0, 0, 0, 0] };
        proof {
            assert(r.positions@ =~= spec_positions(16));
            assert(r.orientation_effect@ =~= spec_effects(16));
            assert(r.wf());
        }
        r
    } else {
        let r = OrientationMove { positions: [0usize, 1, 2, 9, 4, 5, 6, 11, 8, 7, 10, 3], orientation_effect: [0u8, 0, 0, 0, 0, 0, 0, 0, 0, 0, 0, 0] };
        proof {
            assert(r.positions@ =~= spec_positions(17));
            assert(r.orientation_effect@ =~= spec_effects(17));
            assert(r.wf());
        }
        r
    }
}

/// The flip vector reached from `v`: each bit moves to its new slot and the
/// flip the move adds travels with the piece, so it is read at the source
/// slot.
pub open spec fn spec_eo_apply_with(v: Seq<u8>, pos: Seq<usize>, eff: Seq<u8>) -> Seq<u8> {
    Seq::new(12, |i: int| ((v[pos[i] as int] + eff[pos[i] as int]) % 2) as u8)
}

pub open spec fn spec_eo_apply(v: Seq<u8>, m: int) -> Seq<u8> {
    spec_eo_apply_with(v, spec_positions(m), spec_effects(m))
}

/// The flip of the twelve edges.
#[derive(Debug, Copy, Clone)]
pub struct Orientation {
    pub state: [u8; 12],
}

impl Orientation {
    pub open spec fn wf_state(&self) -> bool {
        wf_eo(self.state@)
    }

    /// Move each flip bit to its new slot, adding the move's flip for the
    /// slot it came from.
    pub fn apply(&self, b: &OrientationMove) -> (r: Orientation)
        requires
            self.wf_state(),
            b.wf(),
        ensures
            r.state@ == spec_eo_apply_with(self.state@, b.positions@, b.orientation_effect@),
            r.wf_state(),
    {
        let mut state: [u8; 12] = [0u8; 12];
        let mut i: usize = 0;
        while i < 12
            invariant
                i <= 12,
                self.wf_state(),
                b.wf(),
                forall|j: int|
                    0 <= j < i ==> state@[j] == spec_eo_apply_with(
                        self.state@,
                        b.positions@,
                        b.orientation_effect@,
                    )[j],
            decreases 12 - i,
        {
            state[i] = (self.state[b.positions[i]] + b.orientation_effect[b.positions[i]]) % 2;
            i = i + 1;
        }
        proof {
            assert(state@ =~= spec_eo_apply_with(
                self.state@,
                b.positions@,
                b.orientation_effect@,
            ));
        }
        Orientation { state }
    }
}

impl Prunable for Orientation {
    open spec fn repr(&self) -> Seq<u8> {
        self.state@
    }

    open spec fn wf_repr(v: Seq<u8>) -> bool {
        wf_eo(v)
    }

    open spec fn spec_apply(v: Seq<u8>, m: int) -> Seq<u8> {
        spec_eo_apply(v, m)
    }

    open spec fn spec_index_of(v: Seq<u8>) -> int {
        spec_eo_index(v)
    }

    open spec fn spec_solved_at(v: Seq<u8>) -> bool {
        spec_eo_f2l(v)
    }

    open spec fn spec_initial() -> Seq<u8> {
        spec_eo_solved()
    }

    open spec fn spec_total() -> int {
        EO_TOTAL as int
    }

    fn total_states() -> (n: usize) {
        EO_TOTAL
    }

    fn initial_pos() -> (r: Self) {
        let r = Orientation { state: [0u8, 0, 0, 0, 0, 0, 0, 0, 0, 0, 0, 0] };
        proof {
            assert(r.state@ =~= spec_eo_solved());
        }
        r
    }

    fn apply_idx(&self, idx: usize) -> (r: Self) {
        let mv = eo_move(idx);
        self.apply(&mv)
    }

    fn is_solved(&self) -> (b: bool) {
        let mut i: usize = 4;
        while i < 12
            invariant
                4 <= i <= 12,
                forall|j: int| 4 <= j < i ==> self.state@[j] == 0,
            decreases 12 - i,
        {
            if self.state[i] != 0 {
                return false;
            }
            i = i + 1;
        }
        true
    }

    fn index(&self) -> (r: usize) {
        proof {
            lemma_pow2_values();
            lemma_base2_bound(self.state@, 11);
        }
        let mut result: usize = 0;
        let mut i: usize = 0;
        while i < 11
            invariant
                i <= 11,
                self.wf_state(),
                result as int == base2(self.state@, i as int),
                result <= 2047,
            decreases 11 - i,
        {
            proof {
                lemma_base2_bound(self.state@, i + 1);
                lemma_pow2_le((i + 1) as nat, 11);
                lemma_pow2_values();
            }
            result = result * 2 + self.state[i] as usize;
            i = i + 1;
        }
        result
    }
}

} // verus!
