//! The sticker-level cube model: a permutation of the 54 sticker
//! positions, composed right-to-left, with the solved state as identity.
//!
//! Sticker numbering: 0..9 is the U face; 9..18, 18..27 and 27..36 are the
//! top, middle and bottom rows of the side band (L, F, R in order, with the
//! B face stored as the strip 45..54); 36..45 is the D face. The first two
//! layers are intact exactly when stickers 18..51 are fixed.

use crate::generator::{Face, Generator, Modifier};
use vstd::prelude::*;

verus! {

/// A sticker state is well formed when each of its 54 entries names a
/// sticker position.
pub open spec fn wf_state(s: Seq<u8>) -> bool {
    s.len() == 54 && (forall|i: int| 0 <= i < 54 ==> s[i] < 54)
}

/// The identity permutation: every sticker in its home position.
pub open spec fn spec_solved() -> Seq<u8> {
    Seq::new(54, |i: int| i as u8)
}

/// Applying `b` after reaching `a`: position `i` shows the sticker that `a`
/// holds where `b` reads it.
pub open spec fn spec_compose(a: Seq<u8>, b: Seq<u8>) -> Seq<u8> {
    Seq::new(54, |i: int| a[b[i] as int])
}

/// The bottom two layers and the equator are intact: stickers 18..51 are
/// all in their home positions.
pub open spec fn spec_is_ll(s: Seq<u8>) -> bool {
    forall|i: int| 18 <= i < 51 ==> s[i] == i
}

/// The whole cube is solved.
pub open spec fn spec_is_solved(s: Seq<u8>) -> bool {
    forall|i: int| 0 <= i < 54 ==> s[i] == i
}

/// A permutation of the 54 stickers, applied to the solved labeling.
#[derive(Debug, Copy, Clone)]
pub struct CubeState {
    pub state: [u8; 54],
}

impl CubeState {
    /// The well-formedness of the underlying permutation.
    pub open spec fn wf(&self) -> bool {
        wf_state(self.state@)
    }

    /// The solved cube: the identity permutation.
    pub fn solved() -> (r: CubeState)
        ensures
            r.state@ == spec_solved(),
            r.wf(),
    {
        let mut stickers: [u8; 54] = [0u8; 54];
        let mut i: usize = 0;
        while i < 54
            invariant
                i <= 54,
                forall|j: int| 0 <= j < i ==> stickers@[j] == j,
            decreases 54 - i,
        {
            stickers[i] = i as u8;
            i = i + 1;
        }
        let r = CubeState { state: stickers };
        proof {
            assert(r.state@ =~= spec_solved());
        }
        r
    }

    /// Apply `other` to `self`, returning the composed state.
    pub fn apply(&self, other: &CubeState) -> (r: CubeState)
        requires
            self.wf(),
            other.wf(),
        ensures
            r.state@ == spec_compose(self.state@, other.state@),
            r.wf(),
    {
        let mut dest = Self::solved();
        self.apply_into(other, &mut dest);
        dest
    }

    /// Apply `other` to `self`, storing the result in `dest`.
    /// This exists in order to be able to avoid an allocation.
    pub fn apply_into(&self, other: &CubeState, dest: &mut CubeState)
        requires
            self.wf(),
            other.wf(),
        ensures
            final(dest).state@ == spec_compose(self.state@, other.state@),
            final(dest).wf(),
    {
        let mut i: usize = 0;
        while i < 54
            invariant
                i <= 54,
                self.wf(),
                other.wf(),
                forall|j: int|
                    0 <= j < i ==> dest.state@[j] == spec_compose(self.state@, other.state@)[j],
            decreases 54 - i,
        {
            dest.state[i] = self.state[other.state[i] as usize];
            i = i + 1;
        }
        proof {
            assert(dest.state@ =~= spec_compose(self.state@, other.state@));
        }
    }

    /// That this is as simple as it is just arises from the way we represent
    /// a cube.
    pub fn is_ll(&self) -> (r: bool)
        ensures
            r == spec_is_ll(self.state@),
    {
        let mut i: usize = 18;
        while i < 51
            invariant
                18 <= i <= 51,
                forall|j: int| 18 <= j < i ==> self.state@[j] == j,
            decreases 51 - i,
        {
            if self.state[i] != i as u8 {
                return false;
            }
            i = i + 1;
        }
        true
    }

    /// Whether every sticker is in its home position.
    pub fn is_solved(&self) -> (r: bool)
        ensures
            r == spec_is_solved(self.state@),
    {
        let mut i: usize = 0;
        while i < 54
            invariant
                i <= 54,
                forall|j: int| 0 <= j < i ==> self.state@[j] == j,
            decreases 54 - i,
        {
            if self.state[i] != i as u8 {
                return false;
            }
            i = i + 1;
        }
        true
    }
}

impl Generator {
    /// The permutation of the 54 stickers that this move performs.
    pub open spec fn spec_effect(&self) -> Seq<u8> {
        match (self.face, self.modifier) {
            (Face::U, Modifier::Normal) => seq![6u8,3,0,7,4,1,8,5,2,12,13,14,15,16,17,53,52,51,18,19,20,21,22,23,24,25,26,27,28,29,30,31,32,33,34,35,36,37,38,39,40,41,42,43,44,45,46,47,48,49,50,11,10,9],
            (Face::U, Modifier::Twice) => seq![8u8,7,6,5,4,3,2,1,0,15,16,17,53,52,51,9,10,11,18,19,20,21,22,23,24,25,26,27,28,29,30,31,32,33,34,35,36,37,38,39,40,41,42,43,44,45,46,47,48,49,50,14,13,12],
            (Face::U, Modifier::Prime) => seq![2u8,5,8,1,4,7,0,3,6,53,52,51,9,10,11,12,13,14,18,19,20,21,22,23,24,25,26,27,28,29,30,31,32,33,34,35,36,37,38,39,40,41,42,43,44,45,46,47,48,49,50,17,16,15],
            (Face::D, Modifier::Normal) => seq![0u8,1,2,3,4,5,6,7,8,9,10,11,12,13,14,15,16,17,18,19,20,21,22,23,24,25,26,47,46,45,27,28,29,30,31,32,42,39,36,43,40,37,44,41,38,35,34,33,48,49,50,51,52,53],
            (Face::D, Modifier::Twice) => seq![0u8,1,2,3,4,5,6,7,8,9,10,11,12,13,14,15,16,17,18,19,20,21,22,23,24,25,26,33,34,35,47,46,45,27,28,29,44,43,42,41,40,39,38,37,36,32,31,30,48,49,50,51,52,53],
            (Face::D, Modifier::Prime) => seq![0u8,1,2,3,4,5,6,7,8,9,10,11,12,13,14,15,16,17,18,19,20,21,22,23,24,25,26,30,31,32,33,34,35,47,46,45,38,41,44,37,40,43,36,39,42,29,28,27,48,49,50,51,52,53],
            (Face::F, Modifier::Normal) => seq![0u8,1,2,3,4,5,29,20,11,9,10,36,30,21,12,6,16,17,18,19,37,31,22,13,7,25,26,27,28,38,32,23,14,8,34,35,33,24,15,39,40,41,42,43,44,45,46,47,48,49,50,51,52,53],
            (Face::F, Modifier::Twice) => seq![0u8,1,2,3,4,5,38,37,36,9,10,33,32,31,30,29,16,17,18,19,24,23,22,21,20,25,26,27,28,15,14,13,12,11,34,35,8,7,6,39,40,41,42,43,44,45,46,47,48,49,50,51,52,53],
            (Face::F, Modifier::Prime) => seq![0u8,1,2,3,4,5,15,24,33,9,10,8,14,23,32,38,16,17,18,19,7,13,22,31,37,25,26,27,28,6,12,21,30,36,34,35,11,20,29,39,40,41,42,43,44,45,46,47,48,49,50,51,52,53],
            (Face::B, Modifier::Normal) => seq![17u8,26,35,3,4,5,6,7,8,2,10,11,12,13,14,15,16,44,1,19,20,21,22,23,24,25,43,0,28,29,30,31,32,33,34,42,36,37,38,39,40,41,9,18,27,51,48,45,52,49,46,53,50,47],
            (Face::B, Modifier::Twice) => seq![44u8,43,42,3,4,5,6,7,8,35,10,11,12,13,14,15,16,27,26,19,20,21,22,23,24,25,18,17,28,29,30,31,32,33,34,9,36,37,38,39,40,41,2,1,0,53,52,51,50,49,48,47,46,45],
            (Face::B, Modifier::Prime) => seq![27u8,18,9,3,4,5,6,7,8,42,10,11,12,13,14,15,16,0,43,19,20,21,22,23,24,25,1,44,28,29,30,31,32,33,34,2,36,37,38,39,40,41,35,26,17,47,50,53,46,49,52,45,48,51],
            (Face::R, Modifier::Normal) => seq![0u8,1,14,3,4,23,6,7,32,9,10,11,12,13,38,33,24,15,18,19,20,21,22,41,34,25,16,27,28,29,30,31,44,35,26,17,36,37,47,39,40,50,42,43,53,45,46,2,48,49,5,51,52,8],
            (Face::R, Modifier::Twice) => seq![0u8,1,38,3,4,41,6,7,44,9,10,11,12,13,47,35,34,33,18,19,20,21,22,50,26,25,24,27,28,29,30,31,53,17,16,15,36,37,2,39,40,5,42,43,8,45,46,14,48,49,23,51,52,32],
            (Face::R, Modifier::Prime) => seq![0u8,1,47,3,4,50,6,7,53,9,10,11,12,13,2,17,26,35,18,19,20,21,22,5,16,25,34,27,28,29,30,31,8,15,24,33,36,37,14,39,40,23,42,43,32,45,46,38,48,49,41,51,52,44],
            (Face::L, Modifier::Normal) => seq![45u8,1,2,48,4,5,51,7,8,27,18,9,0,13,14,15,16,17,28,19,10,3,22,23,24,25,26,29,20,11,6,31,32,33,34,35,12,37,38,21,40,41,30,43,44,36,46,47,39,49,50,42,52,53],
            (Face::L, Modifier::Twice) => seq![36u8,1,2,39,4,5,42,7,8,29,28,27,45,13,14,15,16,17,20,19,18,48,22,23,24,25,26,11,10,9,51,31,32,33,34,35,0,37,38,3,40,41,6,43,44,12,46,47,21,49,50,30,52,53],
            (Face::L, Modifier::Prime) => seq![12u8,1,2,21,4,5,30,7,8,11,20,29,36,13,14,15,16,17,10,19,28,39,22,23,24,25,26,9,18,27,42,31,32,33,34,35,45,37,38,48,40,41,51,43,44,0,46,47,3,49,50,6,52,53],
        }
    }

    /// The sticker permutation of this move, as an executable state.
    pub fn effect(&self) -> (r: CubeState)
        ensures
            r.state@ == self.spec_effect(),
            r.wf(),
    {
        match (self.face, self.modifier) {
            (Face::U, Modifier::Normal) => {
                let c = CubeState { state: [6u8,3,0,7,4,1,8,5,2,12,13,14,15,16,17,53,52,51,18,19,20,21,22,23,24,25,26,27,28,29,30,31,32,33,34,35,36,37,38,39,40,41,42,43,44,45,46,47,48,49,50,11,10,9] };
                proof {
                    assert(c.state@ =~= self.spec_effect());
                    assert(c.wf());
                }
                c
            },
            (Face::U, Modifier::Twice) => {
                let c = CubeState { state: [8u8,7,6,5,4,3,2,1,0,15,16,17,53,52,51,9,10,11,18,19,20,21,22,23,24,25,26,27,28,29,30,31,32,33,34,35,36,37,38,39,40,41,42,43,44,45,46,47,48,49,50,14,13,12] };
                proof {
                    assert(c.state@ =~= self.spec_effect());
                    assert(c.wf());
                }
                c
            },
            (Face::U, Modifier::Prime) => {
                let c = CubeState { state: [2u8,5,8,1,4,7,0,3,6,53,52,51,9,10,11,12,13,14,18,19,20,21,22,23,24,25,26,27,28,29,30,31,32,33,34,35,36,37,38,39,40,41,42,43,44,45,46,47,48,49,50,17,16,15] };
                proof {
                    assert(c.state@ =~= self.spec_effect());
                    assert(c.wf());
                }
                c
            },
            (Face::D, Modifier::Normal) => {
                let c = CubeState { state: [0u8,1,2,3,4,5,6,7,8,9,10,11,12,13,14,15,16,17,18,19,20,21,22,23,24,25,26,47,46,45,27,28,29,30,31,32,42,39,36,43,40,37,44,41,38,35,34,33,48,49,50,51,52,53] };
                proof {
                    assert(c.state@ =~= self.spec_effect());
                    assert(c.wf());
                }
                c
            },
            (Face::D, Modifier::Twice) => {
                let c = CubeState { state: [0u8,1,2,3,4,5,6,7,8,9,10,11,12,13,14,15,16,17,18,19,20,21,22,23,24,25,26,33,34,35,47,46,45,27,28,29,44,43,42,41,40,39,38,37,36,32,31,30,48,49,50,51,52,53] };
                proof {
                    assert(c.state@ =~= self.spec_effect());
                    assert(c.wf());
                }
                c
            },
            (Face::D, Modifier::Prime) => {
                let c = CubeState { state: [0u8,1,2,3,4,5,6,7,8,9,10,11,12,13,14,15,16,17,18,19,20,21,22,23,24,25,26,30,31,32,33,34,35,47,46,45,38,41,44,37,40,43,36,39,42,29,28,27,48,49,50,51,52,53] };
                proof {
                    assert(c.state@ =~= self.spec_effect());
                    assert(c.wf());
                }
                c
            },
            (Face::F, Modifier::Normal) => {
                let c = CubeState { state: [0u8,1,2,3,4,5,29,20,11,9,10,36,30,21,12,6,16,17,18,19,37,31,22,13,7,25,26,27,28,38,32,23,14,8,34,35,33,24,15,39,40,41,42,43,44,45,46,47,48,49,50,51,52,53] };
                proof {
                    assert(c.state@ =~= self.spec_effect());
                    assert(c.wf());
                }
                c
            },
            (Face::F, Modifier::Twice) => {
                let c = CubeState { state: [0u8,1,2,3,4,5,38,37,36,9,10,33,32,31,30,29,16,17,18,19,24,23,22,21,20,25,26,27,28,15,14,13,12,11,34,35,8,7,6,39,40,41,42,43,44,45,46,47,48,49,50,51,52,53] };
                proof {
                    assert(c.state@ =~= self.spec_effect());
                    assert(c.wf());
                }
                c
            },
            (Face::F, Modifier::Prime) => {
                let c = CubeState { state: [0u8,1,2,3,4,5,15,24,33,9,10,8,14,23,32,38,16,17,18,19,7,13,22,31,37,25,26,27,28,6,12,21,30,36,34,35,11,20,29,39,40,41,42,43,44,45,46,47,48,49,50,51,52,53] };
                proof {
                    assert(c.state@ =~= self.spec_effect());
                    assert(c.wf());
                }
                c
            },
            (Face::B, Modifier::Normal) => {
                let c = CubeState { state: [17u8,26,35,3,4,5,6,7,8,2,10,11,12,13,14,15,16,44,1,19,20,21,22,23,24,25,43,0,28,29,30,31,32,33,34,42,36,37,38,39,40,41,9,18,27,51,48,45,52,49,46,53,50,47] };
                proof {
                    assert(c.state@ =~= self.spec_effect());
                    assert(c.wf());
                }
                c
            },
            (Face::B, Modifier::Twice) => {
                let c = CubeState { state: [44u8,43,42,3,4,5,6,7,8,35,10,11,12,13,14,15,16,27,26,19,20,21,22,23,24,25,18,17,28,29,30,31,32,33,34,9,36,37,38,39,40,41,2,1,0,53,52,51,50,49,48,47,46,45] };
                proof {
                    assert(c.state@ =~= self.spec_effect());
                    assert(c.wf());
                }
                c
            },
            (Face::B, Modifier::Prime) => {
                let c = CubeState { state: [27u8,18,9,3,4,5,6,7,8,42,10,11,12,13,14,15,16,0,43,19,20,21,22,23,24,25,1,44,28,29,30,31,32,33,34,2,36,37,38,39,40,41,35,26,17,47,50,53,46,49,52,45,48,51] };
                proof {
                    assert(c.state@ =~= self.spec_effect());
                    assert(c.wf());
                }
                c
            },
            (Face::R, Modifier::Normal) => {
                let c = CubeState { state: [0u8,1,14,3,4,23,6,7,32,9,10,11,12,13,38,33,24,15,18,19,20,21,22,41,34,25,16,27,28,29,30,31,44,35,26,17,36,37,47,39,40,50,42,43,53,45,46,2,48,49,5,51,52,8] };
                proof {
                    assert(c.state@ =~= self.spec_effect());
                    assert(c.wf());
                }
                c
            },
            (Face::R, Modifier::Twice) => {
                let c = CubeState { state: [0u8,1,38,3,4,41,6,7,44,9,10,11,12,13,47,35,34,33,18,19,20,21,22,50,26,25,24,27,28,29,30,31,53,17,16,15,36,37,2,39,40,5,42,43,8,45,46,14,48,49,23,51,52,32] };
                proof {
                    assert(c.state@ =~= self.spec_effect());
                    assert(c.wf());
                }
                c
            },
            (Face::R, Modifier::Prime) => {
                let c = CubeState { state: [0u8,1,47,3,4,50,6,7,53,9,10,11,12,13,2,17,26,35,18,19,20,21,22,5,16,25,34,27,28,29,30,31,8,15,24,33,36,37,14,39,40,23,42,43,32,45,46,38,48,49,41,51,52,44] };
                proof {
                    assert(c.state@ =~= self.spec_effect());
                    assert(c.wf());
                }
                c
            },
            (Face::L, Modifier::Normal) => {
                let c = CubeState { state: [45u8,1,2,48,4,5,51,7,8,27,18,9,0,13,14,15,16,17,28,19,10,3,22,23,24,25,26,29,20,11,6,31,32,33,34,35,12,37,38,21,40,41,30,43,44,36,46,47,39,49,50,42,52,53] };
                proof {
                    assert(c.state@ =~= self.spec_effect());
                    assert(c.wf());
                }
                c
            },
            (Face::L, Modifier::Twice) => {
                let c = CubeState { state: [36u8,1,2,39,4,5,42,7,8,29,28,27,45,13,14,15,16,17,20,19,18,48,22,23,24,25,26,11,10,9,51,31,32,33,34,35,0,37,38,3,40,41,6,43,44,12,46,47,21,49,50,30,52,53] };
                proof {
                    assert(c.state@ =~= self.spec_effect());
                    assert(c.wf());
                }
                c
            },
            (Face::L, Modifier::Prime) => {
                let c = CubeState { state: [12u8,1,2,21,4,5,30,7,8,11,20,29,36,13,14,15,16,17,10,19,28,39,22,23,24,25,26,9,18,27,42,31,32,33,34,35,45,37,38,48,40,41,51,43,44,0,46,47,3,49,50,6,52,53] };
                proof {
                    assert(c.state@ =~= self.spec_effect());
                    assert(c.wf());
                }
                c
            },
        }
    }
}

/// Every move's effect is a well-formed sticker state.
pub proof fn lemma_effect_wf(g: Generator)
    ensures
        wf_state(g.spec_effect()),
        g.spec_effect().len() == 54,
{
    assert(wf_state((Generator { face: Face::U, modifier: Modifier::Normal }).spec_effect()));
    assert(wf_state((Generator { face: Face::U, modifier: Modifier::Twice }).spec_effect()));
    assert(wf_state((Generator { face: Face::U, modifier: Modifier::Prime }).spec_effect()));
    assert(wf_state((Generator { face: Face::D, modifier: Modifier::Normal }).spec_effect()));
    assert(wf_state((Generator { face: Face::D, modifier: Modifier::Twice }).spec_effect()));
    assert(wf_state((Generator { face: Face::D, modifier: Modifier::Prime }).spec_effect()));
    assert(wf_state((Generator { face: Face::F, modifier: Modifier::Normal }).spec_effect()));
    assert(wf_state((Generator { face: Face::F, modifier: Modifier::Twice }).spec_effect()));
    assert(wf_state((Generator { face: Face::F, modifier: Modifier::Prime }).spec_effect()));
    assert(wf_state((Generator { face: Face::B, modifier: Modifier::Normal }).spec_effect()));
    assert(wf_state((Generator { face: Face::B, modifier: Modifier::Twice }).spec_effect()));
    assert(wf_state((Generator { face: Face::B, modifier: Modifier::Prime }).spec_effect()));
    assert(wf_state((Generator { face: Face::R, modifier: Modifier::Normal }).spec_effect()));
    assert(wf_state((Generator { face: Face::R, modifier: Modifier::Twice }).spec_effect()));
    assert(wf_state((Generator { face: Face::R, modifier: Modifier::Prime }).spec_effect()));
    assert(wf_state((Generator { face: Face::L, modifier: Modifier::Normal }).spec_effect()));
    assert(wf_state((Generator { face: Face::L, modifier: Modifier::Twice }).spec_effect()));
    assert(wf_state((Generator { face: Face::L, modifier: Modifier::Prime }).spec_effect()));
    assert(g == (Generator { face: g.face, modifier: g.modifier }));
}

/// The effect of a move's inverse sends each sticker back: composing the
/// two effects is the identity.
pub open spec fn effect_undone(g: Generator) -> bool {
    forall|i: int|
        0 <= i < 54 ==> g.spec_effect()[#[trigger] g.spec_inverse().spec_effect()[i] as int] == i
}

/// Every move is undone by its inverse move.
pub proof fn lemma_effect_inverse(g: Generator)
    ensures
        effect_undone(g),
{
    assert(effect_undone(Generator { face: Face::U, modifier: Modifier::Normal }));
    assert(effect_undone(Generator { face: Face::U, modifier: Modifier::Twice }));
    assert(effect_undone(Generator { face: Face::U, modifier: Modifier::Prime }));
    assert(effect_undone(Generator { face: Face::D, modifier: Modifier::Normal }));
    assert(effect_undone(Generator { face: Face::D, modifier: Modifier::Twice }));
    assert(effect_undone(Generator { face: Face::D, modifier: Modifier::Prime }));
    assert(effect_undone(Generator { face: Face::F, modifier: Modifier::Normal }));
    assert(effect_undone(Generator { face: Face::F, modifier: Modifier::Twice }));
    assert(effect_undone(Generator { face: Face::F, modifier: Modifier::Prime }));
    assert(effect_undone(Generator { face: Face::B, modifier: Modifier::Normal }));
    assert(effect_undone(Generator { face: Face::B, modifier: Modifier::Twice }));
    assert(effect_undone(Generator { face: Face::B, modifier: Modifier::Prime }));
    assert(effect_undone(Generator { face: Face::R, modifier: Modifier::Normal }));
    assert(effect_undone(Generator { face: Face::R, modifier: Modifier::Twice }));
    assert(effect_undone(Generator { face: Face::R, modifier: Modifier::Prime }));
    assert(effect_undone(Generator { face: Face::L, modifier: Modifier::Normal }));
    assert(effect_undone(Generator { face: Face::L, modifier: Modifier::Twice }));
    assert(effect_undone(Generator { face: Face::L, modifier: Modifier::Prime }));
    assert(g == (Generator { face: g.face, modifier: g.modifier }));
}

/// The relabeling of sticker positions under a y rotation of the whole
/// cube: the top face turns as U does, every side row shifts one face, and
/// the bottom face turns the opposite way.
pub open spec fn spec_y() -> Seq<u8> {
    seq![6u8, 3, 0, 7, 4, 1, 8, 5, 2, 12, 13, 14, 15, 16, 17, 53, 52, 51, 21, 22, 23, 24, 25, 26, 50, 49, 48, 30, 31, 32, 33, 34, 35, 47, 46, 45, 38, 41, 44, 37, 40, 43, 36, 39, 42, 29, 28, 27, 20, 19, 18, 11, 10, 9]
}

/// The inverse relabeling.
pub open spec fn spec_y_inv() -> Seq<u8> {
    seq![2u8, 5, 8, 1, 4, 7, 0, 3, 6, 53, 52, 51, 9, 10, 11, 12, 13, 14, 50, 49, 48, 18, 19, 20, 21, 22, 23, 47, 46, 45, 27, 28, 29, 30, 31, 32, 42, 39, 36, 43, 40, 37, 44, 41, 38, 35, 34, 33, 26, 25, 24, 17, 16, 15]
}

/// The two relabelings are inverse permutations, and each maps the
/// first-two-layer region onto itself.
pub proof fn lemma_y_props()
    ensures
        wf_state(spec_y()),
        wf_state(spec_y_inv()),
        forall|i: int| 0 <= i < 54 ==> spec_y_inv()[#[trigger] spec_y()[i] as int] == i,
        forall|i: int| 0 <= i < 54 ==> spec_y()[#[trigger] spec_y_inv()[i] as int] == i,
        forall|i: int| 18 <= i < 51 ==> 18 <= #[trigger] spec_y()[i] < 51,
{
}

/// A move with its face rotated one step acts as the unrotated move does
/// on the relabeled stickers.
pub open spec fn effect_conjugated(g: Generator) -> bool {
    forall|i: int|
        0 <= i < 54 ==> g.spec_rotate_y().spec_effect()[i] == spec_y_inv()[g.spec_effect()[#[trigger] spec_y()[i] as int] as int]
}

/// The conjugation identity holds of every move.
pub proof fn lemma_effect_conjugation(g: Generator)
    ensures
        effect_conjugated(g),
{
    assert(effect_conjugated(Generator { face: Face::U, modifier: Modifier::Normal }));
    assert(effect_conjugated(Generator { face: Face::U, modifier: Modifier::Twice }));
    assert(effect_conjugated(Generator { face: Face::U, modifier: Modifier::Prime }));
    assert(effect_conjugated(Generator { face: Face::D, modifier: Modifier::Normal }));
    assert(effect_conjugated(Generator { face: Face::D, modifier: Modifier::Twice }));
    assert(effect_conjugated(Generator { face: Face::D, modifier: Modifier::Prime }));
    assert(effect_conjugated(Generator { face: Face::F, modifier: Modifier::Normal }));
    assert(effect_conjugated(Generator { face: Face::F, modifier: Modifier::Twice }));
    assert(effect_conjugated(Generator { face: Face::F, modifier: Modifier::Prime }));
    assert(effect_conjugated(Generator { face: Face::B, modifier: Modifier::Normal }));
    assert(effect_conjugated(Generator { face: Face::B, modifier: Modifier::Twice }));
    assert(effect_conjugated(Generator { face: Face::B, modifier: Modifier::Prime }));
    assert(effect_conjugated(Generator { face: Face::R, modifier: Modifier::Normal }));
    assert(effect_conjugated(Generator { face: Face::R, modifier: Modifier::Twice }));
    assert(effect_conjugated(Generator { face: Face::R, modifier: Modifier::Prime }));
    assert(effect_conjugated(Generator { face: Face::L, modifier: Modifier::Normal }));
    assert(effect_conjugated(Generator { face: Face::L, modifier: Modifier::Twice }));
    assert(effect_conjugated(Generator { face: Face::L, modifier: Modifier::Prime }));
    assert(g == (Generator { face: g.face, modifier: g.modifier }));
}

} // verus!
