//! The composite search state: the full sticker permutation beside the
//! three coordinate indices and the edge permutation, advanced together so
//! that the enumerator can both prune by table lookup and test a leaf
//! against the sticker model.

use crate::corner_orientation::CO_TOTAL;
use crate::corner_permutation::CP_TOTAL;
use crate::cubestate::{spec_compose, spec_is_ll, spec_is_solved, spec_solved, CubeState};
use crate::edge_orientation::EO_TOTAL;
use crate::edge_permutation::{spec_edge_move, spec_edges_compose, spec_edges_solved, EdgePermutation};
use crate::generator::{Face, Generator, Modifier};
use crate::tables::Tables;
use vstd::prelude::*;

verus! {

/// The sticker state is a last-layer position: the bottom two layers are
/// intact, and no turn of the top face makes the whole cube solved.
pub open spec fn spec_f2l_is_ll(s: Seq<u8>) -> bool {
    &&& spec_is_ll(s)
    &&& !spec_is_solved(s)
    &&& !spec_is_solved(
        spec_compose(s, (Generator { face: Face::U, modifier: Modifier::Normal }).spec_effect()),
    )
    &&& !spec_is_solved(
        spec_compose(s, (Generator { face: Face::U, modifier: Modifier::Twice }).spec_effect()),
    )
    &&& !spec_is_solved(
        spec_compose(s, (Generator { face: Face::U, modifier: Modifier::Prime }).spec_effect()),
    )
}

/// A sticker state, the three coordinate indices and the edge permutation,
/// all reached from solved by the same move sequence.
#[derive(Debug, Copy, Clone)]
pub struct F2LCubeState {
    pub cubestate: CubeState,
    pub cornerperm: usize,
    pub cornerorie: usize,
    pub edgeorie: usize,
    pub edgeperm: EdgePermutation,
}

/// How one move advances the composite state: the stickers compose with the
/// move's effect, each coordinate index steps through its transition table,
/// and the edge permutation composes with the move's edge cycle.
pub open spec fn f2l_step(pre: F2LCubeState, g: Generator, t: Tables, post: F2LCubeState) -> bool {
    &&& post.cubestate.state@ == spec_compose(pre.cubestate.state@, g.spec_effect())
    &&& post.cornerperm == t.cp_t@[pre.cornerperm as int]@[g.spec_index()]
    &&& post.cornerorie == t.co_t@[pre.cornerorie as int]@[g.spec_index()]
    &&& post.edgeorie == t.eo_t@[pre.edgeorie as int]@[g.spec_index()]
    &&& post.edgeperm.state@ == spec_edges_compose(pre.edgeperm.state@, spec_edge_move(g.spec_index()))
}

/// The composite value of the solved cube: every projection at its start.
pub open spec fn f2l_initial(s: F2LCubeState) -> bool {
    &&& s.cubestate.state@ == spec_solved()
    &&& s.cornerperm == 0
    &&& s.cornerorie == 0
    &&& s.edgeorie == 0
    &&& s.edgeperm.state@ == spec_edges_solved()
}

/// One move taken from the solved cube: `f2l_step` with the solved
/// composite written out.
pub open spec fn f2l_start(g: Generator, t: Tables, post: F2LCubeState) -> bool {
    &&& post.cubestate.state@ == spec_compose(spec_solved(), g.spec_effect())
    &&& post.cornerperm == t.cp_t@[0]@[g.spec_index()]
    &&& post.cornerorie == t.co_t@[0]@[g.spec_index()]
    &&& post.edgeorie == t.eo_t@[0]@[g.spec_index()]
    &&& post.edgeperm.state@ == spec_edges_compose(spec_edges_solved(), spec_edge_move(g.spec_index()))
}

impl F2LCubeState {
    /// All five projections are in range and well formed.
    pub open spec fn wf(&self) -> bool {
        &&& self.cubestate.wf()
        &&& self.cornerperm < CP_TOTAL
        &&& self.cornerorie < CO_TOTAL
        &&& self.edgeorie < EO_TOTAL
        &&& self.edgeperm.wf()
    }

    /// The solved cube in every projection.
    pub fn new() -> (r: Self)
        ensures
            r.cubestate.state@ == crate::cubestate::spec_solved(),
            r.cornerperm == 0,
            r.cornerorie == 0,
            r.edgeorie == 0,
            r.edgeperm.state@ == crate::edge_permutation::spec_edges_solved(),
            r.wf(),
    {
        F2LCubeState {
            cubestate: CubeState::solved(),
            cornerperm: 0,
            cornerorie: 0,
            edgeorie: 0,
            edgeperm: EdgePermutation::new(),
        }
    }

    /// The state after the move `g`.
    pub fn apply(&self, g: Generator, t: &Tables) -> (r: Self)
        requires
            self.wf(),
            t.wf(),
        ensures
            f2l_step(*self, g, *t, r),
            r.wf(),
    {
        let mut result = F2LCubeState::new();
        self.apply_into(g, t, &mut result);
        result
    }

    /// The state after the move with the given index.
    pub fn apply_idx(&self, idx: usize, t: &Tables) -> (r: Self)
        requires
            self.wf(),
            t.wf(),
            idx < 18,
        ensures
            f2l_step(*self, Generator::spec_of_index(idx as int), *t, r),
            r.wf(),
    {
        self.apply(Generator::of_index(idx), t)
    }

    /// The state after the move `g`, written into a caller-supplied buffer
    /// to keep the hot loop free of allocation.
    pub fn apply_into(&self, g: Generator, t: &Tables, dest: &mut Self)
        requires
            self.wf(),
            t.wf(),
        ensures
            f2l_step(*self, g, *t, *final(dest)),
            final(dest).wf(),
    {
        let effect = g.effect();
        self.cubestate.apply_into(&effect, &mut dest.cubestate);
        let gi = g.index();
        dest.cornerperm = t.cp_t[self.cornerperm][gi];
        dest.cornerorie = t.co_t[self.cornerorie][gi];
        dest.edgeorie = t.eo_t[self.edgeorie][gi];
        self.edgeperm.apply_into_idx(gi, &mut dest.edgeperm);
    }

    /// Whether the whole cube is solved.
    fn is_id(&self) -> (r: bool)
        ensures
            r == spec_is_solved(self.cubestate.state@),
    {
        self.cubestate.is_solved()
    }

    /// Whether this state is a last-layer case worth emitting: the bottom
    /// two layers are intact and no turn of the top face solves the cube.
    pub fn is_ll(&self) -> (r: bool)
        requires
            self.wf(),
        ensures
            r == spec_f2l_is_ll(self.cubestate.state@),
    {
        if !self.cubestate.is_ll() {
            return false;
        }
        if self.is_id() {
            return false;
        }
        let u1 = Generator { face: Face::U, modifier: Modifier::Normal };
        let u2 = Generator { face: Face::U, modifier: Modifier::Twice };
        let u3 = Generator { face: Face::U, modifier: Modifier::Prime };
        if self.cubestate.apply(&u1.effect()).is_solved() {
            return false;
        }
        if self.cubestate.apply(&u2.effect()).is_solved() {
            return false;
        }
        if self.cubestate.apply(&u3.effect()).is_solved() {
            return false;
        }
        true
    }

    /// Whether some projection already needs more moves than remain: the
    /// branch below this state cannot restore the first two layers in time.
    pub fn prunable(&self, dist: u16, t: &Tables) -> (r: bool)
        requires
            self.wf(),
            t.wf(),
        ensures
            r == (dist < t.cp_p@[self.cornerperm as int] || dist < t.co_p@[self.cornerorie as int]
                || dist < t.eo_p@[self.edgeorie as int]),
    {
        dist < t.cp_p[self.cornerperm] || dist < t.co_p[self.cornerorie] || dist
            < t.eo_p[self.edgeorie]
    }
}

} // verus!
