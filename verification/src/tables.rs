//! The read-only lookup tables the enumerator prunes with: for each of the
//! three coordinate spaces, a transition table and a pruning table, built
//! once and then only read.

use crate::corner_orientation;
use crate::corner_orientation::CO_TOTAL;
use crate::corner_permutation::{CornerPermutation, CP_TOTAL};
use crate::edge_orientation;
use crate::edge_orientation::EO_TOTAL;
use crate::prunable::{build_tables, prune_consistent, table_in_range, tables_ok, Prunable};
use vstd::prelude::*;

verus! {

/// The transition and pruning tables of the three coordinate spaces.
#[derive(Debug)]
pub struct Tables {
    pub cp_t: Vec<[usize; 18]>,
    pub cp_p: Vec<u16>,
    pub co_t: Vec<[usize; 18]>,
    pub co_p: Vec<u16>,
    pub eo_t: Vec<[usize; 18]>,
    pub eo_p: Vec<u16>,
}

impl Tables {
    /// The shape every consumer relies on: each table covers its coordinate
    /// space, every transition lands inside it, each pruning table is a
    /// fixpoint of the one-step relaxation over its transition table, and
    /// each pair carries everything its builders establish — the initial
    /// row pinned to the moves out of the solved position, every index the
    /// table reaches from the initial one witnessed by a commuting row,
    /// pruning zero at the initial index and zero entries only at indices
    /// of F2L-solved positions. The solved position of each coordinate
    /// space hashes to zero, so its pinned row is row zero.
    pub open spec fn wf(&self) -> bool {
        &&& self.cp_t@.len() == CP_TOTAL as int
        &&& self.cp_p@.len() == CP_TOTAL as int
        &&& table_in_range(self.cp_t@, CP_TOTAL as int)
        &&& prune_consistent(self.cp_t@, self.cp_p@)
        &&& self.co_t@.len() == CO_TOTAL as int
        &&& self.co_p@.len() == CO_TOTAL as int
        &&& table_in_range(self.co_t@, CO_TOTAL as int)
        &&& prune_consistent(self.co_t@, self.co_p@)
        &&& self.eo_t@.len() == EO_TOTAL as int
        &&& self.eo_p@.len() == EO_TOTAL as int
        &&& table_in_range(self.eo_t@, EO_TOTAL as int)
        &&& prune_consistent(self.eo_t@, self.eo_p@)
        &&& tables_ok::<CornerPermutation>(self.cp_t@, self.cp_p@)
        &&& tables_ok::<corner_orientation::Orientation>(self.co_t@, self.co_p@)
        &&& tables_ok::<edge_orientation::Orientation>(self.eo_t@, self.eo_p@)
        &&& CornerPermutation::spec_index_of(CornerPermutation::spec_initial()) == 0
        &&& corner_orientation::Orientation::spec_index_of(
            corner_orientation::Orientation::spec_initial(),
        ) == 0
        &&& edge_orientation::Orientation::spec_index_of(
            edge_orientation::Orientation::spec_initial(),
        ) == 0
    }

    /// Build all six tables by searching each coordinate space from its
    /// solved position.
    pub fn new() -> (t: Tables)
        ensures
            t.wf(),
    {
        let (cp_t, cp_p) = build_tables::<CornerPermutation>();
        let (co_t, co_p) = build_tables::<corner_orientation::Orientation>();
        let (eo_t, eo_p) = build_tables::<edge_orientation::Orientation>();
        proof {
            crate::corner_permutation::lemma_cp_index_initial();
            crate::corner_orientation::lemma_co_index_initial();
            crate::edge_orientation::lemma_eo_index_initial();
        }
        Tables { cp_t, cp_p, co_t, co_p, eo_t, eo_p }
    }
}

} // verus!
