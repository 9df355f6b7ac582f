//! The enumerator: a depth-bounded search over move sequences that begin
//! with an R-family move, pruned through the coordinate tables, emitting
//! each accepted last-layer algorithm in its best-scoring rotation.

use crate::algorithm::{copy_moves, spec_cube_of, spec_first_non_ud, spec_parsed, spec_rotate_k, spec_score_moves, Algorithm};
use crate::cubestate::{spec_compose, spec_solved};
use crate::f2l_cubestate::{f2l_start, f2l_step, spec_f2l_is_ll, F2LCubeState};
use crate::generator::{
    lemma_of_index_roundtrip, lemma_successors_complete, lemma_successors_len,
    lemma_successors_nonempty, Face, Generator, Modifier,
};
use crate::lla_error::LLAError;
use crate::tables::Tables;
use vstd::prelude::*;

verus! {

/// The search stack never grows past this depth; every feasible run stays
/// far below it, and it keeps the remaining-depth arithmetic inside `u16`.
pub const MAX_LENGTH: usize = 16384;

/// A trailing move the ever-present final U-face adjustment absorbs: the
/// last move turns U, or the move before it does and the last turns D.
pub open spec fn spec_ending_in_u(m: Seq<Generator>) -> bool {
    m.len() > 0 && (m.last().spec_is_u_move() || (m.len() >= 2 && m[m.len()
        - 2].spec_is_u_move() && m.last().spec_is_d_move()))
}

/// One cursor tuple precedes another in the enumeration order: they agree
/// up to some depth, where the second has advanced further.
pub open spec fn lex_less(a: Seq<usize>, b: Seq<usize>) -> bool {
    a.len() == b.len() && exists|c: int|
        {
            &&& 0 <= c < a.len()
            &&& #[trigger] a[c] < #[trigger] b[c]
            &&& forall|j: int| 0 <= j < c ==> a[j] == b[j]
        }
}

/// What exhibits the order: a depth where the second tuple has advanced,
/// all earlier depths agreeing.
pub proof fn lemma_lex_less_intro(a: Seq<usize>, b: Seq<usize>, c: int)
    requires
        a.len() == b.len(),
        0 <= c < a.len(),
        a[c] < b[c],
        forall|j: int| 0 <= j < c ==> a[j] == b[j],
    ensures
        lex_less(a, b),
{
}

/// The enumeration order is transitive.
pub proof fn lemma_lex_less_trans(a: Seq<usize>, b: Seq<usize>, c: Seq<usize>)
    requires
        lex_less(a, b),
        lex_less(b, c),
    ensures
        lex_less(a, c),
{
    let i = choose|i: int|
        0 <= i < a.len() && #[trigger] a[i] < #[trigger] b[i] && (forall|j: int|
            0 <= j < i ==> a[j] == b[j]);
    let k = choose|k: int|
        0 <= k < b.len() && #[trigger] b[k] < #[trigger] c[k] && (forall|j: int|
            0 <= j < k ==> b[j] == c[j]);
    if i <= k {
        assert(a[i] < c[i] && forall|j: int| 0 <= j < i ==> a[j] == c[j]);
    } else {
        assert(a[k] < c[k] && forall|j: int| 0 <= j < k ==> a[j] == c[j]);
    }
}

/// Eighteen to the `n`th power: a bound on the cursor space of a stack of
/// depth `n`, since no successor list has more than eighteen entries.
pub open spec fn pow18(n: nat) -> int
    decreases n,
{
    if n == 0 {
        1
    } else {
        18 * pow18((n - 1) as nat)
    }
}

/// A cursor tuple read as digits in base eighteen, most significant first:
/// the measure every advance increases, which bounds the search at one
/// depth.
pub open spec fn cursor_value(a: Seq<usize>) -> int
    decreases a.len(),
{
    if a.len() == 0 {
        0
    } else {
        cursor_value(a.drop_last()) * 18 + a.last()
    }
}

/// A tuple of digits below eighteen values below the power of its length.
proof fn lemma_cursor_value_bounds(a: Seq<usize>)
    requires
        forall|j: int| 0 <= j < a.len() ==> a[j] < 18,
    ensures
        0 <= cursor_value(a) < pow18(a.len()),
    decreases a.len(),
{
    if a.len() > 0 {
        assert forall|j: int| 0 <= j < a.drop_last().len() implies a.drop_last()[j] < 18 by {
            assert(a.drop_last()[j] == a[j]);
        }
        lemma_cursor_value_bounds(a.drop_last());
        assert(a.last() < 18);
    }
}

/// Advancing in the enumeration order raises the base-eighteen value.
proof fn lemma_cursor_value_lex(a: Seq<usize>, b: Seq<usize>)
    requires
        lex_less(a, b),
        forall|j: int| 0 <= j < a.len() ==> a[j] < 18,
    ensures
        cursor_value(a) < cursor_value(b),
    decreases a.len(),
{
    let c = choose|c: int|
        0 <= c < a.len() && #[trigger] a[c] < #[trigger] b[c] && (forall|j: int|
            0 <= j < c ==> a[j] == b[j]);
    if c == a.len() - 1 {
        assert(a.drop_last() =~= b.drop_last());
        assert(cursor_value(a) == cursor_value(a.drop_last()) * 18 + a.last());
        assert(cursor_value(b) == cursor_value(b.drop_last()) * 18 + b.last());
    } else {
        assert(a.drop_last()[c] == a[c] && b.drop_last()[c] == b[c]);
        assert(forall|j: int| 0 <= j < c ==> a.drop_last()[j] == b.drop_last()[j]);
        lemma_lex_less_intro(a.drop_last(), b.drop_last(), c);
        assert forall|j: int| 0 <= j < a.drop_last().len() implies a.drop_last()[j] < 18 by {
            assert(a.drop_last()[j] == a[j]);
        }
        lemma_cursor_value_lex(a.drop_last(), b.drop_last());
        assert(a.last() < 18);
        assert(cursor_value(a.drop_last()) * 18 + 18 <= cursor_value(b.drop_last()) * 18);
    }
}

/// The successor lists of all eighteen moves, in move-index order.
pub open spec fn succ_ok(succ: Seq<Vec<Generator>>) -> bool {
    succ.len() == 18 && (forall|k: int|
        0 <= k < 18 ==> (#[trigger] succ[k])@ == Generator::spec_of_index(k).spec_successors())
}

/// The enumerator's state: parallel stacks of moves, successor-list
/// cursors and cube states, one entry per search depth.
#[derive(Debug)]
pub struct AlgorithmIterator {
    pub tables: Tables,
    pub succ: Vec<Vec<Generator>>,
    pub cubestates: Vec<F2LCubeState>,
    pub moves: Vec<Generator>,
    pub indices: Vec<usize>,
    pub length: usize,
}

impl AlgorithmIterator {
    /// The tables, the successor lists and the stack shapes are in order.
    pub open spec fn base_wf(&self) -> bool {
        &&& self.tables.wf()
        &&& succ_ok(self.succ@)
        &&& 1 <= self.length <= MAX_LENGTH
        &&& self.moves@.len() == self.length
        &&& self.indices@.len() == self.length
        &&& self.cubestates@.len() == self.length
    }

    /// The links that make depth `j` consistent with depth `j - 1`: the
    /// cursor points at the move inside the predecessor's successor list,
    /// and the cube state advances by that move.
    pub open spec fn depth_link(&self, j: int) -> bool {
        &&& self.indices@[j] < self.moves@[j - 1].spec_successors().len()
        &&& self.moves@[j] == self.moves@[j - 1].spec_successors()[self.indices@[j] as int]
        &&& self.moves@[j - 1].spec_is_valid_successor(self.moves@[j])
        &&& f2l_step(self.cubestates@[j - 1], self.moves@[j], self.tables, self.cubestates@[j])
        &&& self.cubestates@[j].wf()
    }

    /// The stacks are consistent through depth `k`; deeper entries may be
    /// stale while an advance is rewriting them.
    pub open spec fn wf_upto(&self, k: int) -> bool {
        &&& self.base_wf()
        &&& k < self.length
        &&& (k >= 0 ==> {
            &&& self.indices@[0] < 3
            &&& f2l_start(self.moves@[0], self.tables, self.cubestates@[0])
            &&& self.cubestates@[0].wf()
        })
        &&& forall|j: int| 1 <= j <= k ==> self.depth_link(j)
    }

    /// The stacks are consistent through the full depth.
    pub open spec fn wf(&self) -> bool {
        self.wf_upto(self.length as int - 1)
    }

    /// Cursors above depth `k` rest at the start of their lists.
    pub open spec fn zeros_above(&self, k: int) -> bool {
        forall|j: int| k < j < self.length ==> self.indices@[j] == 0
    }

    /// What an advance never touches.
    pub open spec fn same_frame(&self, other: &Self) -> bool {
        &&& self.tables == other.tables
        &&& self.succ@ == other.succ@
        &&& self.length == other.length
    }

    /// Between two snapshots of the enumerator, the advance happened at
    /// depth `d`: the cursor there moved forward, and every shallower depth
    /// kept its cursor, its move and its cube state.
    pub open spec fn advanced_at(pre: Self, post: Self, d: int) -> bool {
        &&& pre.indices@.len() == post.indices@.len()
        &&& pre.moves@.len() == post.moves@.len()
        &&& pre.cubestates@.len() == post.cubestates@.len()
        &&& 0 <= d < post.indices@.len()
        &&& post.indices@[d] > pre.indices@[d]
        &&& forall|j: int|
            0 <= j < d ==> post.indices@[j] == pre.indices@[j] && post.moves@[j] == pre.moves@[j]
                && post.cubestates@[j] == pre.cubestates@[j]
    }

    /// Some depth advanced and nothing shallower changed.
    pub open spec fn advanced(pre: Self, post: Self) -> bool {
        exists|d: int| Self::advanced_at(pre, post, d)
    }

    /// An advance is a lexicographic step forward of the cursor tuple.
    pub proof fn lemma_advanced_lex(pre: Self, post: Self)
        requires
            Self::advanced(pre, post),
        ensures
            lex_less(pre.indices@, post.indices@),
    {
        let d = choose|d: int| Self::advanced_at(pre, post, d);
        lemma_lex_less_intro(pre.indices@, post.indices@, d);
    }

    /// Two advances in sequence are one advance, at the shallower of the
    /// two depths.
    pub proof fn lemma_advanced_at_trans(a: Self, b: Self, c: Self, d1: int, d2: int) -> (d: int)
        requires
            Self::advanced_at(a, b, d1),
            Self::advanced_at(b, c, d2),
        ensures
            Self::advanced_at(a, c, d),
            d <= d1,
            d <= d2,
    {
        if d1 <= d2 {
            d1
        } else {
            d2
        }
    }

    /// The stack is the lexicographically first configuration of its
    /// depth: the first starting move at depth zero and every cursor at
    /// zero — under `wf`, each deeper move is then the first successor of
    /// its predecessor.
    pub open spec fn lex_first(&self) -> bool {
        &&& self.moves@[0] == Generator::spec_starting_moves()[0]
        &&& forall|j: int| 0 <= j < self.length ==> self.indices@[j] == 0
    }

    /// A fresh enumerator, ready to search the six-move sequences.
    pub fn new() -> (r: Self)
        ensures
            r.wf(),
            r.length == 6,
            r.lex_first(),
    {
        let tables = Tables::new();
        let succ = build_successor_lists();
        let mut iter = AlgorithmIterator {
            tables,
            succ,
            moves: Vec::new(),
            cubestates: Vec::new(),
            indices: Vec::new(),
            length: 1,
        };
        iter.initialize_with_length(6);
        iter
    }

    /// Rebuild the stacks for a search of the given depth, at the
    /// lexicographically first configuration: the first starting move at
    /// depth zero, every cursor at zero, and so each deeper depth at the
    /// first entry of its predecessor's successor list.
    fn initialize_with_length(&mut self, len: usize)
        requires
            old(self).tables.wf(),
            succ_ok(old(self).succ@),
            1 <= len <= MAX_LENGTH,
        ensures
            final(self).wf(),
            final(self).length == len,
            final(self).tables == old(self).tables,
            final(self).succ@ == old(self).succ@,
            final(self).lex_first(),
            forall|j: int|
                1 <= j < len ==> #[trigger] final(self).moves@[j] == final(self).moves@[j
                    - 1].spec_successors()[0],
    {
        let first = Generator::first();
        let c0 = F2LCubeState::new().apply(first, &self.tables);
        let mut moves: Vec<Generator> = Vec::new();
        let mut cubestates: Vec<F2LCubeState> = Vec::new();
        let mut indices: Vec<usize> = Vec::new();
        moves.push(first);
        cubestates.push(c0);
        indices.push(0);
        self.moves = moves;
        self.cubestates = cubestates;
        self.indices = indices;
        self.length = len;
        proof {
            assert(f2l_start(self.moves@[0], self.tables, self.cubestates@[0]));
        }
        let mut filled: usize = 1;
        while filled < len
            invariant
                1 <= filled <= len,
                self.length == len,
                self.moves@.len() == filled,
                self.cubestates@.len() == filled,
                self.indices@.len() == filled,
                self.tables.wf(),
                succ_ok(self.succ@),
                1 <= len <= MAX_LENGTH,
                self.tables == old(self).tables,
                self.succ@ == old(self).succ@,
                self.indices@[0] < 3,
                f2l_start(self.moves@[0], self.tables, self.cubestates@[0]),
                self.cubestates@[0].wf(),
                forall|j: int| 1 <= j < filled ==> self.depth_link(j),
                forall|j: int| 0 <= j < filled ==> self.indices@[j] == 0,
                self.moves@[0] == Generator::spec_starting_moves()[0],
                forall|j: int|
                    1 <= j < filled ==> #[trigger] self.moves@[j] == self.moves@[j
                        - 1].spec_successors()[0],
            decreases len - filled,
        {
            let last = self.moves[filled - 1];
            proof {
                lemma_successors_nonempty(last);
                lemma_of_index_roundtrip();
            }
            proof {
                assert(self.succ@[last.spec_index()]@ == last.spec_successors());
                if filled >= 2 {
                    assert(self.depth_link(filled - 1));
                }
            }
            let g = self.succ[last.index()][0];
            let c = self.cubestates[filled - 1].apply(g, &self.tables);
            proof {
                assert(g == last.spec_successors()[0]);
                assert(last.spec_successors().contains(g));
                lemma_successors_complete(last, g);
            }
            let ghost pre = *self;
            self.moves.push(g);
            self.cubestates.push(c);
            self.indices.push(0);
            proof {
                assert forall|j: int| 1 <= j < filled + 1 implies self.depth_link(j) by {
                    if j < filled {
                        assert(pre.depth_link(j));
                        assert(self.moves@[j] == pre.moves@[j]);
                        assert(self.moves@[j - 1] == pre.moves@[j - 1]);
                        assert(self.indices@[j] == pre.indices@[j]);
                        assert(self.cubestates@[j] == pre.cubestates@[j]);
                        assert(self.cubestates@[j - 1] == pre.cubestates@[j - 1]);
                    } else {
                        assert(self.moves@[j] == g);
                        assert(self.indices@[j] == 0);
                        assert(self.cubestates@[j] == c);
                        assert(self.moves@[j - 1] == last);
                    }
                }
            }
            filled = filled + 1;
        }
        proof {
            assert(self.wf());
        }
    }

    /// Advance the cursor at depth `i`, backtracking over exhausted lists.
    /// On success the advance stands at some depth `c` at most `i`: the
    /// cursor there moved one step, everything below it is untouched,
    /// everything above it rests at zero, and the stacks are consistent
    /// through `c`. `None` means every list from depth `i` down and the
    /// starting moves at depth zero were at their last entries: the whole
    /// depth is exhausted, the cursors at one and deeper are zeroed, and
    /// the depth-zero cursor stands one past its alphabet.
    fn backtrack_inc(&mut self, i: usize) -> (r: Option<usize>)
        requires
            old(self).base_wf(),
            i < old(self).length,
            old(self).wf_upto(i as int - 1),
            old(self).zeros_above(i as int),
            old(self).indices@[0] < 3,
            i >= 1 ==> old(self).indices@[i as int] < old(self).moves@[i
                - 1].spec_successors().len(),
        ensures
            final(self).same_frame(old(self)),
            match r {
                Some(c) => {
                    &&& c <= i
                    &&& c < final(self).length
                    &&& final(self).wf_upto(c as int)
                    &&& final(self).zeros_above(c as int)
                    &&& forall|j: int|
                        0 <= j < c ==> final(self).indices@[j] == old(self).indices@[j]
                            && final(self).moves@[j] == old(self).moves@[j]
                            && final(self).cubestates@[j] == old(self).cubestates@[j]
                    &&& final(self).indices@[c as int] == old(self).indices@[c as int] + 1
                    &&& Self::advanced_at(*old(self), *final(self), c as int)
                    &&& lex_less(old(self).indices@, final(self).indices@)
                    &&& (c == 0 ==> final(self).moves@[0]
                        == Generator::spec_starting_moves()[final(self).indices@[0] as int])
                },
                None => {
                    &&& final(self).base_wf()
                    &&& old(self).indices@[0] == 2
                    &&& final(self).indices@[0] == 3
                    &&& forall|j: int| 1 <= j < final(self).length ==> final(self).indices@[j] == 0
                    &&& forall|j: int|
                        1 <= j <= i ==> old(self).indices@[j] + 1 >= old(self).moves@[j
                            - 1].spec_successors().len()
                    &&& final(self).moves@ == old(self).moves@
                    &&& final(self).cubestates@ == old(self).cubestates@
                },
            },
    {
        let mut cursor = i;
        loop
            invariant
                self.base_wf(),
                cursor < self.length,
                cursor <= i,
                self.wf_upto(cursor as int - 1),
                self.zeros_above(cursor as int),
                self.indices@[0] < 3,
                cursor >= 1 ==> self.indices@[cursor as int] < self.moves@[cursor
                    - 1].spec_successors().len(),
                forall|j: int| 0 <= j <= cursor ==> self.indices@[j] == old(self).indices@[j],
                self.indices@.len() == old(self).indices@.len(),
                self.same_frame(old(self)),
                self.moves@ == old(self).moves@,
                self.cubestates@ == old(self).cubestates@,
                forall|j: int|
                    cursor < j <= i ==> old(self).indices@[j] + 1 >= old(self).moves@[j
                        - 1].spec_successors().len(),
            decreases cursor,
        {
            if cursor == 0 {
                let ni = self.indices[0] + 1;
                self.indices[0] = ni;
                if ni >= 3 {
                    proof {
                        assert(old(self).indices@[0] == 2);
                        assert(self.indices@[0] == 3);
                        assert(forall|j: int| 1 <= j < self.length ==> self.indices@[j] == 0);
                    }
                    return None;
                }
                let sm = Generator::starting_moves();
                let g = sm[ni];
                let c0 = F2LCubeState::new().apply(g, &self.tables);
                self.moves[0] = g;
                self.cubestates[0] = c0;
                proof {
                    assert(self.wf_upto(0));
                    assert(self.indices@[0] == old(self).indices@[0] + 1);
                    assert(old(self).indices@[0] < self.indices@[0]);
                    lemma_lex_less_intro(old(self).indices@, self.indices@, 0);
                    assert(Self::advanced_at(*old(self), *self, 0));
                    assert(self.moves@[0] == Generator::spec_starting_moves()[self.indices@[0] as int]);
                }
                return Some(0);
            } else {
                let prev = self.moves[cursor - 1];
                proof {
                    lemma_of_index_roundtrip();
                }
                let cap = self.succ[prev.index()].len();
                let ni = self.indices[cursor] + 1;
                if ni >= cap {
                    let ghost pre = *self;
                    self.indices[cursor] = 0;
                    proof {
                        assert forall|j: int| 1 <= j <= cursor - 2 implies self.depth_link(j) by {
                            assert(pre.depth_link(j));
                        }
                        if cursor >= 2 {
                            assert(pre.depth_link(cursor - 1));
                            assert(self.depth_link(cursor - 1));
                        }
                        assert(self.wf_upto(cursor - 2));
                        assert(self.succ@[prev.spec_index()]@ == prev.spec_successors());
                        assert(cap == prev.spec_successors().len());
                        assert(old(self).indices@[cursor as int] + 1
                            >= old(self).moves@[cursor - 1].spec_successors().len());
                    }
                    cursor = cursor - 1;
                } else {
                    let ghost pre2 = *self;
                    proof {
                        assert(pre2.wf_upto(cursor as int - 1));
                        if cursor >= 2 {
                            assert(self.depth_link(cursor - 1));
                        }
                    }
                    self.indices[cursor] = ni;
                    let g = self.succ[prev.index()][ni];
                    let c = self.cubestates[cursor - 1].apply(g, &self.tables);
                    proof {
                        assert(self.succ@[prev.spec_index()]@ == prev.spec_successors());
                        assert(g == prev.spec_successors()[ni as int]);
                        assert(prev.spec_successors().contains(g));
                        lemma_successors_complete(prev, g);
                    }
                    self.moves[cursor] = g;
                    self.cubestates[cursor] = c;
                    proof {
                        assert forall|j: int| 1 <= j < cursor implies self.depth_link(j) by {
                            assert(pre2.depth_link(j));
                            assert(self.indices@[j] == pre2.indices@[j]);
                            assert(self.moves@[j] == pre2.moves@[j]);
                            assert(self.moves@[j - 1] == pre2.moves@[j - 1]);
                            assert(self.cubestates@[j] == pre2.cubestates@[j]);
                            assert(self.cubestates@[j - 1] == pre2.cubestates@[j - 1]);
                        }
                        assert(self.depth_link(cursor as int));
                        assert(self.wf_upto(cursor as int));
                        assert(self.indices@[cursor as int] == old(self).indices@[cursor as int]
                            + 1);
                        assert(old(self).indices@[cursor as int] < self.indices@[cursor as int]);
                        assert(forall|j: int|
                            0 <= j < cursor ==> self.indices@[j] == old(self).indices@[j]);
                        assert(forall|j: int|
                            0 <= j < cursor ==> self.moves@[j] == old(self).moves@[j]
                                && self.cubestates@[j] == old(self).cubestates@[j]);
                        lemma_lex_less_intro(old(self).indices@, self.indices@, cursor as int);
                        assert(Self::advanced_at(*old(self), *self, cursor as int));
                    }
                    return Some(cursor);
                }
            }
        }
    }

    /// Advance to the next unpruned full-depth configuration at or after
    /// the cursor at depth `i`, skipping every pruned branch. `true`
    /// leaves a consistent full stack, advanced at some depth with
    /// everything shallower untouched; `false` means this whole depth is
    /// exhausted: the depth-zero cursor stands one past the starting
    /// moves and every deeper cursor is zero.
    fn inc_idx(&mut self, i: usize) -> (r: bool)
        requires
            old(self).base_wf(),
            i < old(self).length,
            old(self).wf_upto(i as int - 1),
            old(self).zeros_above(i as int),
            old(self).indices@[0] < 3,
            i >= 1 ==> old(self).indices@[i as int] < old(self).moves@[i
                - 1].spec_successors().len(),
        ensures
            final(self).same_frame(old(self)),
            r ==> final(self).wf() && Self::advanced(*old(self), *final(self)) && lex_less(
                old(self).indices@,
                final(self).indices@,
            ),
            !r ==> {
                &&& final(self).base_wf()
                &&& final(self).indices@[0] == 3
                &&& forall|j: int| 1 <= j < final(self).length ==> final(self).indices@[j] == 0
            },
    {
        let mut from = i;
        loop
            invariant
                self.base_wf(),
                from < self.length,
                self.wf_upto(from as int - 1),
                self.zeros_above(from as int),
                self.indices@[0] < 3,
                from >= 1 ==> self.indices@[from as int] < self.moves@[from
                    - 1].spec_successors().len(),
                self.same_frame(old(self)),
                *self == *old(self) || Self::advanced(*old(self), *self),
            decreases pow18(self.length as nat) - cursor_value(self.indices@),
        {
            let ghost head = *self;
            match self.backtrack_inc(from) {
                None => {
                    return false;
                },
                Some(c) => {
                    let ghost mut dd: int = c as int;
                    proof {
                        assert(Self::advanced_at(head, *self, c as int));
                        if head != *old(self) {
                            let dh = choose|d: int| Self::advanced_at(*old(self), head, d);
                            dd = Self::lemma_advanced_at_trans(
                                *old(self),
                                head,
                                *self,
                                dh,
                                c as int,
                            );
                        }
                        assert(Self::advanced_at(*old(self), *self, dd));
                        assert(dd <= c as int);
                    }
                    let ghost after_inc = self.indices@;
                    let mut fj = c;
                    let mut pruned = false;
                    let mut filled = false;
                    while !pruned && !filled
                        invariant
                            self.base_wf(),
                            c <= fj < self.length,
                            self.wf_upto(fj as int),
                            self.zeros_above(fj as int),
                            self.indices@[0] < 3,
                            self.same_frame(old(self)),
                            self.indices@ == after_inc,
                            Self::advanced_at(*old(self), *self, dd),
                            Self::advanced_at(head, *self, c as int),
                            dd <= fj,
                            filled ==> fj == self.length - 1,
                        decreases 2 * (self.length - fj) + (if !pruned && !filled {
                            1int
                        } else {
                            0int
                        }),
                    {
                        proof {
                            if fj >= 1 {
                                assert(self.depth_link(fj as int));
                            }
                        }
                        let remaining = (self.length - 1 - fj) as u16;
                        if self.cubestates[fj].prunable(remaining, &self.tables) {
                            pruned = true;
                        } else if fj + 1 >= self.length {
                            filled = true;
                        } else {
                            let prev = self.moves[fj];
                            proof {
                                lemma_successors_nonempty(prev);
                                lemma_of_index_roundtrip();
                            }
                            let ghost pre3 = *self;
                            let g = self.succ[prev.index()][0];
                            let cnew = self.cubestates[fj].apply(g, &self.tables);
                            proof {
                                assert(self.succ@[prev.spec_index()]@ == prev.spec_successors());
                                assert(g == prev.spec_successors()[0]);
                                assert(prev.spec_successors().contains(g));
                                lemma_successors_complete(prev, g);
                            }
                            self.moves[fj + 1] = g;
                            self.cubestates[fj + 1] = cnew;
                            proof {
                                assert forall|j: int| 1 <= j <= fj implies self.depth_link(j) by {
                                    assert(pre3.depth_link(j));
                                    assert(self.indices@[j] == pre3.indices@[j]);
                                    assert(self.moves@[j] == pre3.moves@[j]);
                                    assert(self.moves@[j - 1] == pre3.moves@[j - 1]);
                                    assert(self.cubestates@[j] == pre3.cubestates@[j]);
                                    assert(self.cubestates@[j - 1] == pre3.cubestates@[j - 1]);
                                }
                                assert(self.indices@[fj + 1] == 0);
                                assert(self.depth_link(fj + 1));
                                assert(self.wf_upto(fj + 1));
                                assert(forall|j: int|
                                    0 <= j < c ==> self.moves@[j] == pre3.moves@[j]
                                        && self.cubestates@[j] == pre3.cubestates@[j]);
                                assert(Self::advanced_at(*old(self), *self, dd));
                                assert(Self::advanced_at(head, *self, c as int));
                            }
                            fj = fj + 1;
                        }
                    }
                    if filled {
                        proof {
                            Self::lemma_advanced_lex(*old(self), *self);
                        }
                        return true;
                    }
                    proof {
                        if fj >= 1 {
                            assert(self.depth_link(fj as int));
                        }
                        lemma_indices_lt_18(&head, from as int);
                        Self::lemma_advanced_lex(head, *self);
                        lemma_cursor_value_lex(head.indices@, self.indices@);
                        lemma_indices_lt_18(self, fj as int);
                        lemma_cursor_value_bounds(self.indices@);
                        lemma_cursor_value_bounds(head.indices@);
                    }
                    from = fj;
                },
            }
        }
    }

    /// Advance to the next unpruned leaf, growing the search depth by one
    /// whenever the current depth is exhausted. `false` only when the
    /// depth cap itself is exhausted: the enumerator then stands freshly
    /// initialized at the cap.
    fn increment_to_next_cube(&mut self) -> (r: bool)
        requires
            old(self).wf(),
        ensures
            final(self).tables == old(self).tables,
            final(self).succ@ == old(self).succ@,
            final(self).length >= old(self).length,
            final(self).wf(),
            r ==> final(self).length > old(self).length || (final(self).length == old(
                self,
            ).length && Self::advanced(*old(self), *final(self)) && lex_less(
                old(self).indices@,
                final(self).indices@,
            )),
            !r ==> final(self).length == MAX_LENGTH && final(self).lex_first(),
    {
        loop
            invariant
                self.wf(),
                self.tables == old(self).tables,
                self.succ@ == old(self).succ@,
                old(self).length <= self.length <= MAX_LENGTH,
                self.length == old(self).length ==> (*self == *old(self) || Self::advanced(
                    *old(self),
                    *self,
                )),
            decreases MAX_LENGTH - self.length,
        {
            let last = self.length - 1;
            proof {
                assert(self.zeros_above(last as int));
                if last >= 1 {
                    assert(self.depth_link(last as int));
                }
            }
            let ghost head = *self;
            if self.inc_idx(last) {
                proof {
                    if self.length == old(self).length {
                        if head != *old(self) {
                            let dh = choose|d: int| Self::advanced_at(*old(self), head, d);
                            let dc = choose|d: int| Self::advanced_at(head, *self, d);
                            let d = Self::lemma_advanced_at_trans(*old(self), head, *self, dh, dc);
                        }
                        Self::lemma_advanced_lex(*old(self), *self);
                    }
                }
                return true;
            } else {
                if self.length + 1 > MAX_LENGTH {
                    let l = self.length;
                    self.initialize_with_length(l);
                    return false;
                }
                let l = self.length + 1;
                self.initialize_with_length(l);
            }
        }
    }

    /// Whether the current leaf ends in a move the final U-face adjustment
    /// absorbs.
    fn ending_in_u_move(&self) -> (r: bool)
        requires
            self.moves@.len() >= 1,
        ensures
            r == spec_ending_in_u(self.moves@),
    {
        let n = self.moves.len();
        self.moves[n - 1].is_u_move() || (n >= 2 && self.moves[n - 2].is_u_move()
            && self.moves[n - 1].is_d_move())
    }

    /// The composite state at the current leaf.
    fn current_cube(&self) -> (r: F2LCubeState)
        requires
            self.cubestates@.len() >= 1,
        ensures
            r == self.cubestates@[self.cubestates@.len() - 1],
    {
        self.cubestates[self.cubestates.len() - 1]
    }

    /// The next accepted algorithm, in its best-scoring rotation: the leaf
    /// state is a last-layer case, the sequence does not end in a move the
    /// final U-face adjustment absorbs — nor does its presentation — and
    /// the search depth never shrinks. `None` only once the whole search
    /// space up to the depth cap is exhausted: until then an accepted leaf
    /// is found and returned.
    pub fn next(&mut self) -> (r: Option<Algorithm>)
        requires
            old(self).wf(),
        ensures
            final(self).wf(),
            final(self).length >= old(self).length,
            match r {
                Some(alg) => {
                    &&& (final(self).length > old(self).length || (final(self).length == old(
                        self,
                    ).length && Self::advanced(*old(self), *final(self)) && lex_less(
                        old(self).indices@,
                        final(self).indices@,
                    )))
                    &&& final(self).moves@.len() == final(self).length
                    &&& final(self).length >= 1
                    &&& spec_f2l_is_ll(spec_cube_of(final(self).moves@))
                    &&& !spec_ending_in_u(final(self).moves@)
                    &&& crate::algorithm::pairs_valid(final(self).moves@)
                    &&& alg.moves@.len() == final(self).length
                    &&& spec_f2l_is_ll(spec_cube_of(alg.moves@))
                    &&& !spec_ending_in_u(alg.moves@)
                    &&& forall|j: int|
                        0 <= j < 4 ==> spec_score_moves(alg.moves@) >= spec_score_moves(
                            #[trigger] spec_rotate_k(alg.moves@, j),
                        )
                    &&& exists|k: int|
                        {
                            &&& 0 <= k < 4
                            &&& alg.moves@ == #[trigger] spec_rotate_k(final(self).moves@, k)
                            &&& forall|j: int|
                                0 <= j < 4 ==> spec_score_moves(alg.moves@) >= spec_score_moves(
                                    #[trigger] spec_rotate_k(final(self).moves@, j),
                                )
                        }
                },
                None => final(self).length == MAX_LENGTH && final(self).lex_first(),
            },
    {
        loop
            invariant
                self.wf(),
                self.length >= old(self).length,
                self.length == old(self).length ==> (*self == *old(self) || (Self::advanced(
                    *old(self),
                    *self,
                ) && lex_less(old(self).indices@, self.indices@))),
            decreases MAX_LENGTH - self.length, pow18(self.length as nat) - cursor_value(
                self.indices@,
            ),
        {
            let ghost head = *self;
            let stepped = self.increment_to_next_cube();
            proof {
                if stepped && self.length == old(self).length {
                    if head != *old(self) {
                        let dh = choose|d: int| Self::advanced_at(*old(self), head, d);
                        let dc = choose|d: int| Self::advanced_at(head, *self, d);
                        let d = Self::lemma_advanced_at_trans(*old(self), head, *self, dh, dc);
                    }
                    Self::lemma_advanced_lex(*old(self), *self);
                }
                if stepped && self.length == head.length {
                    lemma_wf_cursor_bounds(&head);
                    lemma_wf_cursor_bounds(self);
                    lemma_cursor_value_lex(head.indices@, self.indices@);
                }
            }
            if !stepped {
                return None;
            }
            let cc = self.current_cube();
            proof {
                if self.length >= 2 {
                    assert(self.depth_link(self.length as int - 1));
                }
                lemma_chain_cube(self, self.length as int - 1);
                assert(self.moves@.take(self.length as int) =~= self.moves@);
            }
            let ending = self.ending_in_u_move();
            if !ending && cc.is_ll() {
                let alg = Algorithm { moves: copy_moves(&self.moves) };
                let best = alg.best_rotation();
                proof {
                    assert forall|j: int|
                        1 <= j < self.moves@.len() implies self.moves@[j
                        - 1].spec_is_valid_successor(#[trigger] self.moves@[j]) by {
                        assert(self.depth_link(j));
                    }
                    let k = choose|k: int|
                        {
                            &&& 0 <= k < 4
                            &&& best.moves@ == #[trigger] spec_rotate_k(alg.moves@, k)
                            &&& forall|j: int|
                                0 <= j < 4 ==> spec_score_moves(best.moves@) >= spec_score_moves(
                                    #[trigger] spec_rotate_k(alg.moves@, j),
                                )
                        };
                    crate::algorithm::lemma_rotate_k_len(alg.moves@, k);
                    crate::algorithm::lemma_rotate_k_preserves_ll(alg.moves@, k);
                    crate::algorithm::lemma_best_rotation_of_self(alg.moves@, best.moves@, k);
                    lemma_rotate_k_ending_u(alg.moves@, k);
                }
                return Some(best);
            }
        }
    }

    /// Resume the enumeration just after a given algorithm: parse it, turn
    /// it to its canonical rotation — the y rotation whose first non-U,
    /// non-D move has face R — and rebuild the stacks as if the search had
    /// just produced that sequence, the depth-zero cursor set by that first
    /// side move's modifier. An algorithm of only U and D moves, or an
    /// empty one, starts a fresh enumeration. Fails with the parse error of
    /// a bad string, or with the offending pair where the canonical
    /// rotation of the sequence leaves the grammar.
    pub fn from_starting_algorithm(s: &str) -> (r: Result<Self, LLAError>)
        requires
            s@.len() <= MAX_LENGTH,
        ensures
            match r {
                Ok(it) => {
                    &&& it.wf()
                    &&& crate::algorithm::all_tokens_valid(s@)
                    &&& crate::algorithm::pairs_valid(spec_parsed(s@))
                    &&& (match spec_first_non_ud(spec_parsed(s@)) {
                        None => it.length == 6 && it.lex_first(),
                        Some(i) => {
                            &&& it.length == spec_parsed(s@).len()
                            &&& exists|k: int|
                                0 <= k < 4 && it.moves@ == #[trigger] spec_rotate_k(
                                    spec_parsed(s@),
                                    k,
                                )
                            &&& spec_first_non_ud(it.moves@) == Some(i)
                            &&& it.moves@[i].face == Face::R
                            &&& it.moves@[i].modifier == spec_parsed(s@)[i].modifier
                            &&& it.indices@[0] == it.moves@[i].modifier.spec_index()
                        },
                    })
                },
                Err(e) => crate::algorithm::parse_err(s@, e) || (match e {
                    LLAError::InvalidPair(a, b) => {
                        &&& !a.spec_is_valid_successor(b)
                        &&& spec_first_non_ud(spec_parsed(s@)) is Some
                        &&& exists|k: int, idx: int|
                            {
                                &&& 0 <= k < 4
                                &&& 1 <= idx < spec_parsed(s@).len()
                                &&& a == #[trigger] spec_rotate_k(spec_parsed(s@), k)[idx - 1]
                                &&& b == spec_rotate_k(spec_parsed(s@), k)[idx]
                                &&& spec_first_non_ud(spec_rotate_k(spec_parsed(s@), k))
                                    == spec_first_non_ud(spec_parsed(s@))
                                &&& spec_rotate_k(spec_parsed(s@), k)[spec_first_non_ud(
                                    spec_parsed(s@),
                                )->Some_0].face == Face::R
                            }
                    },
                    _ => false,
                }),
            },
    {
        let alg = match Algorithm::parse(s) {
            Ok(a) => a,
            Err(e) => {
                return Err(e);
            },
        };
        proof {
            crate::algorithm::lemma_tokens_bound(s@, 0);
            assert(alg.moves@ =~= spec_parsed(s@));
        }
        let canon = alg.canonical_rotation();
        if canon.moves.len() == 0 {
            return Ok(Self::new());
        }
        let first = match canon.first_non_ud_move() {
            Some(m) => m,
            None => {
                return Ok(Self::new());
            },
        };
        proof {
            if spec_first_non_ud(alg.moves@) is Some {
                let k = choose|k: int|
                    {
                        &&& 0 <= k < 4
                        &&& canon.moves@ == #[trigger] spec_rotate_k(alg.moves@, k)
                        &&& spec_first_non_ud(canon.moves@) == spec_first_non_ud(alg.moves@)
                        &&& canon.moves@[spec_first_non_ud(alg.moves@)->Some_0].face == Face::R
                    };
                crate::algorithm::lemma_rotate_k_len(alg.moves@, k);
            }
        }
        let i0: usize = match first.components().1 {
            Modifier::Normal => 0,
            Modifier::Twice => 1,
            Modifier::Prime => 2,
        };
        proof {
            let fi = spec_first_non_ud(alg.moves@)->Some_0;
            assert(spec_first_non_ud(canon.moves@) == spec_first_non_ud(alg.moves@));
            assert(first == canon.moves@[fi]);
            assert(i0 as int == canon.moves@[fi].modifier.spec_index());
        }
        let tables = Tables::new();
        let succ = build_successor_lists();
        let cubestates = canon.cubestates_stack(&tables);
        let n = canon.moves.len();
        proof {
            assert(spec_first_non_ud(alg.moves@) is Some);
            assert(exists|k: int|
                0 <= k < 4 && canon.moves@ == #[trigger] spec_rotate_k(alg.moves@, k));
        }
        let mut indices: Vec<usize> = Vec::new();
        indices.push(i0);
        let mut i: usize = 1;
        while i < n
            invariant
                1 <= i <= n,
                n == canon.moves@.len(),
                succ_ok(succ@),
                indices@.len() == i,
                indices@[0] == i0 < 3,
                alg.moves@ == spec_parsed(s@),
                exists|k: int|
                    0 <= k < 4 && canon.moves@ == #[trigger] spec_rotate_k(alg.moves@, k),
                spec_first_non_ud(alg.moves@) is Some,
                spec_first_non_ud(canon.moves@) == spec_first_non_ud(alg.moves@),
                canon.moves@[spec_first_non_ud(alg.moves@)->Some_0].face == Face::R,
                i0 as int == canon.moves@[spec_first_non_ud(
                    alg.moves@,
                )->Some_0].modifier.spec_index(),
                forall|j: int|
                    1 <= j < i ==> {
                        &&& #[trigger] indices@[j] < canon.moves@[j - 1].spec_successors().len()
                        &&& canon.moves@[j] == canon.moves@[j - 1].spec_successors()[indices@[j] as int]
                        &&& canon.moves@[j - 1].spec_is_valid_successor(canon.moves@[j])
                    },
            decreases n - i,
        {
            let prev = canon.moves[i - 1];
            let cur = canon.moves[i];
            match find_successor(&succ, prev, cur) {
                Some(pos) => {
                    proof {
                        assert(prev.spec_successors().contains(cur)) by {
                            assert(prev.spec_successors()[pos as int] == cur);
                        }
                        lemma_successors_complete(prev, cur);
                    }
                    indices.push(pos);
                },
                None => {
                    proof {
                        lemma_successors_complete(prev, cur);
                        lemma_of_index_roundtrip();
                        assert(!prev.spec_is_valid_successor(cur));
                        let k = choose|k: int|
                            0 <= k < 4 && canon.moves@ == #[trigger] spec_rotate_k(
                                alg.moves@,
                                k,
                            );
                        crate::algorithm::lemma_rotate_k_len(alg.moves@, k);
                        assert(prev == spec_rotate_k(spec_parsed(s@), k)[i - 1]);
                        assert(cur == spec_rotate_k(spec_parsed(s@), k)[i as int]);
                        assert(spec_first_non_ud(spec_rotate_k(spec_parsed(s@), k))
                            == spec_first_non_ud(spec_parsed(s@)));
                        assert(spec_rotate_k(spec_parsed(s@), k)[spec_first_non_ud(
                            spec_parsed(s@),
                        )->Some_0].face == Face::R);
                    }
                    return Err(LLAError::InvalidPair(prev, cur));
                },
            }
            i = i + 1;
        }
        let it = AlgorithmIterator {
            tables,
            succ,
            cubestates,
            moves: canon.moves,
            indices,
            length: n,
        };
        proof {
            assert(it.base_wf());
            assert(f2l_start(it.moves@[0], it.tables, it.cubestates@[0]));
            assert forall|j: int| 1 <= j <= n - 1 implies it.depth_link(j) by {
                assert(f2l_step(it.cubestates@[j - 1], it.moves@[j], it.tables, it.cubestates@[j]));
            }
            assert(it.wf());
            let fi = spec_first_non_ud(alg.moves@)->Some_0;
            crate::algorithm::lemma_first_non_ud_props(alg.moves@, 0);
            assert(spec_first_non_ud(it.moves@) == Some(fi));
            assert(it.moves@[fi].face == Face::R);
            let k = choose|k: int|
                0 <= k < 4 && canon.moves@ == #[trigger] spec_rotate_k(alg.moves@, k);
            crate::algorithm::lemma_rotate_k_modifier(alg.moves@, k, fi);
            assert(it.moves@[fi].modifier == spec_parsed(s@)[fi].modifier);
            assert(it.indices@[0] as int == it.moves@[fi].modifier.spec_index());
        }
        Ok(it)
    }
}

/// The eighteen successor lists, one per move index.
fn build_successor_lists() -> (succ: Vec<Vec<Generator>>)
    ensures
        succ_ok(succ@),
{
    let mut succ: Vec<Vec<Generator>> = Vec::new();
    let mut k: usize = 0;
    while k < 18
        invariant
            k <= 18,
            succ@.len() == k,
            forall|j: int|
                0 <= j < k ==> (#[trigger] succ@[j])@ == Generator::spec_of_index(
                    j,
                ).spec_successors(),
        decreases 18 - k,
    {
        succ.push(Generator::of_index(k).successors());
        k = k + 1;
    }
    succ
}

/// The position of `cur` inside `prev`'s successor list, if it is there.
fn find_successor(succ: &Vec<Vec<Generator>>, prev: Generator, cur: Generator) -> (r: Option<
    usize,
>)
    requires
        succ_ok(succ@),
    ensures
        match r {
            Some(p) => p < prev.spec_successors().len() && prev.spec_successors()[p as int]
                == cur,
            None => !prev.spec_successors().contains(cur),
        },
{
    proof {
        lemma_of_index_roundtrip();
    }
    let lst_len = succ[prev.index()].len();
    let mut pos: usize = 0;
    while pos < lst_len
        invariant
            succ_ok(succ@),
            lst_len == prev.spec_successors().len(),
            pos <= lst_len,
            forall|q: int| 0 <= q < pos ==> prev.spec_successors()[q] != cur,
        decreases lst_len - pos,
    {
        proof {
            lemma_of_index_roundtrip();
        }
        if succ[prev.index()][pos] == cur {
            return Some(pos);
        }
        pos = pos + 1;
    }
    proof {
        assert forall|q: int| 0 <= q < prev.spec_successors().len() implies prev.spec_successors()[q]
            != cur by {}
    }
    None
}

/// Every cursor of a stack consistent through depth `k` with zeros above
/// is a starting-move slot or a position in a successor list, so it is
/// below eighteen.
proof fn lemma_indices_lt_18(it: &AlgorithmIterator, k: int)
    requires
        it.base_wf(),
        0 <= k < it.length,
        it.wf_upto(k - 1),
        it.zeros_above(k),
        it.indices@[0] < 3,
        k >= 1 ==> it.indices@[k] < it.moves@[k - 1].spec_successors().len(),
    ensures
        forall|j: int| 0 <= j < it.indices@.len() ==> it.indices@[j] < 18,
{
    assert forall|j: int| 0 <= j < it.indices@.len() implies it.indices@[j] < 18 by {
        if j == 0 {
        } else if j < k {
            assert(it.depth_link(j));
            lemma_successors_len(it.moves@[j - 1]);
        } else if j == k {
            lemma_successors_len(it.moves@[k - 1]);
        } else {
            assert(it.indices@[j] == 0);
        }
    }
}

/// Every cursor of a fully consistent stack is below eighteen, so the
/// base-eighteen value of the cursor tuple is below the power of the
/// depth.
proof fn lemma_wf_cursor_bounds(it: &AlgorithmIterator)
    requires
        it.wf(),
    ensures
        forall|j: int| 0 <= j < it.indices@.len() ==> it.indices@[j] < 18,
        0 <= cursor_value(it.indices@) < pow18(it.indices@.len() as nat),
{
    let k = it.length as int - 1;
    if k >= 1 {
        assert(it.depth_link(k));
    }
    lemma_indices_lt_18(it, k);
    lemma_cursor_value_bounds(it.indices@);
}

/// A y rotation fixes the U and D faces, so it keeps whether a sequence
/// ends in a move the final U-face adjustment absorbs.
proof fn lemma_rotate_k_ending_u(m: Seq<Generator>, k: int)
    ensures
        spec_ending_in_u(spec_rotate_k(m, k)) == spec_ending_in_u(m),
    decreases k,
{
    if k > 0 {
        lemma_rotate_k_ending_u(m, k - 1);
        let p = spec_rotate_k(m, k - 1);
        let q = crate::algorithm::spec_rotate_moves(p);
        if p.len() > 0 {
            assert(q.last() == p.last().spec_rotate_y());
            if p.len() >= 2 {
                assert(q[q.len() - 2] == p[p.len() - 2].spec_rotate_y());
            }
        }
    }
}

/// The sticker state at a consistent depth is the one the move prefix
/// reaches from solved.
proof fn lemma_chain_cube(it: &AlgorithmIterator, k: int)
    requires
        it.wf_upto(k),
        0 <= k < it.length,
    ensures
        it.cubestates@[k].cubestate.state@ == spec_cube_of(it.moves@.take(k + 1)),
    decreases k,
{
    if k == 0 {
        assert(f2l_start(it.moves@[0], it.tables, it.cubestates@[0]));
        let t1 = it.moves@.take(1);
        assert(t1.len() == 1);
        assert(t1.drop_last() =~= Seq::<Generator>::empty());
        assert(t1.last() == it.moves@[0]);
        assert(spec_cube_of(t1.drop_last()) == spec_solved());
        assert(spec_cube_of(t1) == spec_compose(
            spec_cube_of(t1.drop_last()),
            t1.last().spec_effect(),
        ));
    } else {
        assert(it.wf_upto(k - 1));
        lemma_chain_cube(it, k - 1);
        assert(it.depth_link(k));
        assert(it.moves@.take(k + 1).drop_last() =~= it.moves@.take(k));
        assert(it.moves@.take(k + 1).last() == it.moves@[k]);
    }
}

} // verus!
