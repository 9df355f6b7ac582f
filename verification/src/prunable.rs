//! The protocol a coordinate space offers the table builder, and the
//! builders themselves: a transition table filled by a depth-first search
//! from the solved position, and a pruning table relaxed to a fixpoint, so
//! that each pruning entry is an admissible lower bound on the moves needed
//! to reach an entry of zero.

use vstd::prelude::*;

verus! {

/// A coordinate space over which transition and pruning tables can be
/// built. The representation of a position is a short sequence of small
/// integers; `spec_index_of` hashes it into `0..spec_total()`.
pub trait Prunable: Sized + Copy {
    /// The mathematical value of this position.
    spec fn repr(&self) -> Seq<u8>;

    /// Which representations are well formed.
    spec fn wf_repr(v: Seq<u8>) -> bool;

    /// The representation reached from `v` by the move with index `m`.
    spec fn spec_apply(v: Seq<u8>, m: int) -> Seq<u8>;

    /// The perfect-hash index of a representation.
    spec fn spec_index_of(v: Seq<u8>) -> int;

    /// Whether the first two layers are solved in this projection.
    spec fn spec_solved_at(v: Seq<u8>) -> bool;

    /// The representation of the solved cube.
    spec fn spec_initial() -> Seq<u8>;

    /// The number of distinct indices.
    spec fn spec_total() -> int;

    fn total_states() -> (n: usize)
        ensures
            n as int == Self::spec_total(),
            n >= 1,
    ;

    fn initial_pos() -> (r: Self)
        ensures
            r.repr() == Self::spec_initial(),
            Self::wf_repr(r.repr()),
    ;

    fn apply_idx(&self, idx: usize) -> (r: Self)
        requires
            Self::wf_repr(self.repr()),
            idx < 18,
        ensures
            r.repr() == Self::spec_apply(self.repr(), idx as int),
            Self::wf_repr(r.repr()),
    ;

    fn is_solved(&self) -> (b: bool)
        requires
            Self::wf_repr(self.repr()),
        ensures
            b == Self::spec_solved_at(self.repr()),
    ;

    fn index(&self) -> (i: usize)
        requires
            Self::wf_repr(self.repr()),
        ensures
            i as int == Self::spec_index_of(self.repr()),
            i < Self::spec_total(),
    ;
}

/// Every entry of the table names a state index.
pub open spec fn table_in_range(t: Seq<[usize; 18]>, total: int) -> bool {
    forall|i: int, m: int| 0 <= i < t.len() && 0 <= m < 18 ==> t[i]@[m] < total
}

/// No move lowers the pruning bound by more than one: the entries form a
/// fixpoint of the one-step relaxation over the transition table.
pub open spec fn prune_consistent(t: Seq<[usize; 18]>, p: Seq<u16>) -> bool {
    forall|i: int, m: int|
        0 <= i < t.len() && 0 <= m < 18 ==> p[i] <= p[t[i]@[m] as int] + 1
}

/// The state index reached from `i` by following `path` through the table.
pub open spec fn follow(t: Seq<[usize; 18]>, i: int, path: Seq<int>) -> int
    decreases path.len(),
{
    if path.len() == 0 {
        i
    } else {
        follow(t, t[i]@[path[0]] as int, path.skip(1))
    }
}

/// A path is a sequence of move indices.
pub open spec fn path_ok(path: Seq<int>) -> bool {
    forall|k: int| 0 <= k < path.len() ==> 0 <= #[trigger] path[k] < 18
}

/// The representation reached from `v` by a sequence of moves.
pub open spec fn apply_path<T: Prunable>(v: Seq<u8>, path: Seq<int>) -> Seq<u8>
    decreases path.len(),
{
    if path.len() == 0 {
        v
    } else {
        apply_path::<T>(T::spec_apply(v, path[0]), path.skip(1))
    }
}

/// The pruning entries are admissible: along any move path, the bound at
/// the start exceeds the bound at the end by at most the path's length. In
/// particular no path shorter than `p[i]` can reach an entry of zero, so a
/// branch whose remaining depth is below its pruning bound is dead.
pub proof fn lemma_pruning_admissible(t: Seq<[usize; 18]>, p: Seq<u16>, i: int, path: Seq<int>)
    requires
        t.len() == p.len(),
        table_in_range(t, t.len() as int),
        prune_consistent(t, p),
        0 <= i < t.len(),
        path_ok(path),
    ensures
        0 <= follow(t, i, path) < t.len(),
        p[i] <= p[follow(t, i, path)] + path.len(),
    decreases path.len(),
{
    if path.len() > 0 {
        let j = t[i]@[path[0]] as int;
        assert(path_ok(path.skip(1))) by {
            assert(forall|k: int|
                0 <= k < path.skip(1).len() ==> path.skip(1)[k] == path[k + 1]);
        }
        lemma_pruning_admissible(t, p, j, path.skip(1));
    }
}

/// Row `i` of the table records, for some position hashing to `i`, where
/// each of the eighteen moves leads.
pub open spec fn row_witnessed<T: Prunable>(t: Seq<[usize; 18]>, i: int) -> bool {
    exists|v: Seq<u8>|
        {
            &&& #[trigger] T::wf_repr(v)
            &&& T::spec_index_of(v) == i
            &&& forall|m: int| 0 <= m < 18 ==> #[trigger] t[i]@[m] == T::spec_index_of(T::spec_apply(v, m))
        }
}

/// Some position that is F2L-solved in this projection hashes to `i`.
pub open spec fn solved_index<T: Prunable>(i: int) -> bool {
    exists|v: Seq<u8>|
        {
            &&& #[trigger] T::wf_repr(v)
            &&& T::spec_index_of(v) == i
            &&& T::spec_solved_at(v)
        }
}

/// Row `i` was never reached and rests at zero.
pub open spec fn row_zero(t: Seq<[usize; 18]>, i: int) -> bool {
    forall|m: int| 0 <= m < 18 ==> #[trigger] t[i]@[m] == 0
}

/// One position settles row `i` and its solved flag together: it hashes to
/// `i`, the row records where each move takes it, and the flag says whether
/// it is F2L-solved.
pub open spec fn row_settled<T: Prunable>(t: Seq<[usize; 18]>, flags: Seq<bool>, i: int) -> bool {
    exists|v: Seq<u8>|
        {
            &&& #[trigger] T::wf_repr(v)
            &&& T::spec_index_of(v) == i
            &&& forall|m: int| 0 <= m < 18 ==> #[trigger] t[i]@[m] == T::spec_index_of(T::spec_apply(v, m))
            &&& flags[i] == T::spec_solved_at(v)
        }
}

/// One position settles row `i` of the transition table and entry `i` of
/// the pruning table together: the row records where each move takes it,
/// and the entry is zero exactly when it is F2L-solved.
pub open spec fn index_settled<T: Prunable>(t: Seq<[usize; 18]>, p: Seq<u16>, i: int) -> bool {
    exists|v: Seq<u8>|
        {
            &&& #[trigger] T::wf_repr(v)
            &&& T::spec_index_of(v) == i
            &&& forall|m: int| 0 <= m < 18 ==> #[trigger] t[i]@[m] == T::spec_index_of(T::spec_apply(v, m))
            &&& (p[i] == 0 <==> T::spec_solved_at(v))
        }
}

/// Some entry of the search stack hashes to `i`.
pub open spec fn stack_has_index<T: Prunable>(st: Seq<T>, i: int) -> bool {
    exists|k: int| 0 <= k < st.len() && T::spec_index_of((#[trigger] st[k]).repr()) == i
}

/// The marked indices are closed under the table: every move out of a
/// marked row lands on a marked index.
pub open spec fn closed_under(t: Seq<[usize; 18]>, vis: Seq<bool>) -> bool {
    forall|i: int, m: int|
        0 <= i < t.len() && 0 <= m < 18 && vis[i] ==> vis[(#[trigger] t[i]@[m]) as int]
}

/// Following any move path through the table from a marked index stays
/// inside the marked indices, when those are closed under the table.
proof fn lemma_follow_marked(t: Seq<[usize; 18]>, vis: Seq<bool>, i: int, path: Seq<int>)
    requires
        t.len() == vis.len(),
        table_in_range(t, t.len() as int),
        closed_under(t, vis),
        0 <= i < t.len(),
        vis[i],
        path_ok(path),
    ensures
        0 <= follow(t, i, path) < t.len(),
        vis[follow(t, i, path)],
    decreases path.len(),
{
    if path.len() > 0 {
        let j = t[i]@[path[0]] as int;
        assert(path_ok(path.skip(1))) by {
            assert(forall|k: int|
                0 <= k < path.skip(1).len() ==> path.skip(1)[k] == path[k + 1]);
        }
        lemma_follow_marked(t, vis, j, path.skip(1));
    }
}

/// Entry `i` of the pruning table is realized: some move path of exactly
/// that length leads through the table from `i` to a zero entry.
pub open spec fn entry_realized(t: Seq<[usize; 18]>, p: Seq<u16>, i: int) -> bool {
    exists|path: Seq<int>|
        {
            &&& #[trigger] path_ok(path)
            &&& path.len() == p[i]
            &&& 0 <= follow(t, i, path) < p.len()
            &&& p[follow(t, i, path)] == 0
        }
}

/// What a realized, consistent pruning entry means: it is the exact length
/// of a shortest move path through the table to a zero entry — some path
/// of that length reaches a zero entry, and no shorter one does.
pub proof fn lemma_pruning_exact(t: Seq<[usize; 18]>, p: Seq<u16>, i: int)
    requires
        t.len() == p.len(),
        table_in_range(t, t.len() as int),
        prune_consistent(t, p),
        0 <= i < t.len(),
        entry_realized(t, p, i),
    ensures
        exists|path: Seq<int>|
            {
                &&& #[trigger] path_ok(path)
                &&& path.len() == p[i]
                &&& 0 <= follow(t, i, path) < p.len()
                &&& p[follow(t, i, path)] == 0
            },
        forall|path: Seq<int>|
            path_ok(path) && p[#[trigger] follow(t, i, path)] == 0 ==> p[i] <= path.len(),
{
    assert forall|path: Seq<int>|
        path_ok(path) && p[#[trigger] follow(t, i, path)] == 0 implies p[i] <= path.len() by {
        lemma_pruning_admissible(t, p, i, path);
    }
}

/// Everything the two builders together guarantee of a finished pair of
/// tables over one coordinate space: the initial row is pinned to the moves
/// out of the solved position, every index the table reaches from the
/// initial one has a witnessed, commuting row, the pruning entries form a
/// fixpoint of the one-step relaxation with zero at the initial index,
/// every entry below the sentinel is realized by a path of exactly its
/// length, and a zero entry stands only at an index of an F2L-solved
/// position.
pub open spec fn tables_ok<T: Prunable>(t: Seq<[usize; 18]>, p: Seq<u16>) -> bool {
    let i0 = T::spec_index_of(T::spec_initial());
    &&& t.len() == T::spec_total()
    &&& p.len() == T::spec_total()
    &&& table_in_range(t, T::spec_total())
    &&& prune_consistent(t, p)
    &&& 0 <= i0 < T::spec_total()
    &&& forall|m: int|
        0 <= m < 18 ==> #[trigger] t[i0]@[m] == T::spec_index_of(T::spec_apply(T::spec_initial(), m))
    &&& forall|i: int| 0 <= i < t.len() ==> row_witnessed::<T>(t, i) || row_zero(t, i)
    &&& forall|path: Seq<int>|
        path_ok(path) ==> 0 <= #[trigger] follow(t, i0, path) < t.len() && row_witnessed::<T>(
            t,
            follow(t, i0, path),
        )
    &&& forall|i: int| 0 <= i < p.len() ==> #[trigger] p[i] <= 100
    &&& p[i0] == 0
    &&& forall|i: int| 0 <= i < p.len() && p[i] == 0 ==> solved_index::<T>(i)
    &&& forall|i: int| 0 <= i < p.len() && #[trigger] p[i] < 100 ==> entry_realized(t, p, i)
    &&& forall|path: Seq<int>|
        path_ok(path) ==> index_settled::<T>(t, p, #[trigger] follow(t, i0, path))
}

/// How many entries are still false: the measure the search decreases.
spec fn count_false(v: Seq<bool>) -> nat
    decreases v.len(),
{
    if v.len() == 0 {
        0
    } else {
        count_false(v.drop_last()) + if v.last() {
            0nat
        } else {
            1nat
        }
    }
}

/// Marking a false entry true lowers the measure by one.
proof fn lemma_count_false_update(v: Seq<bool>, i: int)
    requires
        0 <= i < v.len(),
        !v[i],
    ensures
        count_false(v.update(i, true)) + 1 == count_false(v),
    decreases v.len(),
{
    let u = v.update(i, true);
    if i == v.len() - 1 {
        assert(u.drop_last() =~= v.drop_last());
        assert(u.last() == true && v.last() == false);
    } else {
        assert(u.drop_last() =~= v.drop_last().update(i, true));
        lemma_count_false_update(v.drop_last(), i);
        assert(u.last() == v.last());
    }
}

/// Build the transition table: a depth-first search from the solved
/// position, recording for each newly met state index where each of the
/// eighteen moves leads, until no new index is met.
pub fn make_transition_table<T: Prunable>() -> (t: Vec<[usize; 18]>)
    ensures
        0 <= T::spec_index_of(T::spec_initial()) < T::spec_total(),
        t@.len() == T::spec_total(),
        table_in_range(t@, T::spec_total()),
        forall|m: int|
            0 <= m < 18 ==> #[trigger] t@[T::spec_index_of(T::spec_initial())]@[m]
                == T::spec_index_of(T::spec_apply(T::spec_initial(), m)),
        forall|i: int|
            0 <= i < T::spec_total() ==> row_witnessed::<T>(t@, i) || row_zero(t@, i),
        forall|path: Seq<int>|
            path_ok(path) ==> 0 <= #[trigger] follow(
                t@,
                T::spec_index_of(T::spec_initial()),
                path,
            ) < T::spec_total() && row_witnessed::<T>(
                t@,
                follow(t@, T::spec_index_of(T::spec_initial()), path),
            ),
{
    let ghost idx0 = T::spec_index_of(T::spec_initial());
    let (t, _flags, visited) = explore::<T>();
    proof {
        assert forall|path: Seq<int>| path_ok(path) implies 0 <= #[trigger] follow(
            t@,
            idx0,
            path,
        ) < T::spec_total() && row_witnessed::<T>(t@, follow(t@, idx0, path)) by {
            lemma_follow_marked(t@, visited@, idx0, path);
        }
    }
    t
}

/// The depth-first search over a coordinate space: the transition rows,
/// for each state index met whether that state is F2L-solved there, and
/// which indices were met at all; the met indices are closed under the
/// finished table.
fn explore<T: Prunable>() -> (r: (Vec<[usize; 18]>, Vec<bool>, Vec<bool>))
    ensures
        0 <= T::spec_index_of(T::spec_initial()) < T::spec_total(),
        r.0@.len() == T::spec_total(),
        r.1@.len() == T::spec_total(),
        r.2@.len() == T::spec_total(),
        table_in_range(r.0@, T::spec_total()),
        forall|m: int|
            0 <= m < 18 ==> #[trigger] r.0@[T::spec_index_of(T::spec_initial())]@[m]
                == T::spec_index_of(T::spec_apply(T::spec_initial(), m)),
        r.1@[T::spec_index_of(T::spec_initial())] == T::spec_solved_at(T::spec_initial()),
        r.2@[T::spec_index_of(T::spec_initial())],
        forall|i: int| 0 <= i < T::spec_total() && r.2@[i] ==> row_witnessed::<T>(r.0@, i),
        forall|i: int| 0 <= i < T::spec_total() && r.2@[i] ==> row_settled::<T>(r.0@, r.1@, i),
        forall|i: int| 0 <= i < T::spec_total() && !r.2@[i] ==> row_zero(r.0@, i),
        closed_under(r.0@, r.2@),
        forall|i: int| 0 <= i < T::spec_total() && r.1@[i] ==> solved_index::<T>(i) && r.2@[i],
{
    let ghost iv = T::spec_initial();
    let ghost idx0 = T::spec_index_of(iv);
    let total = T::total_states();
    let mut result: Vec<[usize; 18]> = Vec::new();
    let mut flags: Vec<bool> = Vec::new();
    let mut visited: Vec<bool> = Vec::new();
    let mut k: usize = 0;
    while k < total
        invariant
            k <= total,
            total as int == T::spec_total(),
            result@.len() == k,
            flags@.len() == k,
            visited@.len() == k,
            forall|i: int, m: int| 0 <= i < k && 0 <= m < 18 ==> result@[i]@[m] == 0,
            forall|i: int| 0 <= i < k ==> !visited@[i],
            forall|i: int| 0 <= i < k ==> !flags@[i],
        decreases total - k,
    {
        result.push([0usize; 18]);
        flags.push(false);
        visited.push(false);
        k = k + 1;
    }
    proof {
        assert forall|i2: int| 0 <= i2 < total implies row_zero(result@, i2) by {}
    }
    let start = T::initial_pos();
    let start_idx = start.index();
    proof {
        assert(start_idx as int == idx0);
    }
    let mut stack: Vec<T> = Vec::new();
    stack.push(start);
    while stack.len() > 0
        invariant
            iv == T::spec_initial(),
            idx0 == T::spec_index_of(iv),
            total as int == T::spec_total(),
            1 <= T::spec_total(),
            0 <= idx0 < total,
            result@.len() == total,
            flags@.len() == total,
            visited@.len() == total,
            table_in_range(result@, T::spec_total()),
            forall|k2: int| 0 <= k2 < stack@.len() ==> T::wf_repr((#[trigger] stack@[k2]).repr()),
            !visited@[idx0] ==> stack@.len() == 1 && stack@[0].repr() == iv,
            forall|i2: int|
                0 <= i2 < total ==> ((visited@[i2] ==> row_settled::<T>(result@, flags@, i2)) && (
                !visited@[i2] ==> row_zero(result@, i2))),
            forall|i2: int| 0 <= i2 < total && flags@[i2] ==> solved_index::<T>(i2),
            forall|i2: int| 0 <= i2 < total && flags@[i2] ==> visited@[i2],
            forall|i2: int, m2: int|
                0 <= i2 < total && 0 <= m2 < 18 && visited@[i2] ==> visited@[(
                #[trigger] result@[i2]@[m2]) as int] || stack_has_index::<T>(
                    stack@,
                    (result@[i2]@[m2]) as int,
                ),
            visited@[idx0] ==> forall|m: int|
                0 <= m < 18 ==> #[trigger] result@[idx0]@[m] == T::spec_index_of(
                    T::spec_apply(iv, m),
                ),
            visited@[idx0] ==> flags@[idx0] == T::spec_solved_at(iv),
        decreases count_false(visited@), stack@.len(),
    {
        let ghost prev_stack = stack@;
        let state = stack.pop().unwrap();
        proof {
            assert(state == prev_stack[prev_stack.len() - 1]);
        }
        let ghost base = stack@;
        let idx = state.index();
        if !visited[idx] {
            let ghost pre_visited = visited@;
            let ghost pre_result = result@;
            let ghost pre_flags = flags@;
            let mut row: [usize; 18] = [0usize; 18];
            let mut m: usize = 0;
            while m < 18
                invariant
                    m <= 18,
                    total as int == T::spec_total(),
                    T::wf_repr(state.repr()),
                    idx as int == T::spec_index_of(state.repr()),
                    forall|k2: int| 0 <= k2 < stack@.len() ==> T::wf_repr((#[trigger] stack@[k2]).repr()),
                    stack@.len() >= base.len(),
                    forall|k2: int| 0 <= k2 < base.len() ==> stack@[k2] == base[k2],
                    forall|k2: int|
                        0 <= k2 < m ==> row@[k2] == T::spec_index_of(
                            T::spec_apply(state.repr(), k2),
                        ) && row@[k2] < total,
                    forall|k2: int| 0 <= k2 < m ==> stack_has_index::<T>(stack@, row@[k2] as int),
                    forall|k2: int| m <= k2 < 18 ==> row@[k2] == 0,
                decreases 18 - m,
            {
                let next = state.apply_idx(m);
                row[m] = next.index();
                let ghost pre_push = stack@;
                stack.push(next);
                proof {
                    assert forall|k2: int| 0 <= k2 < m + 1 implies stack_has_index::<T>(
                        stack@,
                        row@[k2] as int,
                    ) by {
                        if k2 < m {
                            let w = choose|w: int|
                                0 <= w < pre_push.len() && T::spec_index_of(
                                    (#[trigger] pre_push[w]).repr(),
                                ) == row@[k2] as int;
                            assert(stack@[w] == pre_push[w]);
                        } else {
                            assert(stack@[stack@.len() - 1] == next);
                        }
                    }
                }
                m = m + 1;
            }
            let solved_here = state.is_solved();
            result[idx] = row;
            flags[idx] = solved_here;
            visited[idx] = true;
            proof {
                lemma_count_false_update(pre_visited, idx as int);
                assert forall|i2: int| 0 <= i2 < total && flags@[i2] implies solved_index::<T>(
                    i2,
                ) by {
                    if i2 == idx as int {
                        assert(T::wf_repr(state.repr()));
                    } else {
                        assert(flags@[i2] == pre_flags[i2]);
                    }
                }
                assert forall|i2: int, m2: int|
                    0 <= i2 < total && 0 <= m2 < 18 && visited@[i2] implies visited@[(
                #[trigger] result@[i2]@[m2]) as int] || stack_has_index::<T>(
                    stack@,
                    (result@[i2]@[m2]) as int,
                ) by {
                    let tgt = (result@[i2]@[m2]) as int;
                    if i2 == idx as int {
                        assert(result@[i2]@[m2] == row@[m2]);
                        assert(stack_has_index::<T>(stack@, row@[m2] as int));
                    } else {
                        assert(result@[i2] == pre_result[i2]);
                        assert(pre_visited[i2]);
                        if pre_visited[tgt] {
                            assert(visited@[tgt]);
                        } else {
                            assert(stack_has_index::<T>(prev_stack, tgt));
                            let w = choose|w: int|
                                0 <= w < prev_stack.len() && T::spec_index_of(
                                    (#[trigger] prev_stack[w]).repr(),
                                ) == tgt;
                            if w < prev_stack.len() - 1 {
                                assert(base[w] == prev_stack[w]);
                                assert(stack@[w] == base[w]);
                                assert(stack_has_index::<T>(stack@, tgt));
                            } else {
                                assert(prev_stack[w] == state);
                                assert(tgt == idx as int);
                                assert(visited@[tgt]);
                            }
                        }
                    }
                }
                assert forall|i2: int|
                    0 <= i2 < total implies ((visited@[i2] ==> row_settled::<T>(
                    result@,
                    flags@,
                    i2,
                )) && (!visited@[i2] ==> row_zero(result@, i2))) by {
                    if i2 == idx as int {
                        assert(T::wf_repr(state.repr()));
                        assert(result@[i2] == row);
                        assert(forall|m: int|
                            0 <= m < 18 ==> #[trigger] result@[i2]@[m] == T::spec_index_of(
                                T::spec_apply(state.repr(), m),
                            ));
                        assert(flags@[i2] == T::spec_solved_at(state.repr()));
                        assert(row_settled::<T>(result@, flags@, i2));
                    } else {
                        assert(result@[i2] == pre_result[i2]);
                        assert(flags@[i2] == pre_flags[i2]);
                        if pre_visited[i2] {
                            let v = choose|v: Seq<u8>|
                                {
                                    &&& #[trigger] T::wf_repr(v)
                                    &&& T::spec_index_of(v) == i2
                                    &&& forall|m: int|
                                        0 <= m < 18 ==> #[trigger] pre_result[i2]@[m]
                                            == T::spec_index_of(T::spec_apply(v, m))
                                    &&& pre_flags[i2] == T::spec_solved_at(v)
                                };
                            assert(T::wf_repr(v));
                            assert(row_settled::<T>(result@, flags@, i2));
                        }
                    }
                }
                if !pre_visited[idx0] {
                    assert(state.repr() == iv);
                    assert(idx as int == idx0);
                    assert(visited@[idx0]);
                    assert(result@[idx0]@ == row@);
                } else {
                    assert(idx as int != idx0);
                    assert(result@[idx0] == pre_result[idx0]);
                    assert(flags@[idx0] == pre_flags[idx0]);
                }
            }
        } else {
            proof {
                if !visited@[idx0] {
                    assert(prev_stack.len() == 1);
                    assert(state.repr() == iv);
                    assert(idx as int == idx0);
                    assert(false);
                }
                assert forall|i2: int, m2: int|
                    0 <= i2 < total && 0 <= m2 < 18 && visited@[i2] implies visited@[(
                #[trigger] result@[i2]@[m2]) as int] || stack_has_index::<T>(
                    stack@,
                    (result@[i2]@[m2]) as int,
                ) by {
                    let tgt = (result@[i2]@[m2]) as int;
                    if !visited@[tgt] {
                        assert(stack_has_index::<T>(prev_stack, tgt));
                        let w = choose|w: int|
                            0 <= w < prev_stack.len() && T::spec_index_of(
                                (#[trigger] prev_stack[w]).repr(),
                            ) == tgt;
                        if w < prev_stack.len() - 1 {
                            assert(stack@[w] == prev_stack[w]);
                            assert(stack_has_index::<T>(stack@, tgt));
                        } else {
                            assert(prev_stack[w] == state);
                            assert(tgt == idx as int);
                            assert(false);
                        }
                    }
                }
            }
        }
    }
    proof {
        assert(visited@[idx0]);
        assert forall|i2: int, m2: int|
            0 <= i2 < total && 0 <= m2 < 18 && visited@[i2] implies visited@[(
        #[trigger] result@[i2]@[m2]) as int] by {
            assert(!stack_has_index::<T>(stack@, (result@[i2]@[m2]) as int));
        }
        assert forall|i2: int| 0 <= i2 < total && visited@[i2] implies row_witnessed::<T>(
            result@,
            i2,
        ) by {
            let v = choose|v: Seq<u8>|
                {
                    &&& #[trigger] T::wf_repr(v)
                    &&& T::spec_index_of(v) == i2
                    &&& forall|m: int|
                        0 <= m < 18 ==> #[trigger] result@[i2]@[m] == T::spec_index_of(
                            T::spec_apply(v, m),
                        )
                    &&& flags@[i2] == T::spec_solved_at(v)
                };
            assert(T::wf_repr(v));
        }
    }
    (result, flags, visited)
}

/// Build the pruning table for the given transition table: states that are
/// F2L-solved in this projection get zero, and the one-step relaxation is
/// run to its fixpoint, leaving in each entry a lower bound on the moves
/// needed to reach a zero entry.
pub fn make_pruning_table<T: Prunable>(trans: &Vec<[usize; 18]>) -> (p: Vec<u16>)
    requires
        trans@.len() == T::spec_total(),
        table_in_range(trans@, T::spec_total()),
        T::spec_solved_at(T::spec_initial()),
    ensures
        p@.len() == T::spec_total(),
        forall|i: int| 0 <= i < p@.len() ==> #[trigger] p@[i] <= 100,
        p@[T::spec_index_of(T::spec_initial())] == 0,
        prune_consistent(trans@, p@),
        forall|i: int| 0 <= i < p@.len() && p@[i] == 0 ==> solved_index::<T>(i),
        forall|i: int| 0 <= i < p@.len() && #[trigger] p@[i] < 100 ==> entry_realized(trans@, p@, i),
{
    let (_t, flags, _visited) = explore::<T>();
    relax::<T>(trans, &flags)
}

/// Build both tables of one coordinate space from a single search, so that
/// they agree: besides everything each builder promises alone, every index
/// the table reaches from the initial one is settled — one position hashes
/// to it, its row records that position's moves, and its pruning entry is
/// zero exactly when that position is F2L-solved.
pub fn build_tables<T: Prunable>() -> (r: (Vec<[usize; 18]>, Vec<u16>))
    requires
        T::spec_solved_at(T::spec_initial()),
    ensures
        tables_ok::<T>(r.0@, r.1@),
{
    let ghost idx0 = T::spec_index_of(T::spec_initial());
    let (t, flags, visited) = explore::<T>();
    let p = relax::<T>(&t, &flags);
    proof {
        assert forall|path: Seq<int>| path_ok(path) implies 0 <= #[trigger] follow(
            t@,
            idx0,
            path,
        ) < t@.len() && row_witnessed::<T>(t@, follow(t@, idx0, path)) && index_settled::<T>(
            t@,
            p@,
            follow(t@, idx0, path),
        ) by {
            lemma_follow_marked(t@, visited@, idx0, path);
            let fi = follow(t@, idx0, path);
            assert(row_settled::<T>(t@, flags@, fi));
            let v = choose|v: Seq<u8>|
                {
                    &&& #[trigger] T::wf_repr(v)
                    &&& T::spec_index_of(v) == fi
                    &&& forall|m: int|
                        0 <= m < 18 ==> #[trigger] t@[fi]@[m] == T::spec_index_of(
                            T::spec_apply(v, m),
                        )
                    &&& flags@[fi] == T::spec_solved_at(v)
                };
            assert(T::wf_repr(v));
            assert(p@[fi] == 0 <==> flags@[fi]);
            assert(index_settled::<T>(t@, p@, fi));
        }
        assert(p@[idx0] == 0);
        assert forall|i: int| 0 <= i < p@.len() && p@[i] == 0 implies solved_index::<T>(i) by {
            assert(flags@[i]);
        }
    }
    (t, p)
}

/// Run the one-step relaxation to its fixpoint over the given transition
/// table, from zero at the flagged indices and the sentinel elsewhere. A
/// zero entry survives exactly at the flagged indices, and every entry
/// below the sentinel is realized by a path of exactly its length.
fn relax<T: Prunable>(trans: &Vec<[usize; 18]>, flags: &Vec<bool>) -> (p: Vec<u16>)
    requires
        trans@.len() == T::spec_total(),
        table_in_range(trans@, T::spec_total()),
        flags@.len() == T::spec_total(),
    ensures
        p@.len() == T::spec_total(),
        forall|i: int| 0 <= i < p@.len() ==> #[trigger] p@[i] <= 100,
        prune_consistent(trans@, p@),
        forall|i: int| 0 <= i < p@.len() ==> (#[trigger] p@[i] == 0 <==> flags@[i]),
        forall|i: int| 0 <= i < p@.len() && #[trigger] p@[i] < 100 ==> entry_realized(trans@, p@, i),
{
    let total = T::total_states();
    let mut p: Vec<u16> = Vec::new();
    let mut k: usize = 0;
    while k < total
        invariant
            k <= total,
            total as int == T::spec_total(),
            flags@.len() == total,
            p@.len() == k,
            forall|i: int| 0 <= i < k ==> #[trigger] p@[i] <= 100,
            forall|i: int| 0 <= i < k ==> (#[trigger] p@[i] == 0 <==> flags@[i]),
            forall|i: int| 0 <= i < k ==> #[trigger] p@[i] == 0 || p@[i] == 100,
        decreases total - k,
    {
        if flags[k] {
            p.push(0);
        } else {
            p.push(100);
        }
        k = k + 1;
    }
    proof {
        assert forall|i: int| 0 <= i < total && #[trigger] p@[i] < 100 implies entry_realized(
            trans@,
            p@,
            i,
        ) by {
            let e = Seq::<int>::empty();
            assert(path_ok(e));
            assert(follow(trans@, i, e) == i);
            assert(p@[i] == 0);
        }
    }
    loop
        invariant
            total as int == T::spec_total(),
            trans@.len() == total,
            table_in_range(trans@, T::spec_total()),
            flags@.len() == total,
            p@.len() == total,
            forall|i: int| 0 <= i < total ==> #[trigger] p@[i] <= 100,
            forall|i: int| 0 <= i < total ==> (#[trigger] p@[i] == 0 <==> flags@[i]),
            forall|i: int| 0 <= i < total && #[trigger] p@[i] < 100 ==> entry_realized(trans@, p@, i),
        ensures
            p@.len() == T::spec_total(),
            forall|i: int| 0 <= i < total ==> #[trigger] p@[i] <= 100,
            forall|i: int| 0 <= i < total ==> (#[trigger] p@[i] == 0 <==> flags@[i]),
            forall|i: int| 0 <= i < total && #[trigger] p@[i] < 100 ==> entry_realized(trans@, p@, i),
            prune_consistent(trans@, p@),
        decreases sum_u16(p@),
    {
        let ghost start = p@;
        let mut changed = false;
        let mut i: usize = 0;
        while i < total
            invariant
                total as int == T::spec_total(),
                trans@.len() == total,
                table_in_range(trans@, T::spec_total()),
                flags@.len() == total,
                i <= total,
                p@.len() == total,
                forall|k2: int| 0 <= k2 < total ==> #[trigger] p@[k2] <= 100,
                forall|i2: int| 0 <= i2 < total ==> (#[trigger] p@[i2] == 0 <==> flags@[i2]),
                forall|i2: int| 0 <= i2 < total && #[trigger] p@[i2] < 100 ==> entry_realized(trans@, p@, i2),
                sum_u16(p@) <= sum_u16(start),
                changed ==> sum_u16(p@) < sum_u16(start),
                !changed ==> p@ == start,
                !changed ==> forall|i2: int, m2: int|
                    0 <= i2 < i && 0 <= m2 < 18 ==> p@[i2] <= p@[trans@[i2]@[m2] as int] + 1,
            decreases total - i,
        {
            let mut m: usize = 0;
            while m < 18
                invariant
                    total as int == T::spec_total(),
                    trans@.len() == total,
                    table_in_range(trans@, T::spec_total()),
                    flags@.len() == total,
                    i < total,
                    m <= 18,
                    p@.len() == total,
                    forall|k2: int| 0 <= k2 < total ==> #[trigger] p@[k2] <= 100,
                    forall|i2: int| 0 <= i2 < total ==> (#[trigger] p@[i2] == 0 <==> flags@[i2]),
                    forall|i2: int| 0 <= i2 < total && #[trigger] p@[i2] < 100 ==> entry_realized(trans@, p@, i2),
                    sum_u16(p@) <= sum_u16(start),
                    changed ==> sum_u16(p@) < sum_u16(start),
                    !changed ==> p@ == start,
                    !changed ==> forall|i2: int, m2: int|
                        0 <= i2 < i && 0 <= m2 < 18 ==> p@[i2] <= p@[trans@[i2]@[m2] as int] + 1,
                    !changed ==> forall|m2: int|
                        0 <= m2 < m ==> p@[i as int] <= p@[trans@[i as int]@[m2] as int] + 1,
                decreases 18 - m,
            {
                let row = trans[i];
                let via = p[row[m]];
                if via + 1 < p[i] {
                    let ghost before = p@;
                    p[i] = via + 1;
                    changed = true;
                    proof {
                        lemma_sum_u16_update(before, i as int, (via + 1) as u16);
                        let vi = trans@[i as int]@[m as int] as int;
                        assert(before[vi] < 100);
                        assert(entry_realized(trans@, before, vi));
                        let pv = choose|path: Seq<int>|
                            {
                                &&& #[trigger] path_ok(path)
                                &&& path.len() == before[vi]
                                &&& 0 <= follow(trans@, vi, path) < before.len()
                                &&& before[follow(trans@, vi, path)] == 0
                            };
                        let sq = seq![m as int] + pv;
                        assert(path_ok(sq)) by {
                            assert forall|k2: int| 0 <= k2 < sq.len() implies 0 <= #[trigger] sq[k2]
                                < 18 by {
                                if k2 == 0 {
                                    assert(sq[0] == m as int);
                                } else {
                                    assert(sq[k2] == pv[k2 - 1]);
                                }
                            }
                        }
                        assert(sq.skip(1) =~= pv);
                        assert(follow(trans@, i as int, sq) == follow(trans@, vi, pv));
                        assert forall|i2: int|
                            0 <= i2 < total && #[trigger] p@[i2] < 100 implies entry_realized(
                            trans@,
                            p@,
                            i2,
                        ) by {
                            if i2 == i as int {
                                let e2 = follow(trans@, i2, sq);
                                assert(before[e2] == 0);
                                assert(e2 != i2);
                                assert(p@[e2] == 0);
                                assert(sq.len() == p@[i2]);
                                assert(path_ok(sq));
                            } else {
                                assert(before[i2] == p@[i2]);
                                assert(entry_realized(trans@, before, i2));
                                let pj = choose|path: Seq<int>|
                                    {
                                        &&& #[trigger] path_ok(path)
                                        &&& path.len() == before[i2]
                                        &&& 0 <= follow(trans@, i2, path) < before.len()
                                        &&& before[follow(trans@, i2, path)] == 0
                                    };
                                let ej = follow(trans@, i2, pj);
                                assert(before[ej] == 0);
                                assert(ej != i as int);
                                assert(p@[ej] == 0);
                                assert(path_ok(pj));
                            }
                        }
                    }
                }
                m = m + 1;
            }
            i = i + 1;
        }
        if !changed {
            break ;
        }
    }
    p
}

/// The total of all entries: the measure the relaxation decreases.
spec fn sum_u16(v: Seq<u16>) -> nat
    decreases v.len(),
{
    if v.len() == 0 {
        0
    } else {
        sum_u16(v.drop_last()) + v.last() as nat
    }
}

/// Lowering one entry lowers the total accordingly.
proof fn lemma_sum_u16_update(v: Seq<u16>, i: int, x: u16)
    requires
        0 <= i < v.len(),
    ensures
        sum_u16(v.update(i, x)) + v[i] == sum_u16(v) + x,
    decreases v.len(),
{
    let u = v.update(i, x);
    if i == v.len() - 1 {
        assert(u.drop_last() =~= v.drop_last());
    } else {
        assert(u.drop_last() =~= v.drop_last().update(i, x));
        lemma_sum_u16_update(v.drop_last(), i, x);
        assert(u.last() == v.last());
    }
}

} // verus!
