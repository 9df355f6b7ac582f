//! Algorithms: move sequences, parsed from whitespace-separated tokens
//! under the successor grammar, printed, inverted, scored, y-rotated and
//! applied to the solved cube.

use crate::cubestate::{spec_compose, spec_is_solved, spec_solved};
use crate::f2l_cubestate::{f2l_step, spec_f2l_is_ll, F2LCubeState};
use crate::generator::{spec_move_of_token, spec_token, Face, Generator, Modifier};
use crate::lla_error::LLAError;
use crate::tables::Tables;
use crate::text::push_char;
use vstd::prelude::*;

verus! {

/// The whitespace that separates tokens.
pub open spec fn spec_is_ws(c: char) -> bool {
    c == ' ' || c == '\t' || c == '\n' || c == '\r' || c == '\u{b}' || c == '\u{c}'
}

fn is_ws(c: char) -> (r: bool)
    ensures
        r == spec_is_ws(c),
{
    c == ' ' || c == '\t' || c == '\n' || c == '\r' || c == '\u{b}' || c == '\u{c}'
}

/// Where the token that starts at `i` ends: the first position at or after
/// `i` holding whitespace, or the end of the text.
pub open spec fn word_end(s: Seq<char>, i: int) -> int
    decreases s.len() - i,
{
    if i < 0 || i >= s.len() || spec_is_ws(s[i]) {
        i
    } else {
        word_end(s, i + 1)
    }
}

proof fn lemma_word_end(s: Seq<char>, i: int)
    requires
        0 <= i <= s.len(),
    ensures
        i <= word_end(s, i) <= s.len(),
        i < s.len() && !spec_is_ws(s[i]) ==> word_end(s, i) > i,
        forall|k: int| i <= k < word_end(s, i) ==> !spec_is_ws(#[trigger] s[k]),
        word_end(s, i) < s.len() ==> spec_is_ws(s[word_end(s, i)]),
    decreases s.len() - i,
{
    if i < s.len() && !spec_is_ws(s[i]) {
        lemma_word_end(s, i + 1);
    }
}

proof fn lemma_word_end_unique(s: Seq<char>, i: int, j: int)
    requires
        0 <= i <= j <= s.len(),
        forall|k: int| i <= k < j ==> !spec_is_ws(#[trigger] s[k]),
        j == s.len() || spec_is_ws(s[j]),
    ensures
        word_end(s, i) == j,
    decreases j - i,
{
    if i < j {
        lemma_word_end_unique(s, i + 1, j);
    }
}

/// The whitespace-separated tokens of the text, from position `i` on.
pub open spec fn spec_tokens_from(s: Seq<char>, i: int) -> Seq<Seq<char>>
    decreases s.len() - i,
    via spec_tokens_from_dec
{
    if i < 0 || i >= s.len() {
        Seq::empty()
    } else if spec_is_ws(s[i]) {
        spec_tokens_from(s, i + 1)
    } else {
        seq![s.subrange(i, word_end(s, i))] + spec_tokens_from(s, word_end(s, i))
    }
}

#[via_fn]
proof fn spec_tokens_from_dec(s: Seq<char>, i: int) {
    if 0 <= i < s.len() && !spec_is_ws(s[i]) {
        lemma_word_end(s, i);
    }
}

/// The tokens of the whole text.
pub open spec fn spec_tokens(s: Seq<char>) -> Seq<Seq<char>> {
    spec_tokens_from(s, 0)
}

/// A successful parse: one move per token, adjacent moves allowed by the
/// successor grammar.
pub open spec fn parse_ok(s: Seq<char>, moves: Seq<Generator>) -> bool {
    let ts = spec_tokens(s);
    &&& moves.len() == ts.len()
    &&& forall|k: int| 0 <= k < ts.len() ==> spec_move_of_token(#[trigger] ts[k]) == Some(moves[k])
    &&& forall|k: int|
        1 <= k < moves.len() ==> moves[k - 1].spec_is_valid_successor(#[trigger] moves[k])
}

/// A failed parse: the error names the first offending token or pair, with
/// everything before it in order.
pub open spec fn parse_err(s: Seq<char>, e: LLAError) -> bool {
    let ts = spec_tokens(s);
    match e {
        LLAError::InvalidMove(tok) => exists|k: int|
            {
                &&& 0 <= k < ts.len()
                &&& spec_move_of_token(#[trigger] ts[k]) is None
                &&& tok@ == ts[k]
                &&& forall|j: int|
                    0 <= j < k ==> spec_move_of_token(#[trigger] ts[j]) is Some
            },
        LLAError::InvalidPair(a, b) => exists|k: int|
            #![trigger ts[k]]
            {
                &&& 1 <= k < ts.len()
                &&& forall|j: int|
                    0 <= j <= k ==> spec_move_of_token(#[trigger] ts[j]) is Some
                &&& Some(a) == spec_move_of_token(ts[k - 1])
                &&& Some(b) == spec_move_of_token(ts[k])
                &&& !a.spec_is_valid_successor(b)
                &&& forall|j: int|
                    1 <= j < k ==> (spec_move_of_token(ts[j - 1])->Some_0).spec_is_valid_successor(
                        spec_move_of_token(#[trigger] ts[j])->Some_0,
                    )
            },
    }
}

/// Every token of the text names a move.
pub open spec fn all_tokens_valid(s: Seq<char>) -> bool {
    forall|k: int|
        0 <= k < spec_tokens(s).len() ==> spec_move_of_token(#[trigger] spec_tokens(s)[k]) is Some
}

/// The moves the tokens name, where all of them do.
pub open spec fn spec_parsed(s: Seq<char>) -> Seq<Generator> {
    Seq::new(spec_tokens(s).len(), |k: int| spec_move_of_token(spec_tokens(s)[k])->Some_0)
}

/// Each adjacent pair obeys the successor grammar.
pub open spec fn pairs_valid(m: Seq<Generator>) -> bool {
    forall|k: int| 1 <= k < m.len() ==> m[k - 1].spec_is_valid_successor(#[trigger] m[k])
}

/// There are no more tokens than characters.
pub proof fn lemma_tokens_bound(s: Seq<char>, i: int)
    requires
        0 <= i <= s.len(),
    ensures
        spec_tokens_from(s, i).len() <= s.len() - i,
    decreases s.len() - i,
{
    if i < s.len() {
        if spec_is_ws(s[i]) {
            lemma_tokens_bound(s, i + 1);
        } else {
            lemma_word_end(s, i);
            lemma_tokens_bound(s, word_end(s, i));
        }
    }
}

/// The move a token names, read out of a character buffer.
fn move_of_slice(chars: &Vec<char>, start: usize, end: usize) -> (r: Option<Generator>)
    requires
        start < end <= chars@.len(),
    ensures
        r == spec_move_of_token(chars@.subrange(start as int, end as int)),
{
    let ghost t = chars@.subrange(start as int, end as int);
    proof {
        assert(t[0] == chars@[start as int]);
        assert(t.len() == end - start);
        if t.len() == 2 {
            assert(t[1] == chars@[start as int + 1]);
        }
    }
    let c0 = chars[start];
    let face_opt: Option<Face> = if c0 == 'U' {
        Some(Face::U)
    } else if c0 == 'D' {
        Some(Face::D)
    } else if c0 == 'F' {
        Some(Face::F)
    } else if c0 == 'B' {
        Some(Face::B)
    } else if c0 == 'R' {
        Some(Face::R)
    } else if c0 == 'L' {
        Some(Face::L)
    } else {
        None
    };
    let len = end - start;
    match face_opt {
        None => None,
        Some(face) => {
            if len == 1 {
                Some(Generator { face, modifier: Modifier::Normal })
            } else if len == 2 {
                let c1 = chars[start + 1];
                if c1 == '2' {
                    Some(Generator { face, modifier: Modifier::Twice })
                } else if c1 == '\'' {
                    Some(Generator { face, modifier: Modifier::Prime })
                } else {
                    None
                }
            } else {
                None
            }
        },
    }
}

/// An ordered sequence of generators.
#[derive(Debug)]
pub struct Algorithm {
    pub moves: Vec<Generator>,
}

/// A fresh vector holding the same moves.
pub(crate) fn copy_moves(v: &Vec<Generator>) -> (r: Vec<Generator>)
    ensures
        r@ == v@,
{
    let mut r: Vec<Generator> = Vec::new();
    let mut i: usize = 0;
    while i < v.len()
        invariant
            i <= v@.len(),
            r@ == v@.take(i as int),
        decreases v@.len() - i,
    {
        r.push(v[i]);
        proof {
            assert(r@ =~= v@.take(i + 1));
        }
        i = i + 1;
    }
    proof {
        assert(v@.take(v@.len() as int) =~= v@);
    }
    r
}

impl Algorithm {
    /// Split the text on whitespace, map each token to its move, and check
    /// each adjacent pair against the successor grammar. Empty input parses
    /// to the empty algorithm.
    pub fn parse(s: &str) -> (r: Result<Algorithm, LLAError>)
        ensures
            match r {
                Ok(alg) => parse_ok(s@, alg.moves@),
                Err(e) => parse_err(s@, e),
            },
    {
        let n = s.unicode_len();
        let mut chars: Vec<char> = Vec::new();
        let mut ci: usize = 0;
        while ci < n
            invariant
                ci <= n,
                n == s@.len(),
                chars@ == s@.take(ci as int),
            decreases n - ci,
        {
            chars.push(s.get_char(ci));
            proof {
                assert(chars@ =~= s@.take(ci + 1));
            }
            ci = ci + 1;
        }
        proof {
            assert(chars@ =~= s@);
        }
        let mut moves: Vec<Generator> = Vec::new();
        let ghost mut done: Seq<Seq<char>> = Seq::empty();
        let mut i: usize = 0;
        proof {
            assert(spec_tokens(s@) =~= done + spec_tokens_from(chars@, 0));
        }
        while i < n
            invariant
                i <= n,
                n == s@.len(),
                chars@ == s@,
                spec_tokens(s@) == done + spec_tokens_from(chars@, i as int),
                moves@.len() == done.len(),
                forall|k: int|
                    0 <= k < done.len() ==> spec_move_of_token(#[trigger] done[k]) == Some(
                        moves@[k],
                    ),
                forall|k: int|
                    1 <= k < moves@.len() ==> moves@[k - 1].spec_is_valid_successor(
                        #[trigger] moves@[k],
                    ),
            decreases n - i,
        {
            if is_ws(chars[i]) {
                i = i + 1;
                continue ;
            }
            let start = i;
            let mut j = i + 1;
            while j < n && !is_ws(chars[j])
                invariant
                    start < j <= n,
                    n == s@.len(),
                    chars@ == s@,
                    !spec_is_ws(chars@[start as int]),
                    forall|k: int| start <= k < j ==> !spec_is_ws(#[trigger] chars@[k]),
                decreases n - j,
            {
                j = j + 1;
            }
            let end = j;
            let ghost tok = chars@.subrange(start as int, end as int);
            proof {
                lemma_word_end_unique(chars@, start as int, end as int);
                assert(spec_tokens_from(chars@, start as int) == seq![tok] + spec_tokens_from(
                    chars@,
                    end as int,
                ));
                assert(spec_tokens(s@) =~= done.push(tok) + spec_tokens_from(
                    chars@,
                    end as int,
                )) by {
                    assert(spec_tokens(s@) == done + (seq![tok] + spec_tokens_from(
                        chars@,
                        end as int,
                    )));
                }
            }
            let g = match move_of_slice(&chars, start, end) {
                Some(g) => g,
                None => {
                    let mut tok_s = String::new();
                    let mut k = start;
                    while k < end
                        invariant
                            start <= k <= end,
                            end <= chars@.len(),
                            tok_s@ == chars@.subrange(start as int, k as int),
                        decreases end - k,
                    {
                        push_char(&mut tok_s, chars[k]);
                        proof {
                            assert(chars@.subrange(start as int, k as int).push(chars@[k as int])
                                =~= chars@.subrange(start as int, k + 1));
                        }
                        k = k + 1;
                    }
                    proof {
                        let ts = spec_tokens(s@);
                        assert(ts == done.push(tok) + spec_tokens_from(chars@, end as int));
                        assert(ts[done.len() as int] == tok);
                        assert(forall|j2: int|
                            0 <= j2 < done.len() ==> #[trigger] ts[j2] == done[j2]);
                    }
                    return Err(LLAError::InvalidMove(tok_s));
                },
            };
            if moves.len() > 0 {
                let prev = moves[moves.len() - 1];
                if !prev.is_valid_successor(&g) {
                    proof {
                        let ts = spec_tokens(s@);
                        let kk = done.len() as int;
                        assert(ts == done.push(tok) + spec_tokens_from(chars@, end as int));
                        assert(ts[kk] == tok);
                        assert(forall|j2: int| 0 <= j2 < kk ==> #[trigger] ts[j2] == done[j2]);
                    }
                    return Err(LLAError::InvalidPair(prev, g));
                }
            }
            moves.push(g);
            proof {
                done = done.push(tok);
            }
            i = end;
        }
        proof {
            assert(spec_tokens_from(chars@, n as int) =~= Seq::<Seq<char>>::empty());
            assert(spec_tokens(s@) =~= done);
        }
        Ok(Algorithm { moves })
    }
}

/// The inverse sequence: the moves reversed, each replaced by its undoing
/// move.
pub open spec fn spec_inverse_moves(m: Seq<Generator>) -> Seq<Generator> {
    Seq::new(m.len(), |i: int| m[m.len() - 1 - i].spec_inverse())
}

/// Every move's face rotated one step about the vertical axis.
pub open spec fn spec_rotate_moves(m: Seq<Generator>) -> Seq<Generator> {
    Seq::new(m.len(), |i: int| m[i].spec_rotate_y())
}

/// The sequence y-rotated `k` times.
pub open spec fn spec_rotate_k(m: Seq<Generator>, k: int) -> Seq<Generator>
    decreases k,
{
    if k <= 0 {
        m
    } else {
        spec_rotate_moves(spec_rotate_k(m, k - 1))
    }
}

/// The sum of the per-face scores of the moves.
pub open spec fn spec_score_moves(m: Seq<Generator>) -> int
    decreases m.len(),
{
    if m.len() == 0 {
        0
    } else {
        spec_score_moves(m.drop_last()) + m.last().spec_score()
    }
}

/// The display form: the tokens joined by single spaces.
pub open spec fn spec_format(m: Seq<Generator>) -> Seq<char>
    decreases m.len(),
{
    if m.len() == 0 {
        Seq::empty()
    } else if m.len() == 1 {
        spec_token(m[0])
    } else {
        spec_format(m.drop_last()) + seq![' '] + spec_token(m.last())
    }
}

/// The sticker state the sequence reaches from the solved cube.
pub open spec fn spec_cube_of(m: Seq<Generator>) -> Seq<u8>
    decreases m.len(),
{
    if m.len() == 0 {
        spec_solved()
    } else {
        spec_compose(spec_cube_of(m.drop_last()), m.last().spec_effect())
    }
}

/// The position of the first move whose face is neither U nor D, from `i`
/// on.
pub open spec fn spec_first_non_ud_from(m: Seq<Generator>, i: int) -> Option<int>
    decreases m.len() - i,
{
    if i < 0 || i >= m.len() {
        None
    } else if !m[i].spec_is_u_move() && !m[i].spec_is_d_move() {
        Some(i)
    } else {
        spec_first_non_ud_from(m, i + 1)
    }
}

/// The position of the first move whose face is neither U nor D.
pub open spec fn spec_first_non_ud(m: Seq<Generator>) -> Option<int> {
    spec_first_non_ud_from(m, 0)
}

/// A y rotation moves no move between the U/D family and the rest, so the
/// first side move keeps its position.
proof fn lemma_first_non_ud_rotate(m: Seq<Generator>, i: int)
    ensures
        spec_first_non_ud_from(spec_rotate_moves(m), i) == spec_first_non_ud_from(m, i),
    decreases m.len() - i,
{
    if 0 <= i && i < m.len() {
        lemma_first_non_ud_rotate(m, i + 1);
    }
}

/// A y rotation keeps the number of moves.
pub proof fn lemma_rotate_k_len(m: Seq<Generator>, k: int)
    ensures
        spec_rotate_k(m, k).len() == m.len(),
    decreases k,
{
    if k > 0 {
        lemma_rotate_k_len(m, k - 1);
    }
}

/// A y rotation turns each move's face and keeps its modifier.
pub proof fn lemma_rotate_k_modifier(m: Seq<Generator>, k: int, i: int)
    requires
        0 <= i < m.len(),
    ensures
        spec_rotate_k(m, k)[i].modifier == m[i].modifier,
    decreases k,
{
    if k > 0 {
        lemma_rotate_k_modifier(m, k - 1, i);
        lemma_rotate_k_len(m, k - 1);
        assert(spec_rotate_k(m, k)[i] == spec_rotate_k(m, k - 1)[i].spec_rotate_y());
    }
}

/// What the first-side-move position means: it is in range, it is not a
/// U or D move, and everything before it is.
pub proof fn lemma_first_non_ud_props(m: Seq<Generator>, i: int)
    requires
        0 <= i <= m.len(),
    ensures
        match spec_first_non_ud_from(m, i) {
            Some(j) => i <= j < m.len() && !m[j].spec_is_u_move() && !m[j].spec_is_d_move(),
            None => true,
        },
    decreases m.len() - i,
{
    if i < m.len() {
        lemma_first_non_ud_props(m, i + 1);
    }
}

impl Algorithm {
    /// The number of moves.
    pub fn length(&self) -> (r: i8)
        requires
            self.moves@.len() <= 127,
        ensures
            r as int == self.moves@.len(),
    {
        self.moves.len() as i8
    }

    /// The first move whose face is neither U nor D, if any.
    pub fn first_non_ud_move(&self) -> (r: Option<Generator>)
        ensures
            match spec_first_non_ud(self.moves@) {
                Some(i) => r == Some(self.moves@[i]),
                None => r is None,
            },
    {
        let mut i: usize = 0;
        while i < self.moves.len()
            invariant
                i <= self.moves@.len(),
                spec_first_non_ud(self.moves@) == spec_first_non_ud_from(self.moves@, i as int),
            decreases self.moves@.len() - i,
        {
            let g = self.moves[i];
            if !g.is_u_move() && !g.is_d_move() {
                return Some(g);
            }
            i = i + 1;
        }
        None
    }

    /// Gives a vec of the incremental cube states after each move is
    /// applied. Used to reconstruct the state of the iterator.
    pub fn cubestates_stack(&self, t: &Tables) -> (r: Vec<F2LCubeState>)
        requires
            t.wf(),
        ensures
            r@.len() == self.moves@.len(),
            forall|i: int| 0 <= i < r@.len() ==> (#[trigger] r@[i]).wf(),
            forall|i: int|
                0 <= i < r@.len() ==> (#[trigger] r@[i]).cubestate.state@ == spec_cube_of(
                    self.moves@.take(i + 1),
                ),
            r@.len() > 0 ==> crate::f2l_cubestate::f2l_start(self.moves@[0], *t, r@[0]),
            forall|i: int|
                1 <= i < r@.len() ==> f2l_step(r@[i - 1], #[trigger] self.moves@[i], *t, r@[i]),
    {
        let mut result: Vec<F2LCubeState> = Vec::new();
        let mut curr = F2LCubeState::new();
        let mut i: usize = 0;
        proof {
            assert(self.moves@.take(0) =~= Seq::<Generator>::empty());
        }
        while i < self.moves.len()
            invariant
                t.wf(),
                i <= self.moves@.len(),
                result@.len() == i,
                curr.wf(),
                curr.cubestate.state@ == spec_cube_of(self.moves@.take(i as int)),
                i == 0 ==> crate::f2l_cubestate::f2l_initial(curr),
                i > 0 ==> curr == result@[i - 1],
                forall|j: int| 0 <= j < i ==> (#[trigger] result@[j]).wf(),
                forall|j: int|
                    0 <= j < i ==> (#[trigger] result@[j]).cubestate.state@ == spec_cube_of(
                        self.moves@.take(j + 1),
                    ),
                i > 0 ==> crate::f2l_cubestate::f2l_start(self.moves@[0], *t, result@[0]),
                forall|j: int|
                    1 <= j < i ==> f2l_step(result@[j - 1], #[trigger] self.moves@[j], *t, result@[j]),
            decreases self.moves@.len() - i,
        {
            let m = self.moves[i];
            let next = curr.apply(m, t);
            proof {
                assert(self.moves@.take(i + 1).drop_last() =~= self.moves@.take(i as int));
                assert(self.moves@.take(i + 1).last() == self.moves@[i as int]);
            }
            result.push(next);
            curr = next;
            i = i + 1;
        }
        result
    }

    /// The inverse algorithm: reverse the moves and invert each one.
    pub fn inverse(&self) -> (r: Self)
        ensures
            r.moves@ == spec_inverse_moves(self.moves@),
    {
        let n = self.moves.len();
        let mut moves: Vec<Generator> = Vec::new();
        let mut i: usize = 0;
        while i < n
            invariant
                i <= n,
                n == self.moves@.len(),
                moves@.len() == i,
                forall|j: int|
                    0 <= j < i ==> #[trigger] moves@[j] == self.moves@[n - 1 - j].spec_inverse(),
            decreases n - i,
        {
            moves.push(self.moves[n - 1 - i].inverse());
            i = i + 1;
        }
        proof {
            assert(moves@ =~= spec_inverse_moves(self.moves@));
        }
        Algorithm { moves }
    }

    /// The cube state this algorithm reaches from solved.
    pub fn cube(&self, t: &Tables) -> (r: F2LCubeState)
        requires
            t.wf(),
            self.moves@.len() >= 1,
        ensures
            r.wf(),
            r.cubestate.state@ == spec_cube_of(self.moves@),
    {
        let cubestates = self.cubestates_stack(t);
        let r = cubestates[cubestates.len() - 1];
        proof {
            assert(self.moves@.take(self.moves@.len() as int) =~= self.moves@);
        }
        r
    }

    /// Every move's face turned one step about the vertical axis.
    fn rotate(&self) -> (r: Self)
        ensures
            r.moves@ == spec_rotate_moves(self.moves@),
    {
        let n = self.moves.len();
        let mut moves: Vec<Generator> = Vec::new();
        let mut i: usize = 0;
        while i < n
            invariant
                i <= n,
                n == self.moves@.len(),
                moves@.len() == i,
                forall|j: int|
                    0 <= j < i ==> #[trigger] moves@[j] == self.moves@[j].spec_rotate_y(),
            decreases n - i,
        {
            moves.push(self.moves[i].rotate_y());
            i = i + 1;
        }
        proof {
            assert(moves@ =~= spec_rotate_moves(self.moves@));
        }
        Algorithm { moves }
    }

    /// The sum of the per-face scores of the moves.
    fn score(&self) -> (r: u128)
        ensures
            r as int == spec_score_moves(self.moves@),
    {
        let n = self.moves.len();
        let mut sum: u128 = 0;
        let mut i: usize = 0;
        proof {
            assert(self.moves@.take(0) =~= Seq::<Generator>::empty());
        }
        while i < n
            invariant
                i <= n,
                n == self.moves@.len(),
                sum as int == spec_score_moves(self.moves@.take(i as int)),
                sum <= 3 * i,
            decreases n - i,
        {
            proof {
                assert(self.moves@.take(i + 1).drop_last() =~= self.moves@.take(i as int));
                assert(self.moves@.take(i + 1).last() == self.moves@[i as int]);
            }
            sum = sum + self.moves[i].score() as u128;
            i = i + 1;
        }
        proof {
            assert(self.moves@.take(n as int) =~= self.moves@);
        }
        sum
    }

    /// The y rotation of this algorithm with the highest score, the
    /// earliest rotation winning ties: the presentation form.
    pub fn best_rotation(&self) -> (r: Algorithm)
        ensures
            exists|k: int|
                {
                    &&& 0 <= k < 4
                    &&& r.moves@ == #[trigger] spec_rotate_k(self.moves@, k)
                    &&& forall|j: int|
                        0 <= j < 4 ==> spec_score_moves(r.moves@) >= spec_score_moves(
                            #[trigger] spec_rotate_k(self.moves@, j),
                        )
                    &&& forall|j: int|
                        0 <= j < k ==> spec_score_moves(#[trigger] spec_rotate_k(self.moves@, j))
                            < spec_score_moves(r.moves@)
                },
    {
        let mut best_alg = Algorithm { moves: copy_moves(&self.moves) };
        let mut best_score = best_alg.score();
        let ghost mut kbest: int = 0;
        let mut current = Algorithm { moves: copy_moves(&self.moves) };
        let mut step: usize = 1;
        while step < 4
            invariant
                1 <= step <= 4,
                current.moves@ == spec_rotate_k(self.moves@, step - 1),
                0 <= kbest < step,
                best_alg.moves@ == spec_rotate_k(self.moves@, kbest),
                best_score as int == spec_score_moves(best_alg.moves@),
                forall|j: int|
                    0 <= j < step ==> spec_score_moves(#[trigger] spec_rotate_k(self.moves@, j))
                        <= best_score as int,
                forall|j: int|
                    0 <= j < kbest ==> spec_score_moves(#[trigger] spec_rotate_k(self.moves@, j))
                        < best_score as int,
            decreases 4 - step,
        {
            current = current.rotate();
            let next_score = current.score();
            if next_score > best_score {
                best_score = next_score;
                best_alg = Algorithm { moves: copy_moves(&current.moves) };
                proof {
                    kbest = step as int;
                }
            }
            step = step + 1;
        }
        best_alg
    }

    /// The canonical (y) rotation is one which either starts with an
    /// R-family move or has only U and D moves.
    pub fn canonical_rotation(&self) -> (r: Algorithm)
        ensures
            match spec_first_non_ud(self.moves@) {
                None => r.moves@ == self.moves@,
                Some(i) => exists|k: int|
                    {
                        &&& 0 <= k < 4
                        &&& r.moves@ == #[trigger] spec_rotate_k(self.moves@, k)
                        &&& spec_first_non_ud(r.moves@) == Some(i)
                        &&& r.moves@[i].face == Face::R
                    },
            },
    {
        let first = self.first_non_ud_move();
        match first {
            None => Algorithm { moves: copy_moves(&self.moves) },
            Some(g) => {
                let steps: usize = match g.face {
                    Face::R => 0,
                    Face::B => 1,
                    Face::L => 2,
                    Face::F => 3,
                    Face::U => 0,
                    Face::D => 0,
                };
                proof {
                    lemma_first_non_ud_props(self.moves@, 0);
                    assert(g.face != Face::U && g.face != Face::D);
                }
                let mut r = Algorithm { moves: copy_moves(&self.moves) };
                let mut done: usize = 0;
                while done < steps
                    invariant
                        done <= steps,
                        steps < 4,
                        r.moves@ == spec_rotate_k(self.moves@, done as int),
                    decreases steps - done,
                {
                    r = r.rotate();
                    done = done + 1;
                }
                proof {
                    let i = spec_first_non_ud(self.moves@)->Some_0;
                    lemma_first_non_ud_props(self.moves@, 0);
                    let m0 = self.moves@;
                    let m1 = spec_rotate_moves(m0);
                    let m2 = spec_rotate_moves(m1);
                    let m3 = spec_rotate_moves(m2);
                    lemma_first_non_ud_rotate(m0, 0);
                    lemma_first_non_ud_rotate(m1, 0);
                    lemma_first_non_ud_rotate(m2, 0);
                    if steps == 0 {
                        assert(r.moves@ == m0);
                    } else if steps == 1 {
                        assert(spec_rotate_k(m0, 1) == m1);
                        assert(m1[i] == m0[i].spec_rotate_y());
                    } else if steps == 2 {
                        assert(spec_rotate_k(m0, 1) == m1);
                        assert(spec_rotate_k(m0, 2) == m2);
                        assert(m1[i] == m0[i].spec_rotate_y());
                        assert(m2[i] == m1[i].spec_rotate_y());
                    } else {
                        assert(spec_rotate_k(m0, 1) == m1);
                        assert(spec_rotate_k(m0, 2) == m2);
                        assert(spec_rotate_k(m0, 3) == m3);
                        assert(m1[i] == m0[i].spec_rotate_y());
                        assert(m2[i] == m1[i].spec_rotate_y());
                        assert(m3[i] == m2[i].spec_rotate_y());
                    }
                    assert(spec_first_non_ud(r.moves@) == Some(i));
                    assert(r.moves@[i].face == Face::R);
                }
                r
            },
        }
    }

    /// The display form: the tokens joined by single spaces.
    pub fn to_string(&self) -> (r: String)
        ensures
            r@ == spec_format(self.moves@),
    {
        let n = self.moves.len();
        let mut s = String::new();
        let mut i: usize = 0;
        proof {
            assert(self.moves@.take(0) =~= Seq::<Generator>::empty());
        }
        while i < n
            invariant
                i <= n,
                n == self.moves@.len(),
                s@ == spec_format(self.moves@.take(i as int)),
            decreases n - i,
        {
            if i > 0 {
                s.append(" ");
            }
            s.append(self.moves[i].token_str());
            proof {
                reveal_strlit(" ");
                assert(" "@ =~= seq![' ']);
                assert(self.moves@.take(i + 1).drop_last() =~= self.moves@.take(i as int));
                assert(self.moves@.take(i + 1).last() == self.moves@[i as int]);
                if i == 0 {
                    assert(s@ =~= spec_format(self.moves@.take(1)));
                }
            }
            i = i + 1;
        }
        proof {
            assert(self.moves@.take(n as int) =~= self.moves@);
        }
        s
    }
}

/// Any cube state an algorithm reaches is a full sticker assignment.
pub proof fn lemma_cube_of_len(m: Seq<Generator>)
    ensures
        spec_cube_of(m).len() == 54,
        crate::cubestate::wf_state(spec_cube_of(m)),
    decreases m.len(),
{
    if m.len() > 0 {
        lemma_cube_of_len(m.drop_last());
        crate::cubestate::lemma_effect_wf(m.last());
    }
}

/// Taking the inverse twice gives the algorithm back.
pub proof fn lemma_inverse_involution(m: Seq<Generator>)
    ensures
        spec_inverse_moves(spec_inverse_moves(m)) == m,
{
    assert(spec_inverse_moves(spec_inverse_moves(m)) =~= m);
}

proof fn lemma_cancel_from(p: Seq<Generator>, m: Seq<Generator>)
    ensures
        spec_cube_of(p + m + spec_inverse_moves(m)) == spec_cube_of(p),
    decreases m.len(),
{
    if m.len() == 0 {
        assert(p + m + spec_inverse_moves(m) =~= p);
    } else {
        let g = m[0];
        let rest = m.skip(1);
        lemma_cancel_from(p.push(g), rest);
        let inner = p.push(g) + rest + spec_inverse_moves(rest);
        assert(p + m + spec_inverse_moves(m) =~= inner.push(g.spec_inverse()));
        assert(inner.push(g.spec_inverse()).drop_last() =~= inner);
        assert(spec_cube_of(inner.push(g.spec_inverse())) == spec_compose(
            spec_cube_of(inner),
            g.spec_inverse().spec_effect(),
        ));
        assert(p.push(g).drop_last() =~= p);
        assert(spec_cube_of(p.push(g)) == spec_compose(spec_cube_of(p), g.spec_effect()));
        crate::cubestate::lemma_effect_inverse(g);
        crate::cubestate::lemma_effect_wf(g.spec_inverse());
        lemma_cube_of_len(p);
        assert(spec_compose(
            spec_compose(spec_cube_of(p), g.spec_effect()),
            g.spec_inverse().spec_effect(),
        ) =~= spec_cube_of(p)) by {
            let s = spec_cube_of(p);
            let e2 = g.spec_inverse().spec_effect();
            assert forall|i: int|
                0 <= i < 54 implies spec_compose(
                spec_compose(s, g.spec_effect()),
                e2,
            )[i] == s[i] by {
                assert(e2[i] < 54);
                assert(g.spec_effect()[e2[i] as int] == i);
            }
        }
    }
}

/// An algorithm followed by its inverse leaves the cube solved.
pub proof fn lemma_apply_inverse_solves(m: Seq<Generator>)
    ensures
        spec_cube_of(m + spec_inverse_moves(m)) == spec_solved(),
{
    lemma_cancel_from(Seq::empty(), m);
    assert(Seq::<Generator>::empty() + m + spec_inverse_moves(m) =~= m + spec_inverse_moves(m));
}

/// Four y rotations bring an algorithm back to itself.
pub proof fn lemma_rotate_cycle(m: Seq<Generator>)
    ensures
        spec_rotate_k(m, 4) == m,
{
    let m1 = spec_rotate_moves(m);
    let m2 = spec_rotate_moves(m1);
    let m3 = spec_rotate_moves(m2);
    let m4 = spec_rotate_moves(m3);
    assert(spec_rotate_k(m, 0) == m);
    assert(spec_rotate_k(m, 1) == m1);
    assert(spec_rotate_k(m, 2) == m2);
    assert(spec_rotate_k(m, 3) == m3);
    assert(spec_rotate_k(m, 4) == m4);
    assert(m4 =~= m);
}

/// Rotations compose by adding their counts.
pub proof fn lemma_rotate_k_add(m: Seq<Generator>, a: int, b: int)
    requires
        0 <= a,
        0 <= b,
    ensures
        spec_rotate_k(spec_rotate_k(m, a), b) == spec_rotate_k(m, a + b),
    decreases b,
{
    if b > 0 {
        lemma_rotate_k_add(m, a, b - 1);
    }
}

/// An algorithm that scores at least as well as every rotation of the
/// sequence it was chosen from also scores at least as well as every
/// rotation of itself: the best-rotation form is a fixpoint of the choice.
pub proof fn lemma_best_rotation_of_self(w: Seq<Generator>, a: Seq<Generator>, k: int)
    requires
        0 <= k < 4,
        a == spec_rotate_k(w, k),
        forall|j: int|
            0 <= j < 4 ==> spec_score_moves(a) >= spec_score_moves(
                #[trigger] spec_rotate_k(w, j),
            ),
    ensures
        forall|j: int|
            0 <= j < 4 ==> spec_score_moves(a) >= spec_score_moves(
                #[trigger] spec_rotate_k(a, j),
            ),
{
    assert forall|j: int|
        0 <= j < 4 implies spec_score_moves(a) >= spec_score_moves(
        #[trigger] spec_rotate_k(a, j),
    ) by {
        lemma_rotate_k_add(w, k, j);
        if k + j < 4 {
            assert(spec_rotate_k(a, j) == spec_rotate_k(w, k + j));
        } else {
            lemma_rotate_cycle(w);
            lemma_rotate_k_add(w, 4, k + j - 4);
            assert(spec_rotate_k(spec_rotate_k(w, 4), k + j - 4) == spec_rotate_k(w, k + j));
            assert(spec_rotate_k(a, j) == spec_rotate_k(w, k + j - 4));
        }
    }
}

/// The sticker state as seen after a y rotation of the whole cube.
pub open spec fn spec_conj(s: Seq<u8>) -> Seq<u8> {
    spec_compose(spec_compose(crate::cubestate::spec_y_inv(), s), crate::cubestate::spec_y())
}

/// Rotating the moves of an algorithm rotates the state it reaches.
proof fn lemma_rotate_conjugates(m: Seq<Generator>)
    ensures
        spec_cube_of(spec_rotate_moves(m)) == spec_conj(spec_cube_of(m)),
    decreases m.len(),
{
    crate::cubestate::lemma_y_props();
    let y = crate::cubestate::spec_y();
    let yinv = crate::cubestate::spec_y_inv();
    if m.len() == 0 {
        assert(spec_rotate_moves(m) =~= Seq::<Generator>::empty());
        assert(spec_conj(spec_solved()) =~= spec_solved());
    } else {
        let md = m.drop_last();
        let g = m.last();
        lemma_rotate_conjugates(md);
        lemma_cube_of_len(md);
        crate::cubestate::lemma_effect_conjugation(g);
        let c = spec_cube_of(md);
        let rm = spec_rotate_moves(m);
        assert(rm.drop_last() =~= spec_rotate_moves(md));
        assert(rm.last() == g.spec_rotate_y());
        assert(spec_cube_of(rm) == spec_compose(
            spec_cube_of(spec_rotate_moves(md)),
            g.spec_rotate_y().spec_effect(),
        ));
        assert(spec_compose(spec_conj(c), g.spec_rotate_y().spec_effect()) =~= spec_conj(
            spec_compose(c, g.spec_effect()),
        )) by {
            crate::cubestate::lemma_effect_wf(g);
            crate::cubestate::lemma_effect_wf(g.spec_rotate_y());
            assert forall|i: int|
                0 <= i < 54 implies spec_compose(spec_conj(c), g.spec_rotate_y().spec_effect())[i]
                == spec_conj(spec_compose(c, g.spec_effect()))[i] by {
                let er = g.spec_rotate_y().spec_effect();
                assert(er[i] < 54);
                assert(er[i] == yinv[g.spec_effect()[y[i] as int] as int]);
                assert(y[er[i] as int] == g.spec_effect()[y[i] as int]);
                assert(g.spec_effect()[y[i] as int] < 54);
            }
        }
    }
}

/// A state that a whole-cube rotation shows as solved was solved already.
proof fn lemma_conj_not_solved(x: Seq<u8>)
    requires
        crate::cubestate::wf_state(x),
        !spec_is_solved(x),
    ensures
        !spec_is_solved(spec_conj(x)),
{
    crate::cubestate::lemma_y_props();
    let y = crate::cubestate::spec_y();
    let yinv = crate::cubestate::spec_y_inv();
    if spec_is_solved(spec_conj(x)) {
        assert forall|j: int| 0 <= j < 54 implies x[j] == j by {
            let i = yinv[j] as int;
            assert(y[i] == j);
            assert(spec_conj(x)[i] == i);
            assert(yinv[x[y[i] as int] as int] == i);
            assert(y[yinv[x[j] as int] as int] == x[j]);
        }
        assert(false);
    }
}

/// A turn of the top face commutes with the whole-cube rotation.
proof fn lemma_conj_commutes_u(s: Seq<u8>, g: Generator)
    requires
        s.len() == 54,
        g.face == Face::U,
    ensures
        spec_compose(spec_conj(s), g.spec_effect()) == spec_conj(spec_compose(s, g.spec_effect())),
{
    crate::cubestate::lemma_y_props();
    crate::cubestate::lemma_effect_conjugation(g);
    crate::cubestate::lemma_effect_wf(g);
    let y = crate::cubestate::spec_y();
    let yinv = crate::cubestate::spec_y_inv();
    let e = g.spec_effect();
    assert(spec_compose(spec_conj(s), e) =~= spec_conj(spec_compose(s, e))) by {
        assert forall|i: int|
            0 <= i < 54 implies spec_compose(spec_conj(s), e)[i] == spec_conj(
            spec_compose(s, e),
        )[i] by {
            assert(e[i] < 54);
            assert(e[i] == yinv[e[y[i] as int] as int]);
            assert(y[e[i] as int] == e[y[i] as int]);
            assert(e[y[i] as int] < 54);
        }
    }
}

/// A y rotation of an algorithm keeps it a last-layer algorithm: when the
/// moves reach a last-layer case, so do the rotated moves.
pub proof fn lemma_rotate_preserves_ll(m: Seq<Generator>)
    requires
        spec_f2l_is_ll(spec_cube_of(m)),
    ensures
        spec_f2l_is_ll(spec_cube_of(spec_rotate_moves(m))),
{
    crate::cubestate::lemma_y_props();
    lemma_rotate_conjugates(m);
    lemma_cube_of_len(m);
    let y = crate::cubestate::spec_y();
    let yinv = crate::cubestate::spec_y_inv();
    let s = spec_cube_of(m);
    let s2 = spec_conj(s);
    assert(crate::cubestate::spec_is_ll(s2)) by {
        assert forall|i: int| 18 <= i < 51 implies s2[i] == i by {
            assert(18 <= y[i] < 51);
            assert(s[y[i] as int] == y[i]);
            assert(yinv[y[i] as int] == i);
        }
    }
    lemma_conj_not_solved(s);
    let u1 = Generator { face: Face::U, modifier: Modifier::Normal };
    let u2 = Generator { face: Face::U, modifier: Modifier::Twice };
    let u3 = Generator { face: Face::U, modifier: Modifier::Prime };
    lemma_conj_commutes_u(s, u1);
    lemma_conj_commutes_u(s, u2);
    lemma_conj_commutes_u(s, u3);
    crate::cubestate::lemma_effect_wf(u1);
    crate::cubestate::lemma_effect_wf(u2);
    crate::cubestate::lemma_effect_wf(u3);
    assert(crate::cubestate::wf_state(spec_compose(s, u1.spec_effect())));
    assert(crate::cubestate::wf_state(spec_compose(s, u2.spec_effect())));
    assert(crate::cubestate::wf_state(spec_compose(s, u3.spec_effect())));
    lemma_conj_not_solved(spec_compose(s, u1.spec_effect()));
    lemma_conj_not_solved(spec_compose(s, u2.spec_effect()));
    lemma_conj_not_solved(spec_compose(s, u3.spec_effect()));
}

/// The same, for any number of y rotations: in particular for the
/// best-scoring presentation of an emitted algorithm.
pub proof fn lemma_rotate_k_preserves_ll(m: Seq<Generator>, k: int)
    requires
        0 <= k,
        spec_f2l_is_ll(spec_cube_of(m)),
    ensures
        spec_f2l_is_ll(spec_cube_of(spec_rotate_k(m, k))),
    decreases k,
{
    if k > 0 {
        lemma_rotate_k_preserves_ll(m, k - 1);
        lemma_rotate_preserves_ll(spec_rotate_k(m, k - 1));
    }
}

} // verus!
