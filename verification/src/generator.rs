//! The 18 half-turn-metric generators: a face paired with a turn modifier,
//! the successor grammar between them, and their display tokens.

use vstd::prelude::*;

verus! {

/// One of the six faces of the cube.
#[derive(Debug, Copy, Clone, PartialEq, Eq, Structural)]
pub enum Face {
    U,
    D,
    F,
    B,
    R,
    L,
}

/// The rotation axis a face turns about.
#[derive(Debug, Copy, Clone, PartialEq, Eq, Structural)]
pub enum Axis {
    UD,
    FB,
    RL,
}

/// How far a face is turned: a quarter turn, a half turn, or a reverse
/// quarter turn.
#[derive(Debug, Copy, Clone, PartialEq, Eq, Structural)]
pub enum Modifier {
    Normal,
    Twice,
    Prime,
}

impl Face {
    /// The weight a face contributes when scoring a presentation rotation.
    pub open spec fn spec_score(&self) -> u16 {
        match self {
            Face::U => 0,
            Face::D => 0,
            Face::F => 2,
            Face::B => 0,
            Face::R => 3,
            Face::L => 1,
        }
    }

    /// Used to pick a "best" rotation of an algorithm to present.
    #[verifier::when_used_as_spec(spec_score)]
    pub fn score(&self) -> (r: u16)
        ensures
            r == self.spec_score(),
    {
        match *self {
            Face::U => 0,
            Face::D => 0,
            Face::F => 2,
            Face::B => 0,
            Face::R => 3,
            Face::L => 1,
        }
    }

    /// The image of a face under a y rotation (a whole-cube turn about the
    /// vertical axis): the side faces cycle F -> L -> B -> R -> F.
    pub open spec fn spec_rotate_y(&self) -> Face {
        match self {
            Face::U => Face::U,
            Face::D => Face::D,
            Face::F => Face::L,
            Face::B => Face::R,
            Face::R => Face::F,
            Face::L => Face::B,
        }
    }

    #[verifier::when_used_as_spec(spec_rotate_y)]
    pub fn rotate_y(&self) -> (r: Face)
        ensures
            r == self.spec_rotate_y(),
    {
        match *self {
            Face::U => Face::U,
            Face::D => Face::D,
            Face::F => Face::L,
            Face::B => Face::R,
            Face::R => Face::F,
            Face::L => Face::B,
        }
    }

    pub open spec fn spec_axis(&self) -> Axis {
        match self {
            Face::U => Axis::UD,
            Face::D => Axis::UD,
            Face::F => Axis::FB,
            Face::B => Axis::FB,
            Face::R => Axis::RL,
            Face::L => Axis::RL,
        }
    }

    #[verifier::when_used_as_spec(spec_axis)]
    pub fn axis(&self) -> (r: Axis)
        ensures
            r == self.spec_axis(),
    {
        match *self {
            Face::U => Axis::UD,
            Face::D => Axis::UD,
            Face::F => Axis::FB,
            Face::B => Axis::FB,
            Face::R => Axis::RL,
            Face::L => Axis::RL,
        }
    }

    /// U, F and R are the primary face of their axis: only after a primary
    /// face may the opposite face of the same axis follow.
    pub open spec fn spec_is_primary(&self) -> bool {
        match self {
            Face::U => true,
            Face::F => true,
            Face::R => true,
            _ => false,
        }
    }

    #[verifier::when_used_as_spec(spec_is_primary)]
    pub fn is_primary(&self) -> (r: bool)
        ensures
            r == self.spec_is_primary(),
    {
        match *self {
            Face::U => true,
            Face::F => true,
            Face::R => true,
            _ => false,
        }
    }

    /// The stable numbering U, D, F, B, R, L = 0..6.
    pub open spec fn spec_index(&self) -> int {
        match self {
            Face::U => 0,
            Face::D => 1,
            Face::F => 2,
            Face::B => 3,
            Face::R => 4,
            Face::L => 5,
        }
    }
}

impl Modifier {
    /// A quarter turn undoes a reverse quarter turn; a half turn undoes
    /// itself.
    pub open spec fn spec_inverse(&self) -> Modifier {
        match self {
            Modifier::Normal => Modifier::Prime,
            Modifier::Twice => Modifier::Twice,
            Modifier::Prime => Modifier::Normal,
        }
    }

    #[verifier::when_used_as_spec(spec_inverse)]
    pub fn inverse(&self) -> (r: Modifier)
        ensures
            r == self.spec_inverse(),
    {
        match *self {
            Modifier::Normal => Modifier::Prime,
            Modifier::Twice => Modifier::Twice,
            Modifier::Prime => Modifier::Normal,
        }
    }

    /// The stable numbering Normal, Twice, Prime = 0..3.
    pub open spec fn spec_index(&self) -> int {
        match self {
            Modifier::Normal => 0,
            Modifier::Twice => 1,
            Modifier::Prime => 2,
        }
    }
}

/// One atomic move: a face and how far it is turned. The 18 generators are
/// numbered `face * 3 + modifier`, U = 0 up to L' = 17.
#[derive(Debug, Copy, Clone, PartialEq, Eq, Structural)]
pub struct Generator {
    pub face: Face,
    pub modifier: Modifier,
}

impl Generator {
    /// The stable move index `face * 3 + modifier`, in `0..18`.
    pub open spec fn spec_index(&self) -> int {
        self.face.spec_index() * 3 + self.modifier.spec_index()
    }

    pub fn index(&self) -> (r: usize)
        ensures
            r == self.spec_index(),
            r < 18,
    {
        let f: usize = match self.face {
            Face::U => 0,
            Face::D => 1,
            Face::F => 2,
            Face::B => 3,
            Face::R => 4,
            Face::L => 5,
        };
        let m: usize = match self.modifier {
            Modifier::Normal => 0,
            Modifier::Twice => 1,
            Modifier::Prime => 2,
        };
        f * 3 + m
    }

    pub open spec fn spec_from_face_and_modifier(f: Face, m: Modifier) -> Generator {
        Generator { face: f, modifier: m }
    }

    pub fn from_face_and_modifier(f: Face, m: Modifier) -> (r: Generator)
        ensures
            r == (Generator { face: f, modifier: m }),
    {
        Generator { face: f, modifier: m }
    }

    /// The generator with the given move index.
    pub open spec fn spec_of_index(i: int) -> Generator {
        Generator {
            face: if i < 3 {
                Face::U
            } else if i < 6 {
                Face::D
            } else if i < 9 {
                Face::F
            } else if i < 12 {
                Face::B
            } else if i < 15 {
                Face::R
            } else {
                Face::L
            },
            modifier: if i % 3 == 0 {
                Modifier::Normal
            } else if i % 3 == 1 {
                Modifier::Twice
            } else {
                Modifier::Prime
            },
        }
    }

    pub fn of_index(i: usize) -> (r: Generator)
        requires
            i < 18,
        ensures
            r == Generator::spec_of_index(i as int),
            r.spec_index() == i,
    {
        let face = if i < 3 {
            Face::U
        } else if i < 6 {
            Face::D
        } else if i < 9 {
            Face::F
        } else if i < 12 {
            Face::B
        } else if i < 15 {
            Face::R
        } else {
            Face::L
        };
        let modifier = if i % 3 == 0 {
            Modifier::Normal
        } else if i % 3 == 1 {
            Modifier::Twice
        } else {
            Modifier::Prime
        };
        Generator { face, modifier }
    }

    /// The first move the enumerator places at depth zero: R.
    pub fn first() -> (r: Generator)
        ensures
            r == (Generator { face: Face::R, modifier: Modifier::Normal }),
    {
        Generator { face: Face::R, modifier: Modifier::Normal }
    }

    /// Every enumerated algorithm begins with an R-family move; the other
    /// starts are reachable as y-rotations of these.
    pub open spec fn spec_starting_moves() -> Seq<Generator> {
        seq![
            Generator { face: Face::R, modifier: Modifier::Normal },
            Generator { face: Face::R, modifier: Modifier::Twice },
            Generator { face: Face::R, modifier: Modifier::Prime },
        ]
    }

    pub fn starting_moves() -> (r: Vec<Generator>)
        ensures
            r@ == Generator::spec_starting_moves(),
    {
        let mut v: Vec<Generator> = Vec::new();
        v.push(Generator { face: Face::R, modifier: Modifier::Normal });
        v.push(Generator { face: Face::R, modifier: Modifier::Twice });
        v.push(Generator { face: Face::R, modifier: Modifier::Prime });
        proof {
            assert(v@ =~= Generator::spec_starting_moves());
        }
        v
    }

    pub open spec fn spec_is_u_move(&self) -> bool {
        self.face == Face::U
    }

    #[verifier::when_used_as_spec(spec_is_u_move)]
    pub fn is_u_move(&self) -> (r: bool)
        ensures
            r == self.spec_is_u_move(),
    {
        self.face == Face::U
    }

    pub open spec fn spec_is_d_move(&self) -> bool {
        self.face == Face::D
    }

    #[verifier::when_used_as_spec(spec_is_d_move)]
    pub fn is_d_move(&self) -> (r: bool)
        ensures
            r == self.spec_is_d_move(),
    {
        self.face == Face::D
    }

    pub open spec fn spec_inverse(&self) -> Generator {
        Generator { face: self.face, modifier: self.modifier.spec_inverse() }
    }

    /// The move that undoes this one: same face, inverted modifier.
    #[verifier::when_used_as_spec(spec_inverse)]
    pub fn inverse(&self) -> (r: Generator)
        ensures
            r == self.spec_inverse(),
    {
        Generator { face: self.face, modifier: self.modifier.inverse() }
    }

    pub open spec fn spec_rotate_y(&self) -> Generator {
        Generator { face: self.face.spec_rotate_y(), modifier: self.modifier }
    }

    /// The image of a move under a y rotation: the face rotates, the
    /// modifier is kept.
    #[verifier::when_used_as_spec(spec_rotate_y)]
    pub fn rotate_y(&self) -> (r: Generator)
        ensures
            r == self.spec_rotate_y(),
    {
        Generator { face: self.face.rotate_y(), modifier: self.modifier }
    }

    pub open spec fn spec_score(&self) -> u16 {
        self.face.spec_score()
    }

    #[verifier::when_used_as_spec(spec_score)]
    pub fn score(&self) -> (r: u16)
        ensures
            r == self.spec_score(),
    {
        self.face.score()
    }

    pub fn components(&self) -> (r: (Face, Modifier))
        ensures
            r == (self.face, self.modifier),
    {
        (self.face, self.modifier)
    }

    /// The successor grammar: `b` may follow `a` when they turn about
    /// different axes, or about the same axis with different faces provided
    /// `a`'s face is the primary one of the axis. This forbids `R R2` and
    /// counts each commuting pair such as `U D` in one order only.
    pub open spec fn spec_is_valid_successor(&self, g: Generator) -> bool {
        g.face.spec_axis() != self.face.spec_axis() || (g.face != self.face
            && self.face.spec_is_primary())
    }

    pub fn is_valid_successor(&self, g: &Generator) -> (r: bool)
        ensures
            r == self.spec_is_valid_successor(*g),
    {
        self.face.axis() != g.face.axis() || (self.face != g.face && self.face.is_primary())
    }

    /// The moves with index below `n` that may follow `self`, in move-index
    /// order.
    pub open spec fn spec_successors_upto(self, n: int) -> Seq<Generator>
        decreases n,
    {
        if n <= 0 {
            Seq::empty()
        } else {
            let rest = self.spec_successors_upto(n - 1);
            if self.spec_is_valid_successor(Generator::spec_of_index(n - 1)) {
                rest.push(Generator::spec_of_index(n - 1))
            } else {
                rest
            }
        }
    }

    /// All moves that may follow `self`, in move-index order.
    pub open spec fn spec_successors(self) -> Seq<Generator> {
        self.spec_successors_upto(18)
    }

    pub fn successors(&self) -> (r: Vec<Generator>)
        ensures
            r@ == self.spec_successors(),
    {
        let mut v: Vec<Generator> = Vec::new();
        for i in 0..18usize
            invariant
                v@ == self.spec_successors_upto(i as int),
        {
            let g = Generator::of_index(i);
            if self.is_valid_successor(&g) {
                v.push(g);
            }
        }
        v
    }
}

/// Every member of a successor list may indeed follow the move, and every
/// valid follower is a member: the executable list and the grammar relation
/// agree.
pub proof fn lemma_successors_complete(a: Generator, b: Generator)
    ensures
        a.spec_successors().contains(b) <==> (a.spec_is_valid_successor(b) && 0 <= b.spec_index()
            < 18),
{
    lemma_successors_upto_complete(a, b, 18);
}

proof fn lemma_successors_upto_complete(a: Generator, b: Generator, n: int)
    requires
        0 <= n <= 18,
    ensures
        a.spec_successors_upto(n).contains(b) <==> (a.spec_is_valid_successor(b) && 0
            <= b.spec_index() < n),
    decreases n,
{
    lemma_of_index_roundtrip();
    if n > 0 {
        lemma_successors_upto_complete(a, b, n - 1);
        let rest = a.spec_successors_upto(n - 1);
        let last = Generator::spec_of_index(n - 1);
        if a.spec_is_valid_successor(last) {
            let cur = rest.push(last);
            assert(cur[rest.len() as int] == last);
            if cur.contains(b) {
                let i = choose|i: int| 0 <= i < cur.len() && cur[i] == b;
                if i < rest.len() {
                    assert(rest[i] == b);
                    assert(rest.contains(b));
                } else {
                    assert(b == last);
                }
            }
            if rest.contains(b) {
                let i = choose|i: int| 0 <= i < rest.len() && rest[i] == b;
                assert(cur[i] == b);
                assert(cur.contains(b));
            }
            if a.spec_is_valid_successor(b) && b.spec_index() == n - 1 {
                assert(b == last);
                assert(cur.contains(b));
            }
        }
    }
}

/// A successor list holds at most one entry per move index.
pub proof fn lemma_successors_len(a: Generator)
    ensures
        a.spec_successors().len() <= 18,
{
    lemma_successors_upto_len(a, 18);
}

proof fn lemma_successors_upto_len(a: Generator, n: int)
    requires
        0 <= n,
    ensures
        a.spec_successors_upto(n).len() <= n,
    decreases n,
{
    if n > 0 {
        lemma_successors_upto_len(a, n - 1);
    }
}

/// Every move has at least one legal follower: a move on another axis.
pub proof fn lemma_successors_nonempty(a: Generator)
    ensures
        a.spec_successors().len() > 0,
{
    let u = Generator { face: Face::U, modifier: Modifier::Normal };
    let f = Generator { face: Face::F, modifier: Modifier::Normal };
    lemma_successors_complete(a, u);
    lemma_successors_complete(a, f);
    if a.face.spec_axis() == Axis::UD {
        assert(a.spec_successors().contains(f));
    } else {
        assert(a.spec_successors().contains(u));
    }
}

/// Indexing and `spec_of_index` are inverse to each other on `0..18`.
pub proof fn lemma_of_index_roundtrip()
    ensures
        forall|i: int|
            0 <= i < 18 ==> (#[trigger] Generator::spec_of_index(i)).spec_index() == i,
        forall|g: Generator| Generator::spec_of_index(#[trigger] g.spec_index()) == g,
        forall|g: Generator| 0 <= #[trigger] g.spec_index() < 18,
{
}

/// The display token of each move: the face letter, then `2` for a half
/// turn or a trailing quote for a reverse quarter turn.
pub open spec fn spec_token(g: Generator) -> Seq<char> {
    match (g.face, g.modifier) {
            (Face::U, Modifier::Normal) => seq!['U'],
            (Face::U, Modifier::Twice) => seq!['U', '2'],
            (Face::U, Modifier::Prime) => seq!['U', '\''],
            (Face::D, Modifier::Normal) => seq!['D'],
            (Face::D, Modifier::Twice) => seq!['D', '2'],
            (Face::D, Modifier::Prime) => seq!['D', '\''],
            (Face::F, Modifier::Normal) => seq!['F'],
            (Face::F, Modifier::Twice) => seq!['F', '2'],
            (Face::F, Modifier::Prime) => seq!['F', '\''],
            (Face::B, Modifier::Normal) => seq!['B'],
            (Face::B, Modifier::Twice) => seq!['B', '2'],
            (Face::B, Modifier::Prime) => seq!['B', '\''],
            (Face::R, Modifier::Normal) => seq!['R'],
            (Face::R, Modifier::Twice) => seq!['R', '2'],
            (Face::R, Modifier::Prime) => seq!['R', '\''],
            (Face::L, Modifier::Normal) => seq!['L'],
            (Face::L, Modifier::Twice) => seq!['L', '2'],
            (Face::L, Modifier::Prime) => seq!['L', '\''],
    }
}

/// The face a single letter names, if any.
pub open spec fn spec_face_of_char(c: char) -> Option<Face> {
    if c == 'U' {
        Some(Face::U)
    } else if c == 'D' {
        Some(Face::D)
    } else if c == 'F' {
        Some(Face::F)
    } else if c == 'B' {
        Some(Face::B)
    } else if c == 'R' {
        Some(Face::R)
    } else if c == 'L' {
        Some(Face::L)
    } else {
        None
    }
}

/// The move a token names, if any: a face letter alone, or followed by `2`
/// or by a quote.
pub open spec fn spec_move_of_token(t: Seq<char>) -> Option<Generator> {
    if t.len() == 1 && (spec_face_of_char(t[0]) is Some) {
        Some(Generator { face: spec_face_of_char(t[0])->Some_0, modifier: Modifier::Normal })
    } else if t.len() == 2 && (spec_face_of_char(t[0]) is Some) && t[1] == '2' {
        Some(Generator { face: spec_face_of_char(t[0])->Some_0, modifier: Modifier::Twice })
    } else if t.len() == 2 && (spec_face_of_char(t[0]) is Some) && t[1] == '\'' {
        Some(Generator { face: spec_face_of_char(t[0])->Some_0, modifier: Modifier::Prime })
    } else {
        None
    }
}

impl Generator {
    /// The display token of this move.
    pub fn token_str(&self) -> (r: &'static str)
        ensures
            r@ == spec_token(*self),
    {
        match (self.face, self.modifier) {
            (Face::U, Modifier::Normal) => {
                proof {
                    reveal_strlit("U");
                    assert("U"@ =~= seq!['U']);
                }
                "U"
            },
            (Face::U, Modifier::Twice) => {
                proof {
                    reveal_strlit("U2");
                    assert("U2"@ =~= seq!['U', '2']);
                }
                "U2"
            },
            (Face::U, Modifier::Prime) => {
                proof {
                    reveal_strlit("U'");
                    assert("U'"@ =~= seq!['U', '\'']);
                }
                "U'"
            },
            (Face::D, Modifier::Normal) => {
                proof {
                    reveal_strlit("D");
                    assert("D"@ =~= seq!['D']);
                }
                "D"
            },
            (Face::D, Modifier::Twice) => {
                proof {
                    reveal_strlit("D2");
                    assert("D2"@ =~= seq!['D', '2']);
                }
                "D2"
            },
            (Face::D, Modifier::Prime) => {
                proof {
                    reveal_strlit("D'");
                    assert("D'"@ =~= seq!['D', '\'']);
                }
                "D'"
            },
            (Face::F, Modifier::Normal) => {
                proof {
                    reveal_strlit("F");
                    assert("F"@ =~= seq!['F']);
                }
                "F"
            },
            (Face::F, Modifier::Twice) => {
                proof {
                    reveal_strlit("F2");
                    assert("F2"@ =~= seq!['F', '2']);
                }
                "F2"
            },
            (Face::F, Modifier::Prime) => {
                proof {
                    reveal_strlit("F'");
                    assert("F'"@ =~= seq!['F', '\'']);
                }
                "F'"
            },
            (Face::B, Modifier::Normal) => {
                proof {
                    reveal_strlit("B");
                    assert("B"@ =~= seq!['B']);
                }
                "B"
            },
            (Face::B, Modifier::Twice) => {
                proof {
                    reveal_strlit("B2");
                    assert("B2"@ =~= seq!['B', '2']);
                }
                "B2"
            },
            (Face::B, Modifier::Prime) => {
                proof {
                    reveal_strlit("B'");
                    assert("B'"@ =~= seq!['B', '\'']);
                }
                "B'"
            },
            (Face::R, Modifier::Normal) => {
                proof {
                    reveal_strlit("R");
                    assert("R"@ =~= seq!['R']);
                }
                "R"
            },
            (Face::R, Modifier::Twice) => {
                proof {
                    reveal_strlit("R2");
                    assert("R2"@ =~= seq!['R', '2']);
                }
                "R2"
            },
            (Face::R, Modifier::Prime) => {
                proof {
                    reveal_strlit("R'");
                    assert("R'"@ =~= seq!['R', '\'']);
                }
                "R'"
            },
            (Face::L, Modifier::Normal) => {
                proof {
                    reveal_strlit("L");
                    assert("L"@ =~= seq!['L']);
                }
                "L"
            },
            (Face::L, Modifier::Twice) => {
                proof {
                    reveal_strlit("L2");
                    assert("L2"@ =~= seq!['L', '2']);
                }
                "L2"
            },
            (Face::L, Modifier::Prime) => {
                proof {
                    reveal_strlit("L'");
                    assert("L'"@ =~= seq!['L', '\'']);
                }
                "L'"
            },
        }
    }
}

} // verus!
