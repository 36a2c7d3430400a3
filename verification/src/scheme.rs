//! Recognition of the fixed set of URL schemes, one character at a time.
//!
//! The recognizer never stores the characters it has seen. Its state is one
//! value of [`SchemeState`], which stands for the letters matched so far; what
//! a state means is given by its view, a [`Progress`], and what a character
//! does to it by [`Progress::step`], which is stated over the list of scheme
//! names alone.

use vstd::prelude::*;

verus! {

/// The scheme names that are recognized, in lower case.
pub open spec fn schemes() -> Seq<Seq<char>> {
    seq![
        seq!['h', 't', 't', 'p'],
        seq!['h', 't', 't', 'p', 's'],
        seq!['f', 't', 'p'],
        seq!['f', 'i', 'l', 'e'],
        seq!['m', 'a', 'i', 'l', 't', 'o'],
        seq!['n', 'e', 'w', 's'],
        seq!['g', 'e', 'm', 'i', 'n', 'i'],
        seq!['g', 'i', 't'],
        seq!['g', 'o', 'p', 'h', 'e', 'r'],
        seq!['s', 's', 'h'],
    ]
}

/// `w` is one of the recognized scheme names.
pub open spec fn is_scheme(w: Seq<char>) -> bool {
    exists|i: int| 0 <= i < schemes().len() && #[trigger] schemes()[i] == w
}

/// `w` is the beginning (possibly all) of a recognized scheme name.
pub open spec fn is_scheme_prefix(w: Seq<char>) -> bool {
    exists|i: int| 0 <= i < schemes().len() && w.is_prefix_of(#[trigger] schemes()[i])
}

/// `c` is one of the letters `a` to `z` or `A` to `Z`.
pub open spec fn is_ascii_letter(c: char) -> bool {
    ('a' <= c && c <= 'z') || ('A' <= c && c <= 'Z')
}

/// The lower-case form of an ASCII capital letter; any other character unchanged.
pub open spec fn to_lower(c: char) -> char {
    if 'A' <= c && c <= 'Z' {
        ((c as u32) + 32) as char
    } else {
        c
    }
}

/// `w` with every ASCII capital letter replaced by its lower-case form.
pub open spec fn lowered(w: Seq<char>) -> Seq<char> {
    w.map_values(|c: char| to_lower(c))
}

/// What a scheme recognizer knows about the characters it has consumed.
#[verifier::ext_equal]
pub enum Progress {
    /// The letters consumed so far, lower-cased, are the beginning of a scheme
    /// name. The empty sequence is the starting point.
    Matched(Seq<char>),
    /// A whole scheme name and the colon after it have been consumed.
    Complete,
    /// Letters have been consumed that begin no scheme name.
    Invalid,
}

impl Progress {
    /// The progress of a recognizer that has consumed nothing.
    pub open spec fn start() -> Progress {
        Progress::Matched(Seq::empty())
    }

    /// The progress after one more character.
    ///
    /// A letter that continues a scheme name extends the match. A colon right
    /// after a whole scheme name completes it. Any other letter leads to
    /// [`Progress::Invalid`], where the recognizer stays while letters keep
    /// coming, and any other character sends it back to the start.
    pub open spec fn step(self, c: char) -> Progress {
        match self {
            Progress::Matched(w) => {
                if is_ascii_letter(c) && is_scheme_prefix(w.push(to_lower(c))) {
                    Progress::Matched(w.push(to_lower(c)))
                } else if c == ':' && is_scheme(w) {
                    Progress::Complete
                } else if is_ascii_letter(c) {
                    Progress::Invalid
                } else {
                    Progress::start()
                }
            },
            _ => {
                if is_ascii_letter(c) {
                    Progress::Invalid
                } else {
                    Progress::start()
                }
            },
        }
    }
}

/// State of the scheme recognizer.
///
/// Each state but the last three is named after the letters that lead to it.
/// `RESET` is both the starting state and the signal that the input cannot be
/// the beginning of a scheme.
#[derive(Debug, Copy, Clone, PartialEq, Eq, Hash, Structural)]
pub enum SchemeState {
    H,
    HT,
    HTT,
    HTTP,
    HTTPS,
    F,
    FT,
    FTP,
    FI,
    FIL,
    FILE,
    M,
    MA,
    MAI,
    MAIL,
    MAILT,
    MAILTO,
    N,
    NE,
    NEW,
    NEWS,
    G,
    GE,
    GEM,
    GEMI,
    GEMIN,
    GEMINI,
    GI,
    GIT,
    GO,
    GOP,
    GOPH,
    GOPHE,
    GOPHER,
    S,
    SS,
    SSH,
    COMPLETE,
    INVALID,
    RESET,
}

impl View for SchemeState {
    type V = Progress;

    open spec fn view(&self) -> Progress {
        match self {
            SchemeState::COMPLETE => Progress::Complete,
            SchemeState::INVALID => Progress::Invalid,
            _ => Progress::Matched(self.word()),
        }
    }
}

impl Default for SchemeState {
    fn default() -> (state: Self)
        ensures
            state == SchemeState::RESET,
    {
        SchemeState::RESET
    }
}

impl SchemeState {
    /// The letters that lead to this state; empty for the three states that
    /// are not named after letters.
    pub open spec fn word(self) -> Seq<char> {
        match self {
            SchemeState::RESET => seq![],
            SchemeState::H => seq!['h'],
            SchemeState::HT => seq!['h', 't'],
            SchemeState::HTT => seq!['h', 't', 't'],
            SchemeState::HTTP => seq!['h', 't', 't', 'p'],
            SchemeState::HTTPS => seq!['h', 't', 't', 'p', 's'],
            SchemeState::F => seq!['f'],
            SchemeState::FT => seq!['f', 't'],
            SchemeState::FTP => seq!['f', 't', 'p'],
            SchemeState::FI => seq!['f', 'i'],
            SchemeState::FIL => seq!['f', 'i', 'l'],
            SchemeState::FILE => seq!['f', 'i', 'l', 'e'],
            SchemeState::M => seq!['m'],
            SchemeState::MA => seq!['m', 'a'],
            SchemeState::MAI => seq!['m', 'a', 'i'],
            SchemeState::MAIL => seq!['m', 'a', 'i', 'l'],
            SchemeState::MAILT => seq!['m', 'a', 'i', 'l', 't'],
            SchemeState::MAILTO => seq!['m', 'a', 'i', 'l', 't', 'o'],
            SchemeState::N => seq!['n'],
            SchemeState::NE => seq!['n', 'e'],
            SchemeState::NEW => seq!['n', 'e', 'w'],
            SchemeState::NEWS => seq!['n', 'e', 'w', 's'],
            SchemeState::G => seq!['g'],
            SchemeState::GE => seq!['g', 'e'],
            SchemeState::GEM => seq!['g', 'e', 'm'],
            SchemeState::GEMI => seq!['g', 'e', 'm', 'i'],
            SchemeState::GEMIN => seq!['g', 'e', 'm', 'i', 'n'],
            SchemeState::GEMINI => seq!['g', 'e', 'm', 'i', 'n', 'i'],
            SchemeState::GI => seq!['g', 'i'],
            SchemeState::GIT => seq!['g', 'i', 't'],
            SchemeState::GO => seq!['g', 'o'],
            SchemeState::GOP => seq!['g', 'o', 'p'],
            SchemeState::GOPH => seq!['g', 'o', 'p', 'h'],
            SchemeState::GOPHE => seq!['g', 'o', 'p', 'h', 'e'],
            SchemeState::GOPHER => seq!['g', 'o', 'p', 'h', 'e', 'r'],
            SchemeState::S => seq!['s'],
            SchemeState::SS => seq!['s', 's'],
            SchemeState::SSH => seq!['s', 's', 'h'],
            SchemeState::COMPLETE | SchemeState::INVALID => seq![],
        }
    }

    /// Consume one character.
    ///
    /// The result is `RESET` when the characters consumed since the start can
    /// no longer become a scheme followed by a colon, and `COMPLETE` when they
    /// just have.
    pub fn advance(self, c: char) -> (next: Self)
        ensures
            next@ == self@.step(c),
    {
        proof {
            self.lemma_step(c);
        }
        match (self, c) {
            (SchemeState::RESET, 'h') | (SchemeState::RESET, 'H') => SchemeState::H,
            (SchemeState::H, 't') | (SchemeState::H, 'T') => SchemeState::HT,
            (SchemeState::HT, 't') | (SchemeState::HT, 'T') => SchemeState::HTT,
            (SchemeState::HTT, 'p') | (SchemeState::HTT, 'P') => SchemeState::HTTP,
            (SchemeState::HTTP, 's') | (SchemeState::HTTP, 'S') => SchemeState::HTTPS,
            (SchemeState::RESET, 'f') | (SchemeState::RESET, 'F') => SchemeState::F,
            (SchemeState::F, 't') | (SchemeState::F, 'T') => SchemeState::FT,
            (SchemeState::FT, 'p') | (SchemeState::FT, 'P') => SchemeState::FTP,
            (SchemeState::F, 'i') | (SchemeState::F, 'I') => SchemeState::FI,
            (SchemeState::FI, 'l') | (SchemeState::FI, 'L') => SchemeState::FIL,
            (SchemeState::FIL, 'e') | (SchemeState::FIL, 'E') => SchemeState::FILE,
            (SchemeState::RESET, 'm') | (SchemeState::RESET, 'M') => SchemeState::M,
            (SchemeState::M, 'a') | (SchemeState::M, 'A') => SchemeState::MA,
            (SchemeState::MA, 'i') | (SchemeState::MA, 'I') => SchemeState::MAI,
            (SchemeState::MAI, 'l') | (SchemeState::MAI, 'L') => SchemeState::MAIL,
            (SchemeState::MAIL, 't') | (SchemeState::MAIL, 'T') => SchemeState::MAILT,
            (SchemeState::MAILT, 'o') | (SchemeState::MAILT, 'O') => SchemeState::MAILTO,
            (SchemeState::RESET, 'n') | (SchemeState::RESET, 'N') => SchemeState::N,
            (SchemeState::N, 'e') | (SchemeState::N, 'E') => SchemeState::NE,
            (SchemeState::NE, 'w') | (SchemeState::NE, 'W') => SchemeState::NEW,
            (SchemeState::NEW, 's') | (SchemeState::NEW, 'S') => SchemeState::NEWS,
            (SchemeState::RESET, 'g') | (SchemeState::RESET, 'G') => SchemeState::G,
            (SchemeState::G, 'e') | (SchemeState::G, 'E') => SchemeState::GE,
            (SchemeState::GE, 'm') | (SchemeState::GE, 'M') => SchemeState::GEM,
            (SchemeState::GEM, 'i') | (SchemeState::GEM, 'I') => SchemeState::GEMI,
            (SchemeState::GEMI, 'n') | (SchemeState::GEMI, 'N') => SchemeState::GEMIN,
            (SchemeState::GEMIN, 'i') | (SchemeState::GEMIN, 'I') => SchemeState::GEMINI,
            (SchemeState::G, 'i') | (SchemeState::G, 'I') => SchemeState::GI,
            (SchemeState::GI, 't') | (SchemeState::GI, 'T') => SchemeState::GIT,
            (SchemeState::G, 'o') | (SchemeState::G, 'O') => SchemeState::GO,
            (SchemeState::GO, 'p') | (SchemeState::GO, 'P') => SchemeState::GOP,
            (SchemeState::GOP, 'h') | (SchemeState::GOP, 'H') => SchemeState::GOPH,
            (SchemeState::GOPH, 'e') | (SchemeState::GOPH, 'E') => SchemeState::GOPHE,
            (SchemeState::GOPHE, 'r') | (SchemeState::GOPHE, 'R') => SchemeState::GOPHER,
            (SchemeState::RESET, 's') | (SchemeState::RESET, 'S') => SchemeState::S,
            (SchemeState::S, 's') | (SchemeState::S, 'S') => SchemeState::SS,
            (SchemeState::SS, 'h') | (SchemeState::SS, 'H') => SchemeState::SSH,
            (SchemeState::HTTP, ':') => SchemeState::COMPLETE,
            (SchemeState::HTTPS, ':') => SchemeState::COMPLETE,
            (SchemeState::FTP, ':') => SchemeState::COMPLETE,
            (SchemeState::FILE, ':') => SchemeState::COMPLETE,
            (SchemeState::MAILTO, ':') => SchemeState::COMPLETE,
            (SchemeState::NEWS, ':') => SchemeState::COMPLETE,
            (SchemeState::GEMINI, ':') => SchemeState::COMPLETE,
            (SchemeState::GIT, ':') => SchemeState::COMPLETE,
            (SchemeState::GOPHER, ':') => SchemeState::COMPLETE,
            (SchemeState::SSH, ':') => SchemeState::COMPLETE,
            (_, 'a'..='z') | (_, 'A'..='Z') => SchemeState::INVALID,
            _ => SchemeState::RESET,
        }
    }

    /// No two states stand for the same progress, so the view of the state
    /// that [`advance`](SchemeState::advance) returns says which state it is.
    pub proof fn lemma_view_injective(a: SchemeState, b: SchemeState)
        requires
            a@ == b@,
        ensures
            a == b,
    {
        let x = a.word();
        let y = b.word();
        if a@ is Matched {
            assert(x == y);
            assert(x.len() == y.len());
            assert(x.len() > 0 ==> x[0] == y[0]);
            assert(x.len() > 1 ==> x[1] == y[1]);
            assert(x.len() > 2 ==> x[2] == y[2]);
            assert(x.len() > 3 ==> x[3] == y[3]);
            assert(x.len() > 4 ==> x[4] == y[4]);
            assert(x.len() > 5 ==> x[5] == y[5]);
        }
    }

    /// The letters of every state that is named after letters begin a scheme
    /// name.
    pub proof fn lemma_word_is_scheme_prefix(self)
        ensures
            is_scheme_prefix(self.word()),
    {
        if self@ is Matched {
            self.lemma_candidates();
            assert(self.word().is_prefix_of(schemes()[self.span().0]));
        } else {
            assert(self.word().is_prefix_of(schemes()[0]));
        }
    }
}

/// Every scheme name consists of the letters `a` to `z`.
pub proof fn lemma_schemes_are_lowercase(i: int, j: int)
    requires
        0 <= i < schemes().len(),
        0 <= j < schemes()[i].len(),
    ensures
        'a' <= schemes()[i][j] <= 'z',
{
}

/// One more character at the end of `w` keeps it a prefix of `s` exactly when
/// `w` is a prefix of `s` and `s` goes on with that character.
proof fn lemma_prefix_push(w: Seq<char>, c: char, s: Seq<char>)
    ensures
        w.push(c).is_prefix_of(s) <==> (w.is_prefix_of(s) && w.len() < s.len() && s[w.len() as int]
            == c),
{
    let k = w.len() as int;
    if w.push(c).is_prefix_of(s) {
        assert(w.push(c)[k] == s.subrange(0, k + 1)[k]);
        assert forall|j: int| 0 <= j < k implies w[j] == s.subrange(0, k)[j] by {
            assert(w.push(c)[j] == s.subrange(0, k + 1)[j]);
        }
        assert(w =~= s.subrange(0, k));
    }
    if w.is_prefix_of(s) && k < s.len() && s[k] == c {
        assert forall|j: int| 0 <= j < k + 1 implies w.push(c)[j] == s.subrange(0, k + 1)[j] by {
            if j < k {
                assert(w[j] == s.subrange(0, k)[j]);
            }
        }
        assert(w.push(c) =~= s.subrange(0, k + 1));
    }
}

// How the states follow from the list of names. In `schemes()` the names that
// share a beginning stand side by side, so those that begin with the letters
// of a state are a span of positions. A state's span is found from that of
// the state one letter shorter, and a step is decided by the names in the
// span alone.
impl SchemeState {
    /// The positions in `schemes()`, from the first up to but not including
    /// the second, of the names that begin with this state's letters.
    spec fn span(self) -> (int, int) {
        match self {
            SchemeState::RESET => (0, 10),
            SchemeState::H | SchemeState::HT | SchemeState::HTT | SchemeState::HTTP => (0, 2),
            SchemeState::HTTPS => (1, 2),
            SchemeState::F => (2, 4),
            SchemeState::FT | SchemeState::FTP => (2, 3),
            SchemeState::FI | SchemeState::FIL | SchemeState::FILE => (3, 4),
            SchemeState::M | SchemeState::MA | SchemeState::MAI | SchemeState::MAIL
            | SchemeState::MAILT | SchemeState::MAILTO => (4, 5),
            SchemeState::N | SchemeState::NE | SchemeState::NEW | SchemeState::NEWS => (5, 6),
            SchemeState::G => (6, 9),
            SchemeState::GE | SchemeState::GEM | SchemeState::GEMI | SchemeState::GEMIN
            | SchemeState::GEMINI => (6, 7),
            SchemeState::GI | SchemeState::GIT => (7, 8),
            SchemeState::GO | SchemeState::GOP | SchemeState::GOPH | SchemeState::GOPHE
            | SchemeState::GOPHER => (8, 9),
            SchemeState::S | SchemeState::SS | SchemeState::SSH => (9, 10),
            SchemeState::COMPLETE | SchemeState::INVALID => (0, 0),
        }
    }

    /// The scheme names that begin with this state's letters are those in
    /// its span.
    spec fn spans_candidates(self) -> bool {
        forall|i: int|
            0 <= i < schemes().len() ==> (self.word().is_prefix_of(#[trigger] schemes()[i])
                <==> self.span().0 <= i < self.span().1)
    }

    /// Every state that is named after letters spans its candidates.
    proof fn lemma_candidates(self)
        requires
            self@ is Matched,
        ensures
            self.spans_candidates(),
        decreases self.word().len(), 1nat,
    {
        match self {
            SchemeState::RESET => {
                assert forall|i: int| 0 <= i < schemes().len() implies self.word().is_prefix_of(
                    #[trigger] schemes()[i],
                ) by {
                    assert(self.word() =~= schemes()[i].subrange(0, 0));
                }
            },
            SchemeState::H | SchemeState::HT | SchemeState::HTT | SchemeState::HTTP
            | SchemeState::HTTPS => self.lemma_candidates_h(),
            SchemeState::F | SchemeState::FT | SchemeState::FTP | SchemeState::FI
            | SchemeState::FIL | SchemeState::FILE => self.lemma_candidates_f(),
            SchemeState::M | SchemeState::MA | SchemeState::MAI | SchemeState::MAIL
            | SchemeState::MAILT | SchemeState::MAILTO => self.lemma_candidates_m(),
            SchemeState::N | SchemeState::NE
            | SchemeState::NEW | SchemeState::NEWS => self.lemma_candidates_n(),
            SchemeState::G | SchemeState::GE | SchemeState::GEM | SchemeState::GEMI
            | SchemeState::GEMIN | SchemeState::GEMINI => self.lemma_candidates_ge(),
            SchemeState::GI | SchemeState::GIT | SchemeState::GO | SchemeState::GOP
            | SchemeState::GOPH | SchemeState::GOPHE
            | SchemeState::GOPHER => self.lemma_candidates_go(),
            SchemeState::S | SchemeState::SS | SchemeState::SSH => self.lemma_candidates_s(),
            SchemeState::COMPLETE | SchemeState::INVALID => {},
        }
    }

    /// The same, for the states on the way to `http` and `https`.
    proof fn lemma_candidates_h(self)
        requires
            self is H || self is HT || self is HTT || self is HTTP || self is HTTPS,
        ensures
            self.spans_candidates(),
        decreases self.word().len(), 0nat,
    {
        match self {
            SchemeState::H => Self::lemma_child(SchemeState::RESET, 'h'),
            SchemeState::HT => Self::lemma_child(SchemeState::H, 't'),
            SchemeState::HTT => Self::lemma_child(SchemeState::HT, 't'),
            SchemeState::HTTP => Self::lemma_child(SchemeState::HTT, 'p'),
            SchemeState::HTTPS => Self::lemma_child(SchemeState::HTTP, 's'),
            _ => {},
        }
    }

    /// The same, for the states on the way to `ftp` and `file`.
    proof fn lemma_candidates_f(self)
        requires
            self is F || self is FT || self is FTP || self is FI || self is FIL
            || self is FILE,
        ensures
            self.spans_candidates(),
        decreases self.word().len(), 0nat,
    {
        match self {
            SchemeState::F => Self::lemma_child(SchemeState::RESET, 'f'),
            SchemeState::FT => Self::lemma_child(SchemeState::F, 't'),
            SchemeState::FTP => Self::lemma_child(SchemeState::FT, 'p'),
            SchemeState::FI => Self::lemma_child(SchemeState::F, 'i'),
            SchemeState::FIL => Self::lemma_child(SchemeState::FI, 'l'),
            SchemeState::FILE => Self::lemma_child(SchemeState::FIL, 'e'),
            _ => {},
        }
    }

    /// The same, for the states on the way to `mailto`.
    proof fn lemma_candidates_m(self)
        requires
            self is M || self is MA || self is MAI || self is MAIL || self is MAILT
            || self is MAILTO,
        ensures
            self.spans_candidates(),
        decreases self.word().len(), 0nat,
    {
        match self {
            SchemeState::M => Self::lemma_child(SchemeState::RESET, 'm'),
            SchemeState::MA => Self::lemma_child(SchemeState::M, 'a'),
            SchemeState::MAI => Self::lemma_child(SchemeState::MA, 'i'),
            SchemeState::MAIL => Self::lemma_child(SchemeState::MAI, 'l'),
            SchemeState::MAILT => Self::lemma_child(SchemeState::MAIL, 't'),
            SchemeState::MAILTO => Self::lemma_child(SchemeState::MAILT, 'o'),
            _ => {},
        }
    }

    /// The same, for the states on the way to `news`.
    proof fn lemma_candidates_n(self)
        requires
            self is N || self is NE || self is NEW || self is NEWS,
        ensures
            self.spans_candidates(),
        decreases self.word().len(), 0nat,
    {
        match self {
            SchemeState::N => Self::lemma_child(SchemeState::RESET, 'n'),
            SchemeState::NE => Self::lemma_child(SchemeState::N, 'e'),
            SchemeState::NEW => Self::lemma_child(SchemeState::NE, 'w'),
            SchemeState::NEWS => Self::lemma_child(SchemeState::NEW, 's'),
            _ => {},
        }
    }

    /// The same, for the states on the way to `gemini`.
    proof fn lemma_candidates_ge(self)
        requires
            self is G || self is GE || self is GEM || self is GEMI || self is GEMIN
            || self is GEMINI,
        ensures
            self.spans_candidates(),
        decreases self.word().len(), 0nat,
    {
        match self {
            SchemeState::G => Self::lemma_child(SchemeState::RESET, 'g'),
            SchemeState::GE => Self::lemma_child(SchemeState::G, 'e'),
            SchemeState::GEM => Self::lemma_child(SchemeState::GE, 'm'),
            SchemeState::GEMI => Self::lemma_child(SchemeState::GEM, 'i'),
            SchemeState::GEMIN => Self::lemma_child(SchemeState::GEMI, 'n'),
            SchemeState::GEMINI => Self::lemma_child(SchemeState::GEMIN, 'i'),
            _ => {},
        }
    }

    /// The same, for the states on the way to `git` and `gopher`.
    proof fn lemma_candidates_go(self)
        requires
            self is GI || self is GIT || self is GO || self is GOP || self is GOPH
            || self is GOPHE || self is GOPHER,
        ensures
            self.spans_candidates(),
        decreases self.word().len(), 0nat,
    {
        match self {
            SchemeState::GI => Self::lemma_child(SchemeState::G, 'i'),
            SchemeState::GIT => Self::lemma_child(SchemeState::GI, 't'),
            SchemeState::GO => Self::lemma_child(SchemeState::G, 'o'),
            SchemeState::GOP => Self::lemma_child(SchemeState::GO, 'p'),
            SchemeState::GOPH => Self::lemma_child(SchemeState::GOP, 'h'),
            SchemeState::GOPHE => Self::lemma_child(SchemeState::GOPH, 'e'),
            SchemeState::GOPHER => Self::lemma_child(SchemeState::GOPHE, 'r'),
            _ => {},
        }
    }

    /// The same, for the states on the way to `ssh`.
    proof fn lemma_candidates_s(self)
        requires
            self is S || self is SS || self is SSH,
        ensures
            self.spans_candidates(),
        decreases self.word().len(), 0nat,
    {
        match self {
            SchemeState::S => Self::lemma_child(SchemeState::RESET, 's'),
            SchemeState::SS => Self::lemma_child(SchemeState::S, 's'),
            SchemeState::SSH => Self::lemma_child(SchemeState::SS, 'h'),
            _ => {},
        }
    }

    /// The scheme names that begin with this state's letters and then `x`
    /// are those in its span that have `x` at that position.
    proof fn lemma_child(parent: SchemeState, x: char)
        requires
            parent@ is Matched,
        ensures
            forall|i: int|
                0 <= i < schemes().len() ==> (parent.word().push(x).is_prefix_of(
                    #[trigger] schemes()[i],
                ) <==> (parent.span().0 <= i < parent.span().1 && parent.word().len()
                    < schemes()[i].len() && schemes()[i][parent.word().len() as int] == x)),
        decreases parent.word().len(), 2nat,
    {
        parent.lemma_candidates();
        assert forall|i: int| 0 <= i < schemes().len() implies (parent.word().push(x).is_prefix_of(
            #[trigger] schemes()[i],
        ) <==> (parent.span().0 <= i < parent.span().1 && parent.word().len()
            < schemes()[i].len() && schemes()[i][parent.word().len() as int] == x)) by {
            lemma_prefix_push(parent.word(), x, schemes()[i]);
        }
    }

    /// This state's letters are a whole scheme name exactly when a name in
    /// its span is as long as they are.
    proof fn lemma_terminal(self)
        requires
            self@ is Matched,
        ensures
            is_scheme(self.word()) <==> exists|i: int|
                self.span().0 <= i < self.span().1 && (#[trigger] schemes()[i]).len()
                    == self.word().len(),
    {
        self.lemma_candidates();
        let w = self.word();
        if is_scheme(w) {
            let i = choose|i: int| 0 <= i < schemes().len() && #[trigger] schemes()[i] == w;
            assert(w =~= schemes()[i].subrange(0, w.len() as int));
        }
        if exists|i: int|
            self.span().0 <= i < self.span().1 && (#[trigger] schemes()[i]).len() == w.len() {
            let i = choose|i: int|
                self.span().0 <= i < self.span().1 && (#[trigger] schemes()[i]).len() == w.len();
            assert(w.is_prefix_of(schemes()[i]));
            assert(w =~= schemes()[i]);
        }
    }

    /// The step from this state, decided by the names in its span alone.
    proof fn lemma_step(self, c: char)
        ensures
            self@.step(c) == (if self@ is Matched && is_ascii_letter(c) && (exists|i: int|
                self.span().0 <= i < self.span().1 && self.word().len() < (
                #[trigger] schemes()[i]).len() && schemes()[i][self.word().len() as int]
                    == to_lower(c)) {
                Progress::Matched(self.word().push(to_lower(c)))
            } else if self@ is Matched && c == ':' && (exists|i: int|
                self.span().0 <= i < self.span().1 && (#[trigger] schemes()[i]).len()
                    == self.word().len()) {
                Progress::Complete
            } else if is_ascii_letter(c) {
                Progress::Invalid
            } else {
                Progress::start()
            }),
    {
        if self@ is Matched {
            Self::lemma_child(self, to_lower(c));
            self.lemma_terminal();
        }
    }
}

} // verus!
