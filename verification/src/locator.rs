//! The parser: a [`UrlLocator`] is fed one character at a time and says for each
//! where in a URL, if in any, that character stands.

use crate::model::{is_illegal_at_end, LocatorModel, Position};
use crate::scheme::{Progress, SchemeState};
use vstd::prelude::*;

verus! {

/// Position of the URL parser.
#[derive(Copy, Clone, Debug, PartialEq, Eq, Hash, Structural)]
pub enum UrlLocation {
    /// Current location is the end of a valid URL.
    ///
    /// The first number is the length of the URL, the second the number of
    /// characters between its end and the current location.
    Url(u16, u16),
    /// Current location is possibly a URL scheme.
    Scheme,
    /// Last advancement has reset the URL parser.
    Reset,
}

/// URL parser positional state.
#[derive(Copy, Clone, Debug, PartialEq, Eq, Hash, Structural)]
enum State {
    /// Parsing the URL scheme.
    Scheme(SchemeState),
    /// Parsing a valid URL.
    Url,
}

impl View for State {
    type V = Position;

    closed spec fn view(&self) -> Position {
        match self {
            State::Scheme(state) => Position::Scheme(state@),
            State::Url => Position::Url,
        }
    }
}

impl Default for State {
    fn default() -> (state: Self)
        ensures
            state@ == Position::Scheme(Progress::start()),
    {
        State::Scheme(SchemeState::RESET)
    }
}

/// URL parser.
#[derive(Copy, Clone, Debug, PartialEq, Eq, Hash, Structural)]
pub struct UrlLocator {
    state: State,
    illegal_end_chars: u16,
    len: u16,
    // As wide as `len`, which counts every parenthesis and bracket too, so
    // that neither can overflow before `len` does.
    open_parentheses: u16,
    open_brackets: u16,
}

impl View for UrlLocator {
    type V = LocatorModel;

    closed spec fn view(&self) -> LocatorModel {
        LocatorModel {
            position: self.state@,
            len: self.len as nat,
            illegal_end_chars: self.illegal_end_chars as nat,
            open_parentheses: self.open_parentheses as nat,
            open_brackets: self.open_brackets as nat,
        }
    }
}

impl Default for UrlLocator {
    fn default() -> (locator: Self)
        ensures
            locator@ == LocatorModel::initial(),
    {
        UrlLocator {
            state: State::default(),
            illegal_end_chars: 0,
            len: 0,
            open_parentheses: 0,
            open_brackets: 0,
        }
    }
}

impl UrlLocator {
    /// No counter runs ahead of the count of all characters.
    #[verifier::type_invariant]
    spec fn counters_fit(self) -> bool {
        &&& self.illegal_end_chars <= self.len
        &&& self.open_parentheses + self.open_brackets <= self.len
    }

    /// Create a new parser.
    pub fn new() -> (locator: Self)
        ensures
            locator@ == LocatorModel::initial(),
    {
        Self::default()
    }

    /// Advance the parser by one char.
    ///
    /// The count of characters since the last reset is kept in sixteen bits,
    /// so the parser must not already have counted `u16::MAX` of them.
    pub fn advance(&mut self, c: char) -> (location: UrlLocation)
        requires
            old(self)@.len < u16::MAX,
        ensures
            final(self)@ == old(self)@.step(c),
            location == old(self)@.locate(c),
            location is Reset <==> final(self)@ == LocatorModel::initial(),
    {
        proof {
            use_type_invariant(&*self);
        }
        self.len += 1;

        match self.state {
            State::Scheme(state) => self.advance_scheme(state, c),
            State::Url => self.advance_url(c),
        }
    }

    /// The state as it was before the character now being handled was counted.
    spec fn uncounted(self) -> LocatorModel {
        LocatorModel { len: (self.len - 1) as nat, ..self@ }
    }

    /// Handle a character, already counted, that comes before the URL.
    fn advance_scheme(&mut self, state: SchemeState, c: char) -> (location: UrlLocation)
        requires
            old(self).state == State::Scheme(state),
            old(self).len >= 1,
        ensures
            final(self)@ == old(self).uncounted().step(c),
            location == old(self).uncounted().locate(c),
    {
        let next = state.advance(c);
        proof {
            use_type_invariant(&*self);
            if next@ == Progress::start() {
                SchemeState::lemma_view_injective(next, SchemeState::RESET);
            }
        }
        self.state = match next {
            SchemeState::RESET => return self.reset(),
            SchemeState::COMPLETE => State::Url,
            state => State::Scheme(state),
        };

        UrlLocation::Scheme
    }

    /// Handle a character, already counted, that comes inside the URL.
    fn advance_url(&mut self, c: char) -> (location: UrlLocation)
        requires
            old(self).state == State::Url,
            old(self).illegal_end_chars < old(self).len,
            old(self).open_parentheses + old(self).open_brackets < old(self).len,
        ensures
            final(self)@ == old(self).uncounted().step(c),
            location == old(self).uncounted().locate(c),
    {
        proof {
            use_type_invariant(&*self);
        }
        if Self::is_illegal_at_end(c) {
            self.illegal_end_chars += 1;
        } else {
            self.illegal_end_chars = 0;
        }

        self.url(c)
    }

    /// Handle a character inside the URL that has been counted, also in the
    /// run of characters that may not end a URL: end the URL or keep track of
    /// parentheses and brackets, and report the URL as the counters give it.
    fn url(&mut self, c: char) -> (location: UrlLocation)
        requires
            old(self).state == State::Url,
            old(self).open_parentheses + old(self).open_brackets < old(self).len,
        ensures
            final(self)@ == (if old(self)@.resets(c) {
                LocatorModel::initial()
            } else {
                LocatorModel {
                    open_parentheses: old(self)@.step(c).open_parentheses,
                    open_brackets: old(self)@.step(c).open_brackets,
                    ..old(self)@
                }
            }),
            location == (if old(self)@.resets(c) {
                UrlLocation::Reset
            } else {
                UrlLocation::Url(
                    (old(self).len - old(self).illegal_end_chars) as u16,
                    old(self).illegal_end_chars,
                )
            }),
    {
        proof {
            use_type_invariant(&*self);
        }
        match c {
            '(' => self.open_parentheses += 1,
            '[' => self.open_brackets += 1,
            ')' => {
                if self.open_parentheses == 0 {
                    return self.reset();
                } else {
                    self.open_parentheses -= 1;
                }
            },
            ']' => {
                if self.open_brackets == 0 {
                    return self.reset();
                } else {
                    self.open_brackets -= 1;
                }
            },
            // Illegal URL characters
            '\u{00}'..='\u{1F}'
            | '\u{7F}'..='\u{9F}'
            | '<'
            | '>'
            | '"'
            | ' '
            | '{'..='}'
            | '\\'
            | '^'
            | '\u{27E8}'
            | '\u{27E9}'
            | '`' => return self.reset(),
            _ => (),
        }

        self.state = State::Url;

        UrlLocation::Url(self.len - self.illegal_end_chars, self.illegal_end_chars)
    }

    /// Whether `c` may stand inside a URL but not at its end.
    fn is_illegal_at_end(c: char) -> (illegal: bool)
        ensures
            illegal == is_illegal_at_end(c),
    {
        match c {
            '.' | ',' | ':' | ';' | '?' | '!' | '(' | '[' | '\'' => true,
            _ => false,
        }
    }

    /// Wipe the state, all of it at once.
    fn reset(&mut self) -> (location: UrlLocation)
        ensures
            final(self)@ == LocatorModel::initial(),
            location == UrlLocation::Reset,
    {
        *self = Self::default();
        UrlLocation::Reset
    }
}

} // verus!
