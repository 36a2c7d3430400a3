//! The locator as a mathematical state machine.
//!
//! [`LocatorModel`] is the view of a [`crate::UrlLocator`]: the same state with
//! unbounded counters. Its [`step`](LocatorModel::step) and
//! [`locate`](LocatorModel::locate) say what consuming one character does, and
//! [`after`](LocatorModel::after) folds `step` over a whole stream.

use crate::locator::UrlLocation;
use crate::scheme::Progress;
use vstd::prelude::*;

verus! {

/// Characters that may stand inside a URL but not at its end.
pub open spec fn is_illegal_at_end(c: char) -> bool {
    c == '.' || c == ',' || c == ':' || c == ';' || c == '?' || c == '!' || c == '(' || c == '['
        || c == '\''
}

/// Characters that can never be part of a URL.
pub open spec fn is_forbidden(c: char) -> bool {
    c <= '\u{1F}' || ('\u{7F}' <= c && c <= '\u{9F}') || c == '<' || c == '>' || c == '"' || c
        == ' ' || ('{' <= c && c <= '}') || c == '\\' || c == '^' || c == '\u{27E8}' || c
        == '\u{27E9}' || c == '`'
}

/// Where in a candidate URL the locator is.
#[verifier::ext_equal]
pub enum Position {
    /// Still reading what may become a scheme.
    Scheme(Progress),
    /// Past a scheme and its colon: inside a URL.
    Url,
}

/// State of a locator, with unbounded counters.
#[verifier::ext_equal]
pub struct LocatorModel {
    pub position: Position,
    /// Characters consumed since the state was last wiped.
    pub len: nat,
    /// Length of the run of characters, ending at the last one consumed, that
    /// may not end a URL.
    pub illegal_end_chars: nat,
    /// Opening parentheses in the URL that have not been closed.
    pub open_parentheses: nat,
    /// Opening square brackets in the URL that have not been closed.
    pub open_brackets: nat,
}

impl LocatorModel {
    /// The state of a fresh locator.
    pub open spec fn initial() -> LocatorModel {
        LocatorModel {
            position: Position::Scheme(Progress::start()),
            len: 0,
            illegal_end_chars: 0,
            open_parentheses: 0,
            open_brackets: 0,
        }
    }

    /// Consuming `c` in this state ends the current candidate.
    ///
    /// Before the URL this is decided by the scheme recognizer. Inside the URL
    /// a forbidden character does it, and so does a closing parenthesis or
    /// bracket that has no partner.
    pub open spec fn resets(self, c: char) -> bool {
        match self.position {
            Position::Scheme(progress) => progress.step(c) == Progress::start(),
            Position::Url => is_forbidden(c) || (c == ')' && self.open_parentheses == 0) || (c
                == ']' && self.open_brackets == 0),
        }
    }

    /// The state after consuming `c`.
    pub open spec fn step(self, c: char) -> LocatorModel {
        if self.resets(c) {
            Self::initial()
        } else {
            match self.position {
                Position::Scheme(progress) => LocatorModel {
                    position: if progress.step(c) is Complete {
                        Position::Url
                    } else {
                        Position::Scheme(progress.step(c))
                    },
                    len: self.len + 1,
                    ..self
                },
                Position::Url => LocatorModel {
                    position: Position::Url,
                    len: self.len + 1,
                    illegal_end_chars: if is_illegal_at_end(c) {
                        self.illegal_end_chars + 1
                    } else {
                        0
                    },
                    open_parentheses: if c == '(' {
                        self.open_parentheses + 1
                    } else if c == ')' {
                        (self.open_parentheses - 1) as nat
                    } else {
                        self.open_parentheses
                    },
                    open_brackets: if c == '[' {
                        self.open_brackets + 1
                    } else if c == ']' {
                        (self.open_brackets - 1) as nat
                    } else {
                        self.open_brackets
                    },
                },
            }
        }
    }

    /// What the locator reports for `c` when it consumes it in this state.
    ///
    /// Inside a URL the report is the length of the URL without the trailing
    /// run of characters that may not end it, and the length of that run.
    pub open spec fn locate(self, c: char) -> UrlLocation {
        if self.resets(c) {
            UrlLocation::Reset
        } else {
            match self.position {
                Position::Scheme(_) => UrlLocation::Scheme,
                Position::Url => UrlLocation::Url(
                    (self.step(c).len - self.step(c).illegal_end_chars) as u16,
                    self.step(c).illegal_end_chars as u16,
                ),
            }
        }
    }

    /// The state after consuming the characters of `stream` in order.
    pub open spec fn after(self, stream: Seq<char>) -> LocatorModel
        decreases stream.len(),
    {
        if stream.len() == 0 {
            self
        } else {
            self.after(stream.drop_last()).step(stream.last())
        }
    }
}

/// What a fresh locator reports for the character at position `i` of `stream`.
pub open spec fn location_at(stream: Seq<char>, i: int) -> UrlLocation
    recommends
        0 <= i < stream.len(),
{
    LocatorModel::initial().after(stream.take(i)).locate(stream[i])
}

/// What a fresh locator reports for the last character of `stream`.
pub open spec fn last_location(stream: Seq<char>) -> UrlLocation
    recommends
        stream.len() > 0,
{
    location_at(stream, stream.len() - 1)
}

} // verus!
