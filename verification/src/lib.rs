//! # URL Locator
//!
//! This library provides a streaming parser for locating URLs.
//!
//! Instead of returning the URL itself, this library will only return the length of the URL and
//! the offset from the current parsing position.
//!
//! The length and offset counts follow the example of Rust's standard library's [`char`] type and
//! are based on unicode scalar values instead of graphemes.
//!
//! # Example: URL boundaries
//!
//! By keeping track of the current parser position, it is possible to locate the boundaries of a
//! URL in a character stream:
//!
//! ```rust
//! # use urlocator::{UrlLocator, UrlLocation};
//! // Boundaries:      10-v                 v-28
//! let input = "[example](https://example.org)";
//!
//! let mut locator = UrlLocator::new();
//!
//! let (mut start, mut end) = (0, 0);
//!
//! for (i, c) in input.chars().enumerate() {
//!     if let UrlLocation::Url(length, end_offset) = locator.advance(c) {
//!         start = 1 + i - length as usize;
//!         end = i - end_offset as usize;
//!     }
//! }
//!
//! assert_eq!(start, 10);
//! assert_eq!(end, 28);
//! ```
//!
//! # Example: Counting URLs
//!
//! By checking for the return state of the parser, it is possible to determine exactly when a URL
//! has been broken. Using this, you can count the number of URLs in a stream:
//!
//! ```rust
//! # use urlocator::{UrlLocator, UrlLocation};
//! let input = "https://example.org/1 https://rust-lang.org/二 https://example.com/Ⅲ";
//!
//! let mut locator = UrlLocator::new();
//!
//! let mut url_count = 0;
//! let mut reset = true;
//!
//! for c in input.chars() {
//!     match locator.advance(c) {
//!         UrlLocation::Url(..) if reset => {
//!             url_count += 1;
//!             reset = false;
//!         },
//!         UrlLocation::Reset => reset = true,
//!         _ => (),
//!     }
//! }
//!
//! assert_eq!(url_count, 3);
//! ```
//!
//! # What is verified
//!
//! A URL is a scheme from a fixed list, a colon, and whatever follows up to the first character
//! that cannot be part of a URL. All of the library is verified with Verus:
//!
//! - [`scheme`] holds the list of schemes and the recognizer for them, whose every step is proved
//!   to be what the list demands.
//! - [`model`] states what a locator does to its state, and what it reports, for one character
//!   and for a whole stream.
//! - [`locator`] holds the parser, [`UrlLocator`], whose [`advance`](UrlLocator::advance) is
//!   proved to do what the model says, without overflow and without panic.
//! - [`laws`] proves what follows for every stream: where a URL is reported and with which
//!   length, what ends it, and that none is reported without a scheme.

pub mod laws;
pub mod locator;
pub mod model;
pub mod scheme;

pub use locator::{UrlLocation, UrlLocator};
pub use scheme::SchemeState;
