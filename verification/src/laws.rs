//! What holds of every stream of characters.
//!
//! The statements here are about [`LocatorModel`], the view of a locator, so
//! each of them holds of every [`crate::UrlLocator`] that is advanced over the
//! stream in question. They speak of a URL in three parts: the letters of a
//! scheme `name`, the colon, and the `body` after it.
//!
//! In short: a reset leaves a fresh locator. A scheme name and its colon are
//! reported as a possible scheme, and every character after them as a URL,
//! until one breaks the body: a forbidden character, or a closing parenthesis
//! or bracket that has no partner. And a URL is reported nowhere else.

use crate::locator::UrlLocation;
use crate::model::{
    is_forbidden, is_illegal_at_end, last_location, location_at, LocatorModel, Position,
};
use crate::scheme::{
    is_ascii_letter, is_scheme, lemma_schemes_are_lowercase, lowered, schemes, to_lower, Progress,
};
use vstd::prelude::*;

verus! {

// Streams and resets

/// Consuming a stream and then one more character is one step from the state
/// after the stream.
pub proof fn lemma_after_push(m: LocatorModel, stream: Seq<char>, c: char)
    ensures
        m.after(stream.push(c)) == m.after(stream).step(c),
{
    assert(stream.push(c).drop_last() =~= stream);
}

/// Consuming two streams one after the other is consuming their concatenation.
pub proof fn lemma_after_concat(m: LocatorModel, first: Seq<char>, second: Seq<char>)
    ensures
        m.after(first + second) == m.after(first).after(second),
    decreases second.len(),
{
    if second.len() == 0 {
        assert(first + second =~= first);
    } else {
        lemma_after_concat(m, first, second.drop_last());
        assert((first + second).drop_last() =~= first + second.drop_last());
    }
}

/// What a locator reports for a character of a stream does not depend on
/// what comes later.
pub proof fn lemma_location_at_take(stream: Seq<char>, n: int, i: int)
    requires
        0 <= i < n <= stream.len(),
    ensures
        location_at(stream.take(n), i) == location_at(stream, i),
{
    assert(stream.take(n).take(i) =~= stream.take(i));
}

/// A reset leaves nothing behind. The locator reports a reset exactly when
/// its state becomes that of a fresh locator, so whatever comes next is
/// handled as a fresh locator would handle it.
pub proof fn lemma_reset_restores_initial(m: LocatorModel, c: char, next: char)
    ensures
        m.locate(c) is Reset <==> m.step(c) == LocatorModel::initial(),
        m.locate(c) is Reset ==> m.step(c).locate(next) == LocatorModel::initial().locate(next),
        m.locate(c) is Reset ==> m.step(c).step(next) == LocatorModel::initial().step(next),
{
}

/// After a stream that ends in a reset, a locator reports for what follows
/// exactly what a fresh locator reports for it.
pub proof fn lemma_fresh_after_reset(before: Seq<char>, stream: Seq<char>, i: int)
    requires
        before.len() > 0,
        last_location(before) is Reset,
        0 <= i < stream.len(),
    ensures
        LocatorModel::initial().after(before) == LocatorModel::initial(),
        location_at(before + stream, before.len() + i) == location_at(stream, i),
{
    let fresh = LocatorModel::initial();
    assert(before.take(before.len() - 1) == before.drop_last());
    lemma_reset_restores_initial(fresh.after(before.drop_last()), before.last(), stream[i]);
    assert((before + stream).take(before.len() + i) =~= before + stream.take(i));
    lemma_after_concat(fresh, before, stream.take(i));
}

// The body of a URL

/// How many more times `open` occurs in `body` than `close`.
pub open spec fn unclosed(body: Seq<char>, open: char, close: char) -> int
    decreases body.len(),
{
    if body.len() == 0 {
        0
    } else if body.last() == open {
        unclosed(body.drop_last(), open, close) + 1
    } else if body.last() == close {
        unclosed(body.drop_last(), open, close) - 1
    } else {
        unclosed(body.drop_last(), open, close)
    }
}

/// The length of the run of characters at the end of `body` that may not end
/// a URL.
pub open spec fn trailing_run(body: Seq<char>) -> nat
    decreases body.len(),
{
    if body.len() == 0 || !is_illegal_at_end(body.last()) {
        0
    } else {
        trailing_run(body.drop_last()) + 1
    }
}

/// `c` cannot follow `body` in a URL: it is forbidden everywhere, or it closes
/// a parenthesis or bracket that `body` has not left open.
pub open spec fn breaks(body: Seq<char>, c: char) -> bool {
    ||| is_forbidden(c)
    ||| (c == ')' && unclosed(body, '(', ')') == 0)
    ||| (c == ']' && unclosed(body, '[', ']') == 0)
}

/// No character of `body` breaks what stands before it.
pub open spec fn unbroken(body: Seq<char>) -> bool {
    forall|j: int| 0 <= j < body.len() ==> !breaks(body.take(j), #[trigger] body[j])
}

/// A body in which neither `open` nor `close` occurs leaves nothing open.
pub proof fn lemma_nothing_unclosed(body: Seq<char>, open: char, close: char)
    requires
        forall|j: int| 0 <= j < body.len() ==> body[j] != open && body[j] != close,
    ensures
        unclosed(body, open, close) == 0,
    decreases body.len(),
{
    if body.len() > 0 {
        lemma_nothing_unclosed(body.drop_last(), open, close);
    }
}

/// A run of trailing characters is never longer than the body it ends.
pub proof fn lemma_trailing_run_bounded(body: Seq<char>)
    ensures
        trailing_run(body) <= body.len(),
    decreases body.len(),
{
    if body.len() > 0 {
        lemma_trailing_run_bounded(body.drop_last());
    }
}

/// What is true of an unbroken body is true of every beginning of it.
pub proof fn lemma_unbroken_take(body: Seq<char>, n: int)
    requires
        unbroken(body),
        0 <= n <= body.len(),
    ensures
        unbroken(body.take(n)),
{
    assert forall|j: int| 0 <= j < n implies !breaks(
        body.take(n).take(j),
        #[trigger] body.take(n)[j],
    ) by {
        assert(body.take(n).take(j) =~= body.take(j));
    }
}

/// An unbroken body stays unbroken when a character follows that does not
/// break it.
pub proof fn lemma_unbroken_push(body: Seq<char>, c: char)
    requires
        unbroken(body),
        !breaks(body, c),
    ensures
        unbroken(body.push(c)),
{
    let longer = body.push(c);
    assert forall|j: int| 0 <= j < longer.len() implies !breaks(
        longer.take(j),
        #[trigger] longer[j],
    ) by {
        if j < body.len() {
            assert(longer.take(j) =~= body.take(j));
        } else {
            assert(longer.take(j) =~= body);
        }
    }
}

/// In an unbroken body no parenthesis or bracket is closed that was not open.
pub proof fn lemma_unbroken_never_negative(body: Seq<char>)
    requires
        unbroken(body),
    ensures
        unclosed(body, '(', ')') >= 0,
        unclosed(body, '[', ']') >= 0,
    decreases body.len(),
{
    if body.len() > 0 {
        lemma_unbroken_take(body, body.len() - 1);
        assert(body.take(body.len() - 1) == body.drop_last());
        lemma_unbroken_never_negative(body.drop_last());
    }
}

// The state along a scheme and a URL

/// The state in which the letters `w`, the beginning of a scheme name, are all
/// that has been consumed since the last reset.
pub open spec fn matching(w: Seq<char>) -> LocatorModel {
    LocatorModel {
        position: Position::Scheme(Progress::Matched(w)),
        len: w.len(),
        illegal_end_chars: 0,
        open_parentheses: 0,
        open_brackets: 0,
    }
}

/// The state inside a URL whose scheme and colon took `start` characters and
/// whose unbroken `body` has been consumed after them.
pub open spec fn inside(start: nat, body: Seq<char>) -> LocatorModel {
    LocatorModel {
        position: Position::Url,
        len: start + body.len(),
        illegal_end_chars: trailing_run(body),
        open_parentheses: unclosed(body, '(', ')') as nat,
        open_brackets: unclosed(body, '[', ']') as nat,
    }
}

/// One more character inside a URL: it resets the locator exactly if it
/// breaks the body, and otherwise the state is that of the longer body.
pub proof fn lemma_step_inside_url(start: nat, body: Seq<char>, c: char)
    requires
        unbroken(body),
    ensures
        inside(start, body).resets(c) <==> breaks(body, c),
        !breaks(body, c) ==> inside(start, body).step(c) == inside(start, body.push(c)),
{
    lemma_unbroken_never_negative(body);
    if !breaks(body, c) {
        lemma_unbroken_push(body, c);
        lemma_unbroken_never_negative(body.push(c));
        assert(body.push(c).drop_last() =~= body);
    }
}

/// While the letters of a scheme name come in, in either case, the locator
/// keeps them matched and counts them.
pub proof fn lemma_scheme_letters(name: Seq<char>, n: int)
    requires
        is_scheme(lowered(name)),
        0 <= n <= name.len(),
    ensures
        LocatorModel::initial().after(name.take(n)) == matching(lowered(name.take(n))),
    decreases n,
{
    if n > 0 {
        lemma_scheme_letters(name, n - 1);
        assert(name.take(n).drop_last() =~= name.take(n - 1));
        // The character that comes next is a letter of the name that is spelled.
        let i = choose|i: int| 0 <= i < schemes().len() && #[trigger] schemes()[i] == lowered(name);
        lemma_schemes_are_lowercase(i, n - 1);
        assert(lowered(name.take(n)).is_prefix_of(schemes()[i]));
    }
}

/// The colon after a scheme name takes the locator into the URL.
pub proof fn lemma_scheme_colon(name: Seq<char>)
    requires
        is_scheme(lowered(name)),
    ensures
        LocatorModel::initial().after(name.push(':')) == inside(name.len() + 1, Seq::empty()),
{
    lemma_scheme_letters(name, name.len() as int);
    assert(name.take(name.len() as int) =~= name);
    lemma_after_push(LocatorModel::initial(), name, ':');
}

/// After a scheme name, its colon and an unbroken body the locator is inside
/// the URL, and its counters say what the body holds: its length, the run of
/// characters at its end that may not end a URL, and the parentheses and
/// brackets it has left open.
pub proof fn lemma_state_inside_url(name: Seq<char>, body: Seq<char>)
    requires
        is_scheme(lowered(name)),
        unbroken(body),
    ensures
        LocatorModel::initial().after(name.push(':') + body) == inside(name.len() + 1, body),
    decreases body.len(),
{
    let head = name.push(':');
    if body.len() == 0 {
        lemma_scheme_colon(name);
        assert(head + body =~= head);
    } else {
        let rest = body.drop_last();
        lemma_unbroken_take(body, body.len() - 1);
        assert(body.take(body.len() - 1) == rest);
        lemma_state_inside_url(name, rest);
        lemma_step_inside_url(name.len() + 1, rest, body.last());
        assert(rest.push(body.last()) =~= body);
        assert(head + body =~= (head + rest).push(body.last()));
        lemma_after_push(LocatorModel::initial(), head + rest, body.last());
    }
}

// What is reported along a scheme and a URL

/// For each letter of a scheme name, in either case, and for the colon after
/// it, a fresh locator reports that it may be reading a scheme.
pub proof fn lemma_scheme_is_reported(name: Seq<char>, rest: Seq<char>, i: int)
    requires
        is_scheme(lowered(name)),
        0 <= i <= name.len(),
    ensures
        location_at(name.push(':') + rest, i) == UrlLocation::Scheme,
{
    let fresh = LocatorModel::initial();
    let stream = name.push(':') + rest;
    let c = stream[i];
    assert(stream.take(i) =~= name.take(i));
    // The state after this character is not the initial one, so the
    // character has not reset the locator.
    lemma_scheme_letters(name, i);
    lemma_after_push(fresh, name.take(i), c);
    if i < name.len() {
        assert(name.take(i).push(c) =~= name.take(i + 1));
        lemma_scheme_letters(name, i + 1);
    } else {
        assert(name.take(i) =~= name);
        lemma_scheme_colon(name);
    }
    lemma_reset_restores_initial(fresh.after(name.take(i)), c, c);
}

/// For each character of an unbroken body after a scheme name and its colon
/// the locator reports a URL: its length up to the run of characters at the
/// end that may not end a URL, and the length of that run. Where the
/// character itself may end a URL, the URL is all that has been consumed
/// since the scheme began.
pub proof fn lemma_url_is_reported(name: Seq<char>, body: Seq<char>, i: int)
    requires
        is_scheme(lowered(name)),
        unbroken(body),
        0 <= i < body.len(),
    ensures
        ({
            let seen = body.take(i + 1);
            location_at(name.push(':') + body, name.len() + 1 + i) == UrlLocation::Url(
                (name.len() + 1 + seen.len() - trailing_run(seen)) as u16,
                trailing_run(seen) as u16,
            )
        }),
        !is_illegal_at_end(body[i]) ==> location_at(name.push(':') + body, name.len() + 1 + i)
            == UrlLocation::Url((name.len() + 1 + i + 1) as u16, 0),
{
    let head = name.push(':');
    let before = body.take(i);
    let seen = body.take(i + 1);
    assert((head + body).take(name.len() + 1 + i) =~= head + before);
    lemma_unbroken_take(body, i);
    lemma_unbroken_take(body, i + 1);
    lemma_state_inside_url(name, before);
    lemma_state_inside_url(name, seen);
    assert(head + seen =~= (head + before).push(body[i]));
    lemma_after_push(LocatorModel::initial(), head + before, body[i]);
    lemma_unbroken_never_negative(before);
    lemma_trailing_run_bounded(seen);
}

/// A character that breaks the body of a URL resets the locator: a forbidden
/// character, or a closing parenthesis or bracket where none is open.
pub proof fn lemma_breaking_char_resets(name: Seq<char>, body: Seq<char>, c: char)
    requires
        is_scheme(lowered(name)),
        unbroken(body),
        breaks(body, c),
    ensures
        last_location((name.push(':') + body).push(c)) == UrlLocation::Reset,
{
    let head = name.push(':');
    let stream = (head + body).push(c);
    assert(stream.take(stream.len() - 1) =~= head + body);
    lemma_state_inside_url(name, body);
    lemma_unbroken_never_negative(body);
}

/// A closing parenthesis or bracket whose partner is open does not end the
/// URL: it is reported as the URL's last character.
pub proof fn lemma_matched_closer_is_kept(name: Seq<char>, body: Seq<char>, c: char)
    requires
        is_scheme(lowered(name)),
        unbroken(body),
        (c == ')' && unclosed(body, '(', ')') > 0) || (c == ']' && unclosed(body, '[', ']') > 0),
    ensures
        last_location((name.push(':') + body).push(c)) == UrlLocation::Url(
            (name.len() + 1 + body.len() + 1) as u16,
            0,
        ),
{
    lemma_unbroken_push(body, c);
    lemma_url_is_reported(name, body.push(c), body.len() as int);
    assert(name.push(':') + body.push(c) =~= (name.push(':') + body).push(c));
}

/// A character that may stand inside a URL but not at its end never ends the
/// URL. It is left out of the reported length, together with the run of such
/// characters before it.
pub proof fn lemma_trailing_punctuation_is_excluded(name: Seq<char>, body: Seq<char>, c: char)
    requires
        is_scheme(lowered(name)),
        unbroken(body),
        is_illegal_at_end(c),
    ensures
        last_location((name.push(':') + body).push(c)) == UrlLocation::Url(
            (name.len() + 1 + body.len() - trailing_run(body)) as u16,
            (trailing_run(body) + 1) as u16,
        ),
{
    lemma_unbroken_push(body, c);
    lemma_url_is_reported(name, body.push(c), body.len() as int);
    assert(name.push(':') + body.push(c) =~= (name.push(':') + body).push(c));
    assert(body.push(c).take(body.len() + 1int) =~= body.push(c));
    assert(body.push(c).drop_last() =~= body);
}

// Where a URL is reported, and only there

/// In `stream`, a scheme name of `n` letters, in either case, begins at
/// position `start` and is followed by a colon.
pub open spec fn scheme_at(stream: Seq<char>, start: int, n: int) -> bool {
    &&& 0 <= start
    &&& 0 <= n
    &&& start + n < stream.len()
    &&& is_scheme(lowered(stream.subrange(start, start + n)))
    &&& stream[start + n] == ':'
}

/// What follows, in `stream`, the colon after the `n` letters at `start`.
pub open spec fn body_from(stream: Seq<char>, start: int, n: int) -> Seq<char> {
    stream.subrange(start + n + 1, stream.len() as int)
}

/// `stream` ends in a URL that began at position `start` with a scheme name
/// of `n` letters: the name begins the stream or follows a reset, and nothing
/// has broken what follows its colon.
pub open spec fn url_from(stream: Seq<char>, start: int, n: int) -> bool {
    &&& scheme_at(stream, start, n)
    &&& start == 0 || location_at(stream, start - 1) is Reset
    &&& unbroken(body_from(stream, start, n))
}

/// A URL goes on with every character that does not break its body.
pub proof fn lemma_url_goes_on(stream: Seq<char>, start: int, n: int, c: char)
    requires
        url_from(stream, start, n),
        !breaks(body_from(stream, start, n), c),
    ensures
        url_from(stream.push(c), start, n),
        body_from(stream.push(c), start, n) == body_from(stream, start, n).push(c),
{
    let longer = stream.push(c);
    assert(stream.subrange(start, start + n) =~= longer.subrange(start, start + n));
    assert(body_from(longer, start, n) =~= body_from(stream, start, n).push(c));
    lemma_unbroken_push(body_from(stream, start, n), c);
    if start > 0 {
        assert(longer.take(stream.len() as int) =~= stream);
        lemma_location_at_take(longer, stream.len() as int, start - 1);
    }
}

/// What is reported at the end of `stream` where it ends in a URL that began
/// at `start` with a scheme name of `n` letters.
pub open spec fn reported(stream: Seq<char>, start: int, n: int) -> UrlLocation {
    let run = trailing_run(body_from(stream, start, n));
    UrlLocation::Url((stream.len() - start - run) as u16, run as u16)
}

/// What the state `m` of a locator that has consumed `stream` says about
/// `stream`. The last `m.len` characters came after the last reset. Before
/// the URL they are the letters matched so far, unless they begin no scheme
/// name. Inside the URL they are a scheme name, a colon and an unbroken body,
/// of which the counters say what [`inside`] says.
pub open spec fn remembers(stream: Seq<char>, m: LocatorModel) -> bool {
    let start = stream.len() - m.len;
    &&& 0 <= start
    &&& start == 0 || location_at(stream, start - 1) is Reset
    &&& match m.position {
        Position::Scheme(Progress::Matched(_)) => m == matching(
            lowered(stream.subrange(start, stream.len() as int)),
        ),
        Position::Scheme(Progress::Invalid) => true,
        Position::Scheme(Progress::Complete) => false,
        Position::Url => exists|n: int| #[trigger]
            url_from(stream, start, n) && m == inside(
                (n + 1) as nat,
                body_from(stream, start, n),
            ),
    }
}

/// Whatever a fresh locator has consumed, its state remembers it.
pub proof fn lemma_state_remembers(stream: Seq<char>)
    ensures
        remembers(stream, LocatorModel::initial().after(stream)),
    decreases stream.len(),
{
    let m = LocatorModel::initial().after(stream);
    let start = stream.len() - m.len;
    if stream.len() == 0 {
        assert(lowered(stream.subrange(0, 0)) =~= Seq::empty());
    } else {
        let s = stream.drop_last();
        let c = stream.last();
        let before = LocatorModel::initial().after(s);
        let last = stream.len() - 1;
        lemma_state_remembers(s);
        assert(stream.take(last) == s);
        if before.resets(c) {
            assert(lowered(stream.subrange(start, stream.len() as int)) =~= Seq::empty());
        } else {
            if start > 0 {
                lemma_location_at_take(stream, last, start - 1);
            }
            match before.position {
                Position::Scheme(Progress::Matched(w)) => {
                    assert(s.subrange(start, s.len() as int) =~= stream.subrange(start, last));
                    if m.position is Url {
                        let n = last - start;
                        assert(body_from(stream, start, n) =~= Seq::empty());
                        assert(url_from(stream, start, n));
                    } else if m.position == Position::Scheme(
                        Progress::Matched(w.push(to_lower(c))),
                    ) {
                        assert(w.push(to_lower(c)) =~= lowered(
                            stream.subrange(start, stream.len() as int),
                        ));
                    }
                },
                Position::Scheme(_) => {},
                Position::Url => {
                    let n = choose|n: int| #[trigger]
                        url_from(s, start, n) && before == inside(
                            (n + 1) as nat,
                            body_from(s, start, n),
                        );
                    lemma_step_inside_url((n + 1) as nat, body_from(s, start, n), c);
                    lemma_url_goes_on(s, start, n, c);
                    assert(s.push(c) =~= stream);
                },
            }
        }
    }
}

/// A URL is reported only where one is. Where a fresh locator reports a URL
/// for the character at position `i`, the stream up to there ends in a
/// scheme name, a colon and an unbroken body of at least that one character;
/// the name begins the stream or follows a reset; and the report says how
/// long all of this is, less the run of characters at the end that may not
/// end a URL, and how long that run is.
pub proof fn lemma_url_has_scheme(stream: Seq<char>, i: int)
    requires
        0 <= i < stream.len(),
        location_at(stream, i) is Url,
    ensures
        exists|start: int, n: int| #[trigger]
            url_from(stream.take(i + 1), start, n) && start + n < i && location_at(stream, i)
                == reported(stream.take(i + 1), start, n),
{
    let seen = stream.take(i + 1);
    let s = stream.take(i);
    let c = stream[i];
    let before = LocatorModel::initial().after(s);
    let start = i - before.len;
    lemma_state_remembers(s);
    let n = choose|n: int| #[trigger]
        url_from(s, start, n) && before == inside((n + 1) as nat, body_from(s, start, n));
    let body = body_from(s, start, n);
    lemma_step_inside_url((n + 1) as nat, body, c);
    lemma_url_goes_on(s, start, n, c);
    assert(s.push(c) =~= seen);
    lemma_trailing_run_bounded(body.push(c));
}

/// A URL is reported wherever one is. For the last character of a stream
/// that ends in a scheme name, a colon and an unbroken body of at least one
/// character, where the name begins the stream or follows a reset, the
/// locator reports the URL.
pub proof fn lemma_url_follows_scheme(stream: Seq<char>, start: int, n: int)
    requires
        url_from(stream, start, n),
        start + n + 1 < stream.len(),
    ensures
        last_location(stream) == reported(stream, start, n),
{
    let before = stream.take(start);
    let name = stream.subrange(start, start + n);
    let body = body_from(stream, start, n);
    let url = name.push(':') + body;
    let at = n + body.len();
    assert(stream =~= before + url);
    assert(body.take(body.len() as int) =~= body);
    lemma_url_is_reported(name, body, body.len() - 1);
    if start > 0 {
        lemma_location_at_take(stream, start, start - 1);
        lemma_fresh_after_reset(before, url, at);
    } else {
        assert(before + url =~= url);
    }
}

/// After letters alone a locator is still before the URL: it has matched all
/// of them, or it has found that they begin no scheme name.
proof fn lemma_only_letters(letters: Seq<char>, n: int)
    requires
        forall|j: int| 0 <= j < letters.len() ==> is_ascii_letter(#[trigger] letters[j]),
        0 <= n <= letters.len(),
    ensures
        ({
            let m = LocatorModel::initial().after(letters.take(n));
            &&& m.len == n
            &&& m.position == Position::Scheme(Progress::Matched(lowered(letters.take(n))))
                || (n > 0 && m.position == Position::Scheme(Progress::Invalid))
        }),
    decreases n,
{
    if n > 0 {
        lemma_only_letters(letters, n - 1);
        assert(letters.take(n).drop_last() =~= letters.take(n - 1));
        assert(lowered(letters.take(n - 1)).push(to_lower(letters[n - 1])) =~= lowered(
            letters.take(n),
        ));
    }
}

/// Letters that spell no scheme name never lead into a URL: a fresh locator
/// reports a possible scheme for each of them and resets at the colon.
pub proof fn lemma_unknown_scheme_resets(letters: Seq<char>, i: int)
    requires
        forall|j: int| 0 <= j < letters.len() ==> is_ascii_letter(#[trigger] letters[j]),
        !is_scheme(lowered(letters)),
        0 <= i <= letters.len(),
    ensures
        location_at(letters.push(':'), i) == (if i < letters.len() {
            UrlLocation::Scheme
        } else {
            UrlLocation::Reset
        }),
{
    lemma_only_letters(letters, i);
    assert(letters.push(':').take(i) =~= letters.take(i));
    if i < letters.len() {
        lemma_only_letters(letters, i + 1);
        assert(letters.take(i + 1).drop_last() =~= letters.take(i));
    } else {
        assert(letters.take(i) =~= letters);
    }
}

} // verus!
