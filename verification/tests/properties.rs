use urlocator::{SchemeState, UrlLocation, UrlLocator};

const SCHEMES: [&str; 10] =
    ["http", "https", "ftp", "file", "mailto", "news", "gemini", "git", "gopher", "ssh"];

fn locations(input: &str) -> Vec<UrlLocation> {
    let mut locator = UrlLocator::new();
    input.chars().map(|c| locator.advance(c)).collect()
}

fn last_location(input: &str) -> UrlLocation {
    *locations(input).last().unwrap()
}

fn fed(input: &str) -> UrlLocator {
    let mut locator = UrlLocator::new();
    for c in input.chars() {
        locator.advance(c);
    }
    locator
}

#[test]
fn new_and_default_agree() {
    assert_eq!(UrlLocator::new(), UrlLocator::default());
    assert_eq!(SchemeState::default(), SchemeState::RESET);
}

#[test]
fn first_letter_of_a_scheme() {
    let mut locator = UrlLocator::new();
    assert_eq!(locator.advance('h'), UrlLocation::Scheme);
}

#[test]
fn reset_leaves_a_fresh_locator() {
    let inputs = [
        " ",
        "h1",
        "ht:",
        "maketile:",
        "https://example.org)",
        "https://example.org]",
        "https://example.org/(a[b ",
        "https://example.org/.,; ",
        "ftp://example.org/<",
    ];
    for input in inputs {
        let results = locations(input);
        assert_eq!(results[results.len() - 1], UrlLocation::Reset, "{input:?}");

        let mut used = fed(input);
        let mut fresh = UrlLocator::new();
        assert_eq!(used, fresh, "{input:?}");

        for c in "https://example.org/a(b).".chars() {
            assert_eq!(used.advance(c), fresh.advance(c));
            assert_eq!(used, fresh);
        }
    }
}

#[test]
fn no_reset_keeps_state() {
    let inputs = ["h", "xyz", "https", "https:", "https://example.org/(a[b", "git:."];
    for input in inputs {
        let results = locations(input);
        assert_ne!(results[results.len() - 1], UrlLocation::Reset, "{input:?}");
        assert_ne!(fed(input), UrlLocator::new(), "{input:?}");
    }
}

#[test]
fn every_scheme_leads_into_a_url() {
    for scheme in SCHEMES {
        let spellings = [
            scheme.to_string(),
            scheme.to_uppercase(),
            scheme
                .chars()
                .enumerate()
                .map(|(i, c)| if i % 2 == 0 { c.to_ascii_uppercase() } else { c })
                .collect::<String>(),
        ];
        for spelling in spellings {
            let input = format!("{spelling}://example/org");
            let results = locations(&input);
            for (i, result) in results.iter().enumerate() {
                if i <= scheme.len() {
                    assert_eq!(*result, UrlLocation::Scheme, "{input:?} at {i}");
                } else {
                    assert_eq!(*result, UrlLocation::Url(i as u16 + 1, 0), "{input:?} at {i}");
                }
            }
        }
    }
}

#[test]
fn url_begins_right_after_the_colon() {
    let results = locations("ssh:x");
    assert_eq!(
        results,
        vec![
            UrlLocation::Scheme,
            UrlLocation::Scheme,
            UrlLocation::Scheme,
            UrlLocation::Scheme,
            UrlLocation::Url(5, 0),
        ]
    );
    assert_eq!(last_location("git:."), UrlLocation::Url(4, 1));
    assert_eq!(last_location("git::"), UrlLocation::Url(4, 1));
}

#[test]
fn dot_inside_host_is_counted_once_passed() {
    let results = locations("https://example.org");
    assert_eq!(results[14], UrlLocation::Url(15, 0));
    assert_eq!(results[15], UrlLocation::Url(15, 1));
    assert_eq!(results[16], UrlLocation::Url(17, 0));
    assert_eq!(results[18], UrlLocation::Url(19, 0));
}

#[test]
fn literal_lengths() {
    assert_eq!(last_location("https://example.org"), UrlLocation::Url(19, 0));
    assert_eq!(last_location("http://example.org"), UrlLocation::Url(18, 0));
    assert_eq!(last_location("ftp://example.org"), UrlLocation::Url(17, 0));
    assert_eq!(last_location("ssh://example.org"), UrlLocation::Url(17, 0));
    assert_eq!(last_location("git://example.org"), UrlLocation::Url(17, 0));
}

#[test]
fn unmatched_closer_resets() {
    assert_eq!(last_location("https://example.org)"), UrlLocation::Reset);
    assert_eq!(last_location("https://example.org]"), UrlLocation::Reset);
    assert_eq!(last_location("https://example.org/(a))"), UrlLocation::Reset);
    assert_eq!(last_location("https://example.org/[a]]"), UrlLocation::Reset);
    // Each kind of closer needs its own kind of opener.
    assert_eq!(last_location("https://example.org/(a]"), UrlLocation::Reset);
    assert_eq!(last_location("https://example.org/[a)"), UrlLocation::Reset);
}

#[test]
fn matched_closer_is_part_of_the_url() {
    assert_eq!(last_location("https://example.org/test(ing)"), UrlLocation::Url(29, 0));
    assert_eq!(last_location("https://example.org/test[ing]"), UrlLocation::Url(29, 0));
    assert_eq!(last_location("https://example.org/((a)[b])"), UrlLocation::Url(28, 0));
    assert_eq!(last_location("https://example.org/([a)]"), UrlLocation::Url(25, 0));

    let results = locations("https://example.org/test(ing)");
    assert!(results.iter().all(|result| *result != UrlLocation::Reset));
    assert_eq!(results[24], UrlLocation::Url(24, 1));
    assert_eq!(results[25], UrlLocation::Url(26, 0));
}

#[test]
fn trailing_punctuation_is_excluded() {
    assert_eq!(last_location("https://example.org."), UrlLocation::Url(19, 1));
    for c in ['.', ',', ':', ';', '?', '!', '(', '[', '\''] {
        let input = format!("https://example.org{c}");
        assert_eq!(last_location(&input), UrlLocation::Url(19, 1), "{input:?}");
    }
    assert_eq!(last_location("https://example.org.,;"), UrlLocation::Url(19, 3));
    assert_eq!(last_location("https://example.org/.,;:(!?"), UrlLocation::Url(20, 7));
    // Once another character follows, the run is part of the URL.
    assert_eq!(last_location("https://example.org.,;x"), UrlLocation::Url(23, 0));
    assert_eq!(last_location("https://example.org/a'b"), UrlLocation::Url(23, 0));
}

#[test]
fn other_characters_may_end_a_url() {
    for c in ['/', '-', '_', '~', '#', '&', '=', '%', '+', '*', '$', '@', ')', ']', '|'] {
        let input = format!("https://example.org/([{c}");
        let expected = if c == '|' { UrlLocation::Reset } else { UrlLocation::Url(23, 0) };
        assert_eq!(last_location(&input), expected, "{input:?}");
    }
}

#[test]
fn forbidden_characters_reset() {
    let forbidden = [
        '\u{00}', '\u{09}', '\u{0A}', '\u{1F}', ' ', '"', '<', '>', '\\', '^', '`', '{', '|', '}',
        '\u{7F}', '\u{80}', '\u{9F}', '\u{27E8}', '\u{27E9}',
    ];
    for c in forbidden {
        let input = format!("https://example.org/a{c}");
        assert_eq!(last_location(&input), UrlLocation::Reset, "{input:?}");
    }

    let allowed = ['#', '=', '?', '@', 'Z', '[', ']', '_', 'a', 'z', '~', '\u{A0}', '\u{27E7}',
        '\u{27EA}', '\u{10FFFF}'];
    for c in allowed {
        let input = format!("https://example.org/[{c}");
        assert_ne!(last_location(&input), UrlLocation::Reset, "{input:?}");
    }
}

#[test]
fn unknown_scheme_is_never_a_url() {
    for input in ["invalidscheme://example.org", "makefile://example.org", "xhttps://example.org"] {
        let results = locations(input);
        assert!(results.iter().all(|result| !matches!(result, UrlLocation::Url(..))), "{input:?}");

        let colon = input.find(':').unwrap();
        for result in &results[..colon] {
            assert_eq!(*result, UrlLocation::Scheme);
        }
        assert_eq!(results[colon], UrlLocation::Reset);
    }
}

#[test]
fn colon_needs_a_whole_scheme() {
    assert_eq!(last_location("htt:"), UrlLocation::Reset);
    assert_eq!(last_location("gophe:"), UrlLocation::Reset);
    assert_eq!(last_location(":"), UrlLocation::Reset);
    assert_eq!(last_location("https::"), UrlLocation::Url(6, 1));
}

#[test]
fn url_follows_the_reset_before_it() {
    let input = "see(https://example.org/a)";
    let results = locations(input);
    assert_eq!(results[3], UrlLocation::Reset);
    assert_eq!(results[9], UrlLocation::Scheme);
    assert_eq!(results[24], UrlLocation::Url(21, 0));
    assert_eq!(results[25], UrlLocation::Reset);
}

#[test]
fn document_boundaries() {
    let input = "[example](https://example.org)";
    let mut locator = UrlLocator::new();
    let (mut start, mut end) = (0, 0);
    let mut results = Vec::new();

    for (i, c) in input.chars().enumerate() {
        let result = locator.advance(c);
        if let UrlLocation::Url(length, end_offset) = result {
            start = 1 + i - length as usize;
            end = i - end_offset as usize;
        }
        results.push(result);
    }

    assert_eq!(start, 10);
    assert_eq!(end, 28);
    assert_eq!(results[28], UrlLocation::Url(19, 0));
    assert_eq!(results[29], UrlLocation::Reset);
}

#[test]
fn counting_urls() {
    let input = "https://example.org/1 https://rust-lang.org/\u{4E8C} https://example.com/\u{2162}";
    let mut locator = UrlLocator::new();
    let mut url_count = 0;
    let mut reset = true;

    for c in input.chars() {
        match locator.advance(c) {
            UrlLocation::Url(..) if reset => {
                url_count += 1;
                reset = false;
            },
            UrlLocation::Reset => reset = true,
            _ => (),
        }
    }

    assert_eq!(url_count, 3);
}

#[test]
fn two_urls_are_independent() {
    let results = locations("https://example.org https://example.com/test");
    assert_eq!(results[18], UrlLocation::Url(19, 0));
    assert_eq!(results[19], UrlLocation::Reset);
    assert_eq!(results[20], UrlLocation::Scheme);
    assert_eq!(results[25], UrlLocation::Scheme);
    assert_eq!(results[26], UrlLocation::Url(7, 0));
    assert_eq!(results[43], UrlLocation::Url(24, 0));
}

#[test]
fn scheme_states_follow_the_names() {
    for scheme in SCHEMES {
        for upper in [false, true] {
            let mut state = SchemeState::RESET;
            let mut seen = String::new();
            for c in scheme.chars() {
                let c = if upper { c.to_ascii_uppercase() } else { c };
                state = state.advance(c);
                seen.push(c.to_ascii_uppercase());
                assert_eq!(format!("{state:?}"), seen);
            }
            assert_eq!(state.advance(':'), SchemeState::COMPLETE);
            assert_eq!(state.advance(' '), SchemeState::RESET);
            assert_eq!(state.advance('1'), SchemeState::RESET);
        }
    }
}

#[test]
fn scheme_states_branch() {
    assert_eq!(SchemeState::F.advance('t'), SchemeState::FT);
    assert_eq!(SchemeState::F.advance('i'), SchemeState::FI);
    assert_eq!(SchemeState::G.advance('e'), SchemeState::GE);
    assert_eq!(SchemeState::G.advance('I'), SchemeState::GI);
    assert_eq!(SchemeState::G.advance('o'), SchemeState::GO);
    assert_eq!(SchemeState::HTTP.advance('s'), SchemeState::HTTPS);
    assert_eq!(SchemeState::HTTP.advance(':'), SchemeState::COMPLETE);
    assert_eq!(SchemeState::HTTPS.advance(':'), SchemeState::COMPLETE);
}

#[test]
fn scheme_states_dead_end() {
    assert_eq!(SchemeState::RESET.advance('x'), SchemeState::INVALID);
    assert_eq!(SchemeState::HT.advance('m'), SchemeState::INVALID);
    assert_eq!(SchemeState::HTTPS.advance('s'), SchemeState::INVALID);
    assert_eq!(SchemeState::SSH.advance('h'), SchemeState::INVALID);
    assert_eq!(SchemeState::INVALID.advance('h'), SchemeState::INVALID);
    assert_eq!(SchemeState::INVALID.advance('Z'), SchemeState::INVALID);
    assert_eq!(SchemeState::COMPLETE.advance('a'), SchemeState::INVALID);

    assert_eq!(SchemeState::INVALID.advance(':'), SchemeState::RESET);
    assert_eq!(SchemeState::COMPLETE.advance(':'), SchemeState::RESET);
    assert_eq!(SchemeState::RESET.advance(':'), SchemeState::RESET);
    assert_eq!(SchemeState::HTT.advance(':'), SchemeState::RESET);
    assert_eq!(SchemeState::G.advance(':'), SchemeState::RESET);
    assert_eq!(SchemeState::H.advance('-'), SchemeState::RESET);
    // Only ASCII letters keep the recognizer waiting.
    assert_eq!(SchemeState::H.advance('\u{E9}'), SchemeState::RESET);
    assert_eq!(SchemeState::H.advance('\u{212A}'), SchemeState::RESET);
    assert_eq!(SchemeState::H.advance('@'), SchemeState::RESET);
    assert_eq!(SchemeState::H.advance('['), SchemeState::RESET);
    assert_eq!(SchemeState::H.advance('`'), SchemeState::RESET);
    assert_eq!(SchemeState::H.advance('{'), SchemeState::RESET);
}

#[test]
fn nesting_deeper_than_a_byte() {
    let mut input = String::from("https://");
    for _ in 0..300 {
        input.push('(');
    }
    for _ in 0..300 {
        input.push(')');
    }
    let results = locations(&input);
    assert_eq!(results[307], UrlLocation::Url(8, 300));
    assert_eq!(results[308], UrlLocation::Url(309, 0));
    assert_eq!(results[607], UrlLocation::Url(608, 0));

    input.push(')');
    assert_eq!(last_location(&input), UrlLocation::Reset);
}

#[test]
fn longest_counted_url() {
    let mut locator = UrlLocator::new();
    let mut last = UrlLocation::Reset;
    for c in "https://".chars() {
        last = locator.advance(c);
    }
    assert_eq!(last, UrlLocation::Url(8, 0));
    for _ in 8..u16::MAX - 1 {
        last = locator.advance('a');
    }
    assert_eq!(last, UrlLocation::Url(u16::MAX - 1, 0));
    assert_eq!(locator.advance('.'), UrlLocation::Url(u16::MAX - 1, 1));
}
