use json_ftl::normalize::{accepted_lowercase, dropped, ftl_parse, lowercase};

const DROPPED: [char; 14] =
    ['(', ')', '/', '\\', '.', ',', '&', '!', '$', '{', '}', '|', '\'', '\u{2764}'];

#[test]
fn plain_words_are_lowercased_and_joined() {
    assert_eq!(ftl_parse("Hello World"), "hello_world");
}

#[test]
fn empty_key_gives_empty_key() {
    assert_eq!(ftl_parse(""), "");
}

#[test]
fn key_of_dropped_characters_gives_empty_key() {
    assert_eq!(ftl_parse("()\\.,&!${}|'\u{2764}"), "");
    assert_eq!(ftl_parse("(...)"), "");
}

#[test]
fn slash_alone_is_taken_for_a_space() {
    assert_eq!(ftl_parse("/"), "_");
    assert_eq!(ftl_parse("(/)"), "_");
}

#[test]
fn question_mark_becomes_question_token() {
    assert_eq!(ftl_parse("Really?"), "really_question");
    assert_eq!(ftl_parse("?"), "_question");
    assert_eq!(ftl_parse("a??b"), "a_question_questionb");
}

#[test]
fn hyphen_and_space_become_underscore() {
    assert_eq!(ftl_parse("front-end"), "front_end");
    assert_eq!(ftl_parse("a b c"), "a_b_c");
}

#[test]
fn double_space_collapses_once() {
    assert_eq!(ftl_parse("a  b"), "a_b");
    assert_eq!(ftl_parse("a   b"), "a__b");
    assert_eq!(ftl_parse("a    b"), "a__b");
}

#[test]
fn white_space_at_both_ends_goes() {
    assert_eq!(ftl_parse("  \tHello \n"), "hello");
    assert_eq!(ftl_parse("\u{a0}Hello\u{3000}"), "hello");
    assert_eq!(ftl_parse(" \t "), "");
}

#[test]
fn white_space_inside_stays_unless_it_is_a_space() {
    assert_eq!(ftl_parse("a\tb"), "a\tb");
}

#[test]
fn variable_marker_becomes_x() {
    assert_eq!(ftl_parse("`x` ago"), "x_ago");
    assert_eq!(ftl_parse("`x` uploaded a video"), "x_uploaded_a_video");
    assert_eq!(ftl_parse("Shared `x`"), "shared_x");
    assert_eq!(ftl_parse("a`x`b"), "axb");
}

#[test]
fn quote_colon_goes() {
    assert_eq!(ftl_parse("Hello\":"), "hello");
    assert_eq!(ftl_parse("a\":b"), "ab");
    assert_eq!(ftl_parse("say \"hi\""), "say_\"hi\"");
}

#[test]
fn spaced_hyphen_becomes_one_underscore() {
    assert_eq!(ftl_parse("Newest - first"), "newest_first");
    assert_eq!(ftl_parse("a - - b"), "a___b");
    assert_eq!(ftl_parse("a - b - c"), "a_b_c");
}

#[test]
fn slash_becomes_underscore() {
    assert_eq!(ftl_parse("newpipe/freetube"), "newpipe_freetube");
    assert_eq!(ftl_parse("a / b"), "a___b");
}

#[test]
fn colon_is_kept() {
    assert_eq!(ftl_parse("Time (h:mm:ss):"), "time_h:mm:ss:");
}

#[test]
fn punctuation_of_a_long_key_is_dropped() {
    assert_eq!(
        ftl_parse("Quota exceeded, try again in a few hours"),
        "quota_exceeded_try_again_in_a_few_hours"
    );
    assert_eq!(ftl_parse("Don't (ever) stop!"), "dont_ever_stop");
    assert_eq!(ftl_parse("a.b,c&d$e{f}g|h"), "abcdefgh");
}

#[test]
fn letters_outside_ascii_are_lowercased() {
    assert_eq!(ftl_parse("Norwegian Bokm\u{c5}l"), "norwegian_bokm\u{e5}l");
    assert_eq!(ftl_parse("\u{c9}COLE"), "\u{e9}cole");
    assert_eq!(ftl_parse("\u{41f}\u{440}\u{438}\u{432}\u{435}\u{442}"), "\u{43f}\u{440}\u{438}\u{432}\u{435}\u{442}");
}

#[test]
fn lowercase_keeps_the_first_character_of_a_longer_mapping() {
    assert_eq!(lowercase('\u{130}'), 'i');
    assert_eq!(ftl_parse("\u{130}stanbul"), "istanbul");
}

#[test]
fn capital_without_a_lowercase_mapping_stays() {
    assert_eq!(ftl_parse("\u{1d400}"), "\u{1d400}");
}

#[test]
fn characters_without_case_stay() {
    assert_eq!(ftl_parse("\u{5c71}\u{7530}"), "\u{5c71}\u{7530}");
    assert_eq!(ftl_parse("100%"), "100%");
}

#[test]
fn lowercase_agrees_with_the_standard_mapping_on_every_character() {
    for code in 0u32..=0x10ffff {
        if let Some(c) = char::from_u32(code) {
            assert_eq!(Some(lowercase(c)), c.to_lowercase().next(), "at {:?}", c);
        }
    }
}

#[test]
fn dropped_holds_of_the_fourteen_characters_only() {
    let mut count = 0;
    for code in 0u32..=0x10ffff {
        if let Some(c) = char::from_u32(code) {
            assert_eq!(dropped(c), DROPPED.contains(&c));
            if dropped(c) {
                count += 1;
            }
        }
    }
    assert_eq!(count, 14);
}

#[test]
fn no_dropped_character_is_left() {
    let keys = [
        "Hi! Looks like you have JavaScript turned off. Click here to view comments, keep in mind they may take a bit longer to load.",
        "(a) / \\b\\ . , & ! $ { } | ' \u{2764}",
        "{{x}}",
        "\u{2764}\u{2764}\u{2764} love",
        "It's 5 o'clock",
    ];
    for key in keys {
        let out = ftl_parse(key);
        for c in DROPPED {
            assert!(!out.contains(c), "{:?} left in {:?}", c, out);
        }
    }
}

#[test]
fn no_uppercase_letter_is_left() {
    let keys = ["HELLO World", "ABCDEFGHIJKLMNOPQRSTUVWXYZ", "\u{c5}\u{c4}\u{d6} \u{398}", "MiXeD-CaSe?"];
    for key in keys {
        let out = ftl_parse(key);
        assert!(out.chars().all(|c| !c.is_ascii_uppercase()), "{:?}", out);
        assert!(out.chars().all(|c| c.to_lowercase().next() == Some(c)), "{:?}", out);
    }
    assert_eq!(ftl_parse("ABCDEFGHIJKLMNOPQRSTUVWXYZ"), "abcdefghijklmnopqrstuvwxyz");
}

#[test]
fn normalizing_twice_is_normalizing_once_on_plain_keys() {
    let keys = [
        "Hello World",
        "Really?",
        "Quota exceeded, try again in a few hours",
        "a  -  b / c",
        "Time (h:mm:ss):",
        "%A %B %-d, %Y",
        "",
        "x_ago",
    ];
    for key in keys {
        let once = ftl_parse(key);
        assert_eq!(ftl_parse(&once), once, "for {:?}", key);
    }
}

#[test]
fn a_marker_that_shows_only_after_normalizing_is_rewritten_the_second_time() {
    assert_eq!(ftl_parse("``x``"), "`x`");
    assert_eq!(ftl_parse("`x`"), "x");
}

#[test]
fn normalized_keys_of_the_fixed_table_are_reached() {
    assert_eq!(ftl_parse("`x` ago"), "x_ago");
    assert_eq!(ftl_parse("`x` is live"), "x_is_live");
    assert_eq!(ftl_parse("An alternative front-end to YouTube"), "an_alternative_front_end_to_youtube");
    assert_eq!(ftl_parse("Token is expired, please try again"), "token_is_expired_please_try_again");
}

fn by_string_methods(key: &str) -> String {
    let ready = key
        .replace("  ", " ")
        .trim()
        .replace(" `x`", "_x")
        .replace("`x`", "x")
        .replace("\":", "")
        .replace(" - ", " ")
        .replace("/", " ")
        .replace("-", "_");
    let mut out = String::new();
    for c in ready.chars() {
        match c {
            '(' | ')' | '/' | '\\' | '.' | ',' | '&' | '!' | '$' | '{' | '}' | '|' | '\'' | '\u{2764}' => {}
            '?' => out.push_str("_question"),
            '-' | ' ' => out.push('_'),
            _ => out.push(c.to_lowercase().next().unwrap()),
        }
    }
    out
}

#[test]
fn normalizing_agrees_with_the_standard_string_methods() {
    let keys = [
        "",
        " ",
        "Hello World",
        "  Hi!  Looks like you have JavaScript turned off.  ",
        "`x` uploaded a video",
        "Shared `x` ago",
        "View `x` comments\":",
        "Newest - first / oldest-last",
        "\u{c5}ngstr\u{f6}m \u{130} \u{2764} \u{1d400}",
        "\t(tab)\t",
        "a\u{a0}b\u{2003}",
        "what??",
        "--//--",
        "``x``",
        "\"\"::",
        "Export subscriptions as OPML (for NewPipe & FreeTube)",
    ];
    for key in keys {
        assert_eq!(ftl_parse(key), by_string_methods(key), "for {:?}", key);
    }
}

#[test]
fn lowercasing_gives_a_dropped_character_for_no_character_that_is_kept() {
    for code in 0u32..=0x10ffff {
        if let Some(c) = char::from_u32(code) {
            if !dropped(c) {
                assert!(!dropped(lowercase(c)), "at {:?}", c);
            }
        }
    }
}

#[test]
fn lowercasing_twice_is_lowercasing_once_on_every_character() {
    for code in 0u32..=0x10ffff {
        if let Some(c) = char::from_u32(code) {
            assert_eq!(lowercase(lowercase(c)), lowercase(c), "at {:?}", c);
        }
    }
}

#[test]
fn the_lowercase_mapping_is_taken_for_every_character_outside_ascii() {
    for code in 0x80u32..=0x10ffff {
        if let Some(c) = char::from_u32(code) {
            let mapped = c.to_lowercase().next().unwrap();
            assert!(accepted_lowercase(mapped) || mapped == c, "at {:?}", c);
        }
    }
}

#[test]
fn every_character_of_a_normalized_key_is_its_own_lowercase_mapping() {
    let keys = ["HELLO World", "\u{c5}\u{c4}\u{d6} \u{398}\u{130}", "MiXeD-CaSe? (\u{2764})", "\u{1d400}"];
    for key in keys {
        for c in ftl_parse(key).chars() {
            assert!(!c.is_ascii_uppercase());
            assert_eq!(c.to_lowercase().next(), Some(c));
        }
    }
}
