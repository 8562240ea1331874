use advent_example::text::{
    ascii_lowercase, contains, find_from, line_count, lowercase_contains, occurs_at, replace_all,
    to_chars, trim_line_feeds,
};

fn chars(text: &str) -> Vec<char> {
    text.chars().collect()
}

#[test]
fn to_chars_gives_every_character_in_order() {
    assert_eq!(to_chars(""), Vec::<char>::new());
    assert_eq!(to_chars("a<b"), vec!['a', '<', 'b']);
    assert_eq!(to_chars("é\n✓"), vec!['é', '\n', '✓']);
}

#[test]
fn occurs_at_compares_at_the_position_given() {
    let text = chars("abcabc");
    assert!(occurs_at(&text, &chars("abc"), 0));
    assert!(occurs_at(&text, &chars("abc"), 3));
    assert!(!occurs_at(&text, &chars("abc"), 1));
    assert!(!occurs_at(&text, &chars("abc"), 4));
    assert!(!occurs_at(&text, &chars("abc"), 7));
    assert!(occurs_at(&text, &chars(""), 6));
    assert!(!occurs_at(&text, &chars(""), 7));
}

#[test]
fn find_from_gives_the_first_position_not_before_the_start() {
    let text = chars("abcabc");
    assert_eq!(find_from(&text, &chars("bc"), 0), Some(1));
    assert_eq!(find_from(&text, &chars("bc"), 1), Some(1));
    assert_eq!(find_from(&text, &chars("bc"), 2), Some(4));
    assert_eq!(find_from(&text, &chars("bc"), 5), None);
    assert_eq!(find_from(&text, &chars("x"), 0), None);
    assert_eq!(find_from(&text, &chars(""), 6), Some(6));
    assert_eq!(find_from(&text, &chars(""), 7), None);
}

#[test]
fn contains_agrees_with_std_on_samples() {
    let samples = [
        ("", ""),
        ("", "a"),
        ("a", ""),
        ("<pre><code>x</code></pre>", "<code>"),
        ("<pre><code class=\"x\">y</code></pre>", "<code>"),
        ("<cod<code", "<code>"),
        ("<<code>", "<code>"),
        ("aab", "ab"),
        ("ab", "abc"),
    ];
    for (text, pattern) in samples {
        assert_eq!(contains(text, pattern), text.contains(pattern), "{text:?} {pattern:?}");
    }
}

#[test]
fn contains_is_case_sensitive() {
    assert!(contains("<code>", "<code>"));
    assert!(!contains("<CODE>", "<code>"));
}

#[test]
fn ascii_lowercase_changes_ascii_capitals_only() {
    assert_eq!(ascii_lowercase(&chars("For EXAMPLE: Az@[`{")), chars("for example: az@[`{"));
    assert_eq!(ascii_lowercase(&chars("ÀÉ Ω")), chars("ÀÉ Ω"));
    assert_eq!(ascii_lowercase(&chars("")), chars(""));
}

#[test]
fn lowercase_contains_finds_the_phrase_in_any_case() {
    assert!(lowercase_contains("For example:", "for example"));
    assert!(lowercase_contains("<p>FOR EXAMPLE, suppose</p>", "for example"));
    assert!(lowercase_contains("for example", "for example"));
    assert!(!lowercase_contains("for  example", "for example"));
    assert!(!lowercase_contains("an example", "for example"));
}

#[test]
fn lowercase_contains_takes_the_pattern_as_it_is() {
    assert!(!lowercase_contains("for example", "For example"));
}

#[test]
fn line_count_agrees_with_std_on_samples() {
    let samples = [
        "", "a", "a\n", "\n", "a\nb", "a\nb\n", "\n\n", "a\n\nb", "a\r\nb", "a\r", "\r\n", " \n ",
        "1,2,3\n4,5,6",
    ];
    for text in samples {
        assert_eq!(line_count(text), text.lines().count(), "{text:?}");
    }
}

#[test]
fn line_count_gives_exact_values() {
    assert_eq!(line_count(""), 0);
    assert_eq!(line_count("one"), 1);
    assert_eq!(line_count("one\n"), 1);
    assert_eq!(line_count("one\ntwo"), 2);
    assert_eq!(line_count("one\n\n"), 2);
    assert_eq!(line_count("one\n\nthree"), 3);
}

#[test]
fn replace_all_agrees_with_std_on_samples() {
    let samples = [
        ("", "a", "b"),
        ("aaa", "aa", "b"),
        ("aaaa", "aa", "b"),
        ("abab", "ab", ""),
        ("a&gt;b&gt;", "&gt;", ">"),
        ("&&gt;", "&gt;", ">"),
        ("x", "xyz", "q"),
        ("xyz", "xyz", "xyzxyz"),
        ("a>b", ">", "&gt;"),
        ("é&lt;é", "&lt;", "<"),
    ];
    for (text, pattern, replacement) in samples {
        assert_eq!(
            replace_all(text, pattern, replacement),
            text.replace(pattern, replacement),
            "{text:?} {pattern:?} {replacement:?}"
        );
    }
}

#[test]
fn replace_all_goes_on_behind_what_it_replaced() {
    assert_eq!(replace_all("aaa", "aa", "a"), "aa");
    assert_eq!(replace_all("<e<em>m>", "<em>", ""), "<em>");
}

#[test]
fn replace_all_with_an_empty_pattern_changes_nothing() {
    assert_eq!(replace_all("abc", "", "x"), "abc");
    assert_eq!(replace_all("", "", "x"), "");
}

#[test]
fn trim_line_feeds_drops_line_feeds_only() {
    assert_eq!(trim_line_feeds("a\n\n"), "a");
    assert_eq!(trim_line_feeds("a\n \n"), "a\n ");
    assert_eq!(trim_line_feeds("a\r\n"), "a\r");
    assert_eq!(trim_line_feeds("\n\n"), "");
    assert_eq!(trim_line_feeds(""), "");
    assert_eq!(trim_line_feeds("\na"), "\na");
    assert_eq!(trim_line_feeds("a\t"), "a\t");
}

#[test]
fn trim_line_feeds_agrees_with_std_on_samples() {
    for text in ["", "\n", "a\n", "a\n\n\n", "a\nb", " \n", "a\n "] {
        assert_eq!(trim_line_feeds(text), text.trim_end_matches('\n'), "{text:?}");
    }
}
