//! Searching and rewriting text, with the text taken as a sequence of
//! characters.

use vstd::prelude::*;

verus! {

/// `pattern` stands in `text` at position `at`.
pub open spec fn spec_occurs_at(text: Seq<char>, pattern: Seq<char>, at: int) -> bool {
    &&& 0 <= at
    &&& at + pattern.len() <= text.len()
    &&& text.subrange(at, at + pattern.len()) == pattern
}

/// `pattern` stands somewhere in `text`.
pub open spec fn spec_contains(text: Seq<char>, pattern: Seq<char>) -> bool {
    exists|at: int| spec_occurs_at(text, pattern, at)
}

/// The characters of `text`, in order.
pub fn to_chars(text: &str) -> (chars: Vec<char>)
    ensures
        chars@ == text@,
{
    let mut chars: Vec<char> = Vec::new();
    for c in it: text.chars()
        invariant
            it.seq() == text@,
            chars@ == it.seq().take(it.index()),
    {
        chars.push(c);
    }
    chars
}

/// Whether `pattern` stands in `text` at position `at`.
pub fn occurs_at(text: &Vec<char>, pattern: &Vec<char>, at: usize) -> (found: bool)
    ensures
        found == spec_occurs_at(text@, pattern@, at as int),
{
    if at > text.len() || text.len() - at < pattern.len() {
        return false;
    }
    let mut k: usize = 0;
    while k < pattern.len()
        invariant
            at + pattern.len() <= text.len(),
            k <= pattern.len(),
            forall|j: int| 0 <= j < k ==> text@[at + j] == pattern@[j],
        decreases pattern.len() - k,
    {
        if text[at + k] != pattern[k] {
            assert(text@.subrange(at as int, at + pattern.len())[k as int] != pattern@[k as int]);
            return false;
        }
        k = k + 1;
    }
    assert(text@.subrange(at as int, at + pattern.len()) =~= pattern@);
    true
}

/// The first position at or after `from` where `pattern` stands in `text`.
pub fn find_from(text: &Vec<char>, pattern: &Vec<char>, from: usize) -> (found: Option<usize>)
    ensures
        match found {
            Some(at) => {
                &&& from <= at
                &&& spec_occurs_at(text@, pattern@, at as int)
                &&& forall|j: int| from <= j < at ==> !spec_occurs_at(text@, pattern@, j)
            },
            None => forall|j: int| from <= j ==> !spec_occurs_at(text@, pattern@, j),
        },
{
    let mut at: usize = from;
    while at <= text.len()
        invariant
            from <= at,
            forall|j: int| from <= j < at ==> !spec_occurs_at(text@, pattern@, j),
        decreases text.len() + 1 - at,
    {
        if occurs_at(text, pattern, at) {
            return Some(at);
        }
        if at == text.len() {
            return None;
        }
        at = at + 1;
    }
    None
}

/// Whether `pattern` stands somewhere in `text`.
pub fn contains(text: &str, pattern: &str) -> (found: bool)
    ensures
        found == spec_contains(text@, pattern@),
{
    let text_chars = to_chars(text);
    let pattern_chars = to_chars(pattern);
    find_from(&text_chars, &pattern_chars, 0).is_some()
}

/// `c` with an ASCII capital made small, as `char::to_ascii_lowercase` gives it.
pub open spec fn spec_ascii_lower(c: char) -> char {
    if 'A' <= c && c <= 'Z' {
        ((c as u8) + 32u8) as char
    } else {
        c
    }
}

/// `text` with each ASCII capital made small and every other character kept.
pub open spec fn spec_ascii_lowercase(text: Seq<char>) -> Seq<char> {
    text.map_values(|c: char| spec_ascii_lower(c))
}

/// `text` with each ASCII capital made small and every other character kept.
pub fn ascii_lowercase(text: &Vec<char>) -> (lowered: Vec<char>)
    ensures
        lowered@ == spec_ascii_lowercase(text@),
{
    let mut lowered: Vec<char> = Vec::new();
    let mut i: usize = 0;
    while i < text.len()
        invariant
            i <= text.len(),
            lowered@ == spec_ascii_lowercase(text@.take(i as int)),
        decreases text.len() - i,
    {
        let c = text[i];
        let small = if 'A' <= c && c <= 'Z' {
            ((c as u8) + 32u8) as char
        } else {
            c
        };
        lowered.push(small);
        assert(lowered@ =~= spec_ascii_lowercase(text@.take(i + 1)));
        i = i + 1;
    }
    assert(text@.take(text.len() as int) =~= text@);
    lowered
}

/// Whether `pattern` stands somewhere in `text` once the ASCII capitals of
/// `text` are made small. `pattern` is taken as it is.
pub fn lowercase_contains(text: &str, pattern: &str) -> (found: bool)
    ensures
        found == spec_contains(spec_ascii_lowercase(text@), pattern@),
{
    let lowered = ascii_lowercase(&to_chars(text));
    let pattern_chars = to_chars(pattern);
    find_from(&lowered, &pattern_chars, 0).is_some()
}

/// How many characters of `text` are line feeds.
pub open spec fn spec_line_feeds(text: Seq<char>) -> nat
    decreases text.len(),
{
    if text.len() == 0 {
        0
    } else {
        spec_line_feeds(text.drop_last()) + if text.last() == '\n' {
            1nat
        } else {
            0nat
        }
    }
}

/// How many lines `text` has, as `str::lines` counts them: each line feed
/// ends a line, and what follows the last line feed is a line of its own
/// unless it is empty.
pub open spec fn spec_line_count(text: Seq<char>) -> nat {
    spec_line_feeds(text) + if text.len() > 0 && text.last() != '\n' {
        1nat
    } else {
        0nat
    }
}

/// How many lines `text` has.
pub fn line_count(text: &str) -> (lines: usize)
    ensures
        lines == spec_line_count(text@),
{
    let chars = to_chars(text);
    let mut feeds: usize = 0;
    let mut i: usize = 0;
    while i < chars.len()
        invariant
            i <= chars.len(),
            feeds <= i,
            feeds == spec_line_feeds(chars@.take(i as int)),
        decreases chars.len() - i,
    {
        assert(chars@.take(i + 1).drop_last() =~= chars@.take(i as int));
        if chars[i] == '\n' {
            feeds = feeds + 1;
        }
        i = i + 1;
    }
    assert(chars@.take(chars.len() as int) =~= chars@);
    if chars.len() > 0 && chars[chars.len() - 1] != '\n' {
        // the last line has no line feed, so it was not counted yet
        assert(feeds < chars.len()) by {
            lemma_line_feeds_bound(chars@);
        }
        feeds + 1
    } else {
        feeds
    }
}

/// A text has no more line feeds than characters, and fewer when it does not
/// end in one.
pub proof fn lemma_line_feeds_bound(text: Seq<char>)
    ensures
        spec_line_feeds(text) <= text.len(),
        text.len() > 0 && text.last() != '\n' ==> spec_line_feeds(text) < text.len(),
    decreases text.len(),
{
    if text.len() > 0 {
        lemma_line_feeds_bound(text.drop_last());
    }
}

/// `text` with every occurrence of `pattern` replaced by `replacement`. The
/// occurrences are taken from left to right and do not overlap: after one is
/// replaced the search goes on behind it. An empty `pattern` occurs nowhere.
pub open spec fn spec_replace_all(
    text: Seq<char>,
    pattern: Seq<char>,
    replacement: Seq<char>,
) -> Seq<char>
    decreases text.len(),
{
    if pattern.len() == 0 || text.len() == 0 {
        text
    } else if spec_occurs_at(text, pattern, 0) {
        replacement + spec_replace_all(text.skip(pattern.len() as int), pattern, replacement)
    } else {
        text.take(1) + spec_replace_all(text.skip(1), pattern, replacement)
    }
}

/// `text` with every occurrence of `pattern` replaced by `replacement`.
pub fn replace_all(text: &str, pattern: &str, replacement: &str) -> (out: String)
    ensures
        out@ == spec_replace_all(text@, pattern@, replacement@),
{
    let chars = to_chars(text);
    let pattern_chars = to_chars(pattern);
    if pattern_chars.len() == 0 {
        return text.to_owned();
    }
    let ghost whole = spec_replace_all(text@, pattern@, replacement@);
    let mut out = String::new();
    // `kept` is where the stretch begins that was read and not yet written
    let mut kept: usize = 0;
    let mut at: usize = 0;
    assert(text@.subrange(0, 0) + spec_replace_all(text@.skip(0), pattern@, replacement@) =~= whole)
        by {
        assert(text@.skip(0) =~= text@);
    }
    while at < chars.len()
        invariant
            chars@ == text@,
            pattern_chars@ == pattern@,
            pattern@.len() > 0,
            kept <= at <= chars.len(),
            out@ + text@.subrange(kept as int, at as int) + spec_replace_all(
                text@.skip(at as int),
                pattern@,
                replacement@,
            ) == whole,
        decreases chars.len() - at,
    {
        let ghost written = out@;
        let ghost pending = text@.subrange(kept as int, at as int);
        let ghost rest = text@.skip(at as int);
        assert(spec_occurs_at(rest, pattern@, 0) == spec_occurs_at(text@, pattern@, at as int)) by {
            if at + pattern@.len() <= text@.len() {
                assert(rest.subrange(0, pattern@.len() as int) =~= text@.subrange(
                    at as int,
                    at + pattern@.len(),
                ));
            }
        }
        if occurs_at(&chars, &pattern_chars, at) {
            out.append(text.substring_char(kept, at));
            out.append(replacement);
            at = at + pattern_chars.len();
            kept = at;
            assert(rest.skip(pattern@.len() as int) =~= text@.skip(at as int));
            assert(out@ + text@.subrange(kept as int, at as int) =~= written + pending
                + replacement@);
            assert(out@ + text@.subrange(kept as int, at as int) + spec_replace_all(
                text@.skip(at as int),
                pattern@,
                replacement@,
            ) =~= written + pending + (replacement@ + spec_replace_all(
                text@.skip(at as int),
                pattern@,
                replacement@,
            )));
        } else {
            at = at + 1;
            assert(rest.skip(1) =~= text@.skip(at as int));
            assert(text@.subrange(kept as int, at as int) =~= pending + rest.take(1));
            assert(out@ + text@.subrange(kept as int, at as int) + spec_replace_all(
                text@.skip(at as int),
                pattern@,
                replacement@,
            ) =~= written + pending + (rest.take(1) + spec_replace_all(
                text@.skip(at as int),
                pattern@,
                replacement@,
            )));
        }
    }
    out.append(text.substring_char(kept, at));
    assert(out@ =~= whole);
    out
}

/// `text` without the line feeds at its end: the longest beginning of `text`
/// that does not end in a line feed. Other white space stays.
pub open spec fn spec_trim_line_feeds(text: Seq<char>) -> Seq<char>
    decreases text.len(),
{
    if text.len() > 0 && text.last() == '\n' {
        spec_trim_line_feeds(text.drop_last())
    } else {
        text
    }
}

/// `text` without the line feeds at its end.
pub fn trim_line_feeds(text: &str) -> (out: String)
    ensures
        out@ == spec_trim_line_feeds(text@),
{
    let chars = to_chars(text);
    let mut end: usize = chars.len();
    assert(text@.take(end as int) =~= text@);
    while end > 0 && chars[end - 1] == '\n'
        invariant
            chars@ == text@,
            end <= chars.len(),
            spec_trim_line_feeds(text@.take(end as int)) == spec_trim_line_feeds(text@),
        decreases end,
    {
        assert(text@.take(end as int).drop_last() =~= text@.take(end - 1));
        end = end - 1;
    }
    text.substring_char(0, end).to_owned()
}

/// What trimming keeps is a beginning of the text that does not end in a line
/// feed, and what it drops is line feeds only.
pub proof fn lemma_trim_line_feeds(text: Seq<char>)
    ensures
        spec_trim_line_feeds(text).len() <= text.len(),
        spec_trim_line_feeds(text) == text.take(spec_trim_line_feeds(text).len() as int),
        spec_trim_line_feeds(text).len() > 0 ==> spec_trim_line_feeds(text).last() != '\n',
        forall|i: int| spec_trim_line_feeds(text).len() <= i < text.len() ==> text[i] == '\n',
    decreases text.len(),
{
    if text.len() > 0 && text.last() == '\n' {
        lemma_trim_line_feeds(text.drop_last());
        let kept = spec_trim_line_feeds(text).len() as int;
        assert(text.drop_last().take(kept) =~= text.take(kept));
        assert forall|i: int| kept <= i < text.len() implies text[i] == '\n' by {
            if i < text.len() - 1 {
                assert(text.drop_last()[i] == '\n');
            }
        }
    } else {
        assert(text.take(text.len() as int) =~= text);
    }
}

/// An occurrence in what follows the first `skipped` characters is an
/// occurrence in the whole text, `skipped` places further on, and the other
/// way round.
pub proof fn lemma_occurs_after_skip(text: Seq<char>, pattern: Seq<char>, skipped: int, at: int)
    requires
        0 <= skipped <= text.len(),
        0 <= at,
    ensures
        spec_occurs_at(text.skip(skipped), pattern, at) == spec_occurs_at(
            text,
            pattern,
            skipped + at,
        ),
{
    if skipped + at + pattern.len() <= text.len() {
        assert(text.skip(skipped).subrange(at, at + pattern.len()) =~= text.subrange(
            skipped + at,
            skipped + at + pattern.len(),
        ));
    }
}

/// Replacing a pattern that does not occur changes nothing.
pub proof fn lemma_replace_absent(text: Seq<char>, pattern: Seq<char>, replacement: Seq<char>)
    requires
        !spec_contains(text, pattern),
    ensures
        spec_replace_all(text, pattern, replacement) == text,
    decreases text.len(),
{
    if pattern.len() > 0 && text.len() > 0 {
        assert(!spec_occurs_at(text, pattern, 0));
        assert forall|at: int| !spec_occurs_at(text.skip(1), pattern, at) by {
            if 0 <= at {
                lemma_occurs_after_skip(text, pattern, 1, at);
                assert(!spec_occurs_at(text, pattern, 1 + at));
            }
        }
        lemma_replace_absent(text.skip(1), pattern, replacement);
        assert(text.take(1) + text.skip(1) =~= text);
    }
}

/// Where the replacement is no longer than the pattern, replacing does not
/// lengthen the text.
pub proof fn lemma_replace_no_longer(text: Seq<char>, pattern: Seq<char>, replacement: Seq<char>)
    requires
        replacement.len() <= pattern.len(),
    ensures
        spec_replace_all(text, pattern, replacement).len() <= text.len(),
    decreases text.len(),
{
    if pattern.len() > 0 && text.len() > 0 {
        if spec_occurs_at(text, pattern, 0) {
            lemma_replace_no_longer(text.skip(pattern.len() as int), pattern, replacement);
        } else {
            lemma_replace_no_longer(text.skip(1), pattern, replacement);
        }
    }
}

/// Where the replacement is shorter than the pattern and the pattern occurs,
/// replacing shortens the text.
pub proof fn lemma_replace_shorter(text: Seq<char>, pattern: Seq<char>, replacement: Seq<char>)
    requires
        replacement.len() < pattern.len(),
        spec_contains(text, pattern),
    ensures
        spec_replace_all(text, pattern, replacement).len() < text.len(),
    decreases text.len(),
{
    let at = choose|at: int| spec_occurs_at(text, pattern, at);
    if spec_occurs_at(text, pattern, 0) {
        lemma_replace_no_longer(text.skip(pattern.len() as int), pattern, replacement);
    } else {
        lemma_occurs_after_skip(text, pattern, 1, at - 1);
        lemma_replace_shorter(text.skip(1), pattern, replacement);
    }
}

} // verus!
