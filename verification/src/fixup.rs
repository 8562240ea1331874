//! The normalizer: from the rendered markup of a chosen block to plain text.

use crate::text::{
    lemma_replace_absent, lemma_replace_no_longer, lemma_replace_shorter, lemma_trim_line_feeds,
    replace_all, spec_contains, spec_replace_all, spec_trim_line_feeds, trim_line_feeds,
};
use vstd::prelude::*;

verus! {

/// The plain text of a block's rendered markup: the two entities `&gt;` and
/// `&lt;` decoded, then the tags `<em>`, `</em>`, `<code>` and `</code>` taken
/// out, each wherever it stands and in this order, then the line feeds at the
/// end dropped. No other markup is touched.
pub open spec fn spec_fixup(markup: Seq<char>) -> Seq<char> {
    let text = spec_replace_all(markup, "&gt;"@, ">"@);
    let text = spec_replace_all(text, "&lt;"@, "<"@);
    let text = spec_replace_all(text, "<em>"@, ""@);
    let text = spec_replace_all(text, "</em>"@, ""@);
    let text = spec_replace_all(text, "<code>"@, ""@);
    let text = spec_replace_all(text, "</code>"@, ""@);
    spec_trim_line_feeds(text)
}

/// The plain text of a block's rendered markup. It is defined for every
/// input.
pub fn fixup(markup: &str) -> (out: String)
    ensures
        out@ == spec_fixup(markup@),
{
    let text = replace_all(markup, "&gt;", ">");
    let text = replace_all(text.as_str(), "&lt;", "<");
    let text = replace_all(text.as_str(), "<em>", "");
    let text = replace_all(text.as_str(), "</em>", "");
    let text = replace_all(text.as_str(), "<code>", "");
    let text = replace_all(text.as_str(), "</code>", "");
    trim_line_feeds(text.as_str())
}

/// Nothing is left for the normalizer to do: `text` holds none of the two
/// entities and none of the four tags, and does not end in a line feed.
pub open spec fn spec_is_normalized(text: Seq<char>) -> bool {
    &&& !spec_contains(text, "&gt;"@)
    &&& !spec_contains(text, "&lt;"@)
    &&& !spec_contains(text, "<em>"@)
    &&& !spec_contains(text, "</em>"@)
    &&& !spec_contains(text, "<code>"@)
    &&& !spec_contains(text, "</code>"@)
    &&& (text.len() > 0 ==> text.last() != '\n')
}

/// The normalizer's result never ends in a line feed.
pub proof fn lemma_fixup_ends_without_line_feed(markup: Seq<char>)
    ensures
        spec_fixup(markup).len() > 0 ==> spec_fixup(markup).last() != '\n',
{
    let text = spec_replace_all(markup, "&gt;"@, ">"@);
    let text = spec_replace_all(text, "&lt;"@, "<"@);
    let text = spec_replace_all(text, "<em>"@, ""@);
    let text = spec_replace_all(text, "</em>"@, ""@);
    let text = spec_replace_all(text, "<code>"@, ""@);
    let text = spec_replace_all(text, "</code>"@, ""@);
    lemma_trim_line_feeds(text);
}

/// Normalized text is left as it is.
pub proof fn lemma_fixup_keeps_normalized(text: Seq<char>)
    requires
        spec_is_normalized(text),
    ensures
        spec_fixup(text) == text,
{
    lemma_replace_absent(text, "&gt;"@, ">"@);
    lemma_replace_absent(text, "&lt;"@, "<"@);
    lemma_replace_absent(text, "<em>"@, ""@);
    lemma_replace_absent(text, "</em>"@, ""@);
    lemma_replace_absent(text, "<code>"@, ""@);
    lemma_replace_absent(text, "</code>"@, ""@);
}

/// A step that does not shorten the text found nothing to replace, and left
/// the text as it was.
proof fn lemma_step_at_rest(text: Seq<char>, pattern: Seq<char>, replacement: Seq<char>)
    requires
        replacement.len() < pattern.len(),
        spec_replace_all(text, pattern, replacement).len() >= text.len(),
    ensures
        !spec_contains(text, pattern),
        spec_replace_all(text, pattern, replacement) == text,
{
    if spec_contains(text, pattern) {
        lemma_replace_shorter(text, pattern, replacement);
    }
    lemma_replace_absent(text, pattern, replacement);
}

/// Only normalized text is left as it is: whatever the normalizer does not
/// change holds nothing that it strips.
pub proof fn lemma_fixup_changes_the_rest(text: Seq<char>)
    requires
        spec_fixup(text) == text,
    ensures
        spec_is_normalized(text),
{
    reveal_strlit("&gt;");
    reveal_strlit(">");
    reveal_strlit("&lt;");
    reveal_strlit("<");
    reveal_strlit("<em>");
    reveal_strlit("</em>");
    reveal_strlit("<code>");
    reveal_strlit("</code>");
    reveal_strlit("");
    let t1 = spec_replace_all(text, "&gt;"@, ">"@);
    let t2 = spec_replace_all(t1, "&lt;"@, "<"@);
    let t3 = spec_replace_all(t2, "<em>"@, ""@);
    let t4 = spec_replace_all(t3, "</em>"@, ""@);
    let t5 = spec_replace_all(t4, "<code>"@, ""@);
    let t6 = spec_replace_all(t5, "</code>"@, ""@);
    // no step lengthens the text, so none can have shortened it
    lemma_replace_no_longer(text, "&gt;"@, ">"@);
    lemma_replace_no_longer(t1, "&lt;"@, "<"@);
    lemma_replace_no_longer(t2, "<em>"@, ""@);
    lemma_replace_no_longer(t3, "</em>"@, ""@);
    lemma_replace_no_longer(t4, "<code>"@, ""@);
    lemma_replace_no_longer(t5, "</code>"@, ""@);
    lemma_trim_line_feeds(t6);
    lemma_step_at_rest(text, "&gt;"@, ">"@);
    lemma_step_at_rest(t1, "&lt;"@, "<"@);
    lemma_step_at_rest(t2, "<em>"@, ""@);
    lemma_step_at_rest(t3, "</em>"@, ""@);
    lemma_step_at_rest(t4, "<code>"@, ""@);
    lemma_step_at_rest(t5, "</code>"@, ""@);
}

/// Normalizing is idempotent on every input whose normalized text holds
/// nothing more to strip: a second pass gives the same text as the first.
pub proof fn lemma_fixup_idempotent(markup: Seq<char>)
    requires
        spec_is_normalized(spec_fixup(markup)),
    ensures
        spec_fixup(spec_fixup(markup)) == spec_fixup(markup),
{
    lemma_fixup_keeps_normalized(spec_fixup(markup));
}

} // verus!
