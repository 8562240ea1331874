use advent_example::page::PageNode;
use advent_example::select::{
    anchored_block, candidates, first_plain, first_pre, holds_code, last_mention, select,
    Outcome, Rule, ANCHOR_WINDOW,
};

fn element(name: &str, inner_html: &str, children: usize) -> PageNode {
    PageNode::Element { name: name.to_string(), inner_html: inner_html.to_string(), children }
}

fn text(content: &str) -> PageNode {
    PageNode::Text { content: content.to_string() }
}

fn found(rule: Rule, text: &str) -> Outcome {
    Outcome::Found { rule, text: text.to_string() }
}

#[test]
fn node_predicates_read_the_fields() {
    let code = element("code", "a\nb", 1);
    assert!(code.is_named("code"));
    assert!(!code.is_named("pre"));
    assert!(!code.is_named("CODE"));
    assert!(code.is_multi_line());
    assert!(code.is_plain());
    assert!(!code.mentions_example());
    assert_eq!(code.inner_html(), "a\nb");
    let prose = text("For Example:");
    assert!(!prose.is_named("code"));
    assert!(!prose.is_named(""));
    assert!(!prose.is_multi_line());
    assert!(!prose.is_plain());
    assert!(prose.mentions_example());
    assert_eq!(prose.inner_html(), "For Example:");
    assert!(!element("code", "a\n", 1).is_multi_line());
    assert!(!element("code", "x", 0).is_plain());
    assert!(!element("code", "x", 2).is_plain());
}

#[test]
fn candidates_are_the_code_elements_of_the_kind_in_document_order() {
    let page = vec![
        element("p", "a\nb", 1),
        element("code", "a\nb", 2),
        text("a\nb"),
        element("code", "one", 1),
        element("code", "c\nd\n", 1),
        element("code", "", 0),
        element("pre", "x\ny", 1),
    ];
    assert_eq!(candidates(&page, true), vec![1, 4]);
    assert_eq!(candidates(&page, false), vec![3, 5]);
    assert_eq!(candidates(&Vec::new(), true), Vec::<usize>::new());
}

#[test]
fn first_plain_passes_over_blocks_with_more_or_fewer_children() {
    let page = vec![
        element("code", "a\nb", 2),
        element("code", "a\nb", 0),
        element("code", "a\nb", 1),
        element("code", "a\nb", 1),
    ];
    assert_eq!(first_plain(&page, &vec![0, 1, 2, 3]), Some(2));
    assert_eq!(first_plain(&page, &vec![3, 2]), Some(3));
    assert_eq!(first_plain(&page, &vec![0, 1]), None);
    assert_eq!(first_plain(&page, &Vec::new()), None);
}

#[test]
fn last_mention_is_the_last_node_that_holds_the_phrase() {
    let page = vec![
        element("article", "<p>For example:</p><pre>x</pre>", 2),
        element("p", "For example:", 1),
        text("For example:"),
        element("pre", "x", 1),
        text("x"),
    ];
    assert_eq!(last_mention(&page), Some(2));
    assert_eq!(last_mention(&page[..1].to_vec()), Some(0));
    assert_eq!(last_mention(&page[3..].to_vec()), None);
    assert_eq!(last_mention(&Vec::new()), None);
}

#[test]
fn first_pre_looks_from_the_start_and_stops_before_the_end() {
    let page = vec![text("a"), element("pre", "b", 1), text("b"), element("pre", "c", 1)];
    assert_eq!(first_pre(&page, 0, 4), Some(1));
    assert_eq!(first_pre(&page, 1, 4), Some(1));
    assert_eq!(first_pre(&page, 2, 4), Some(3));
    assert_eq!(first_pre(&page, 2, 3), None);
    assert_eq!(first_pre(&page, 0, 1), None);
    assert_eq!(first_pre(&page, 0, 100), Some(1));
    assert_eq!(first_pre(&page, 4, 100), None);
    assert_eq!(first_pre(&page, 3, 2), None);
}

#[test]
fn anchor_window_is_five_nodes() {
    assert_eq!(ANCHOR_WINDOW, 5);
}

#[test]
fn anchored_block_is_found_up_to_the_last_node_of_the_window() {
    let mut page = vec![text("for example"), text("1"), text("2"), text("3")];
    page.push(element("pre", "<code>x</code>", 1));
    assert_eq!(anchored_block(&page), Some(4));
    page.insert(4, text("4"));
    assert_eq!(anchored_block(&page), None);
}

#[test]
fn anchored_block_may_be_the_anchor_itself() {
    let page = vec![element("pre", "for example <code>x</code>", 2)];
    assert_eq!(anchored_block(&page), Some(0));
}

#[test]
fn anchored_block_needs_a_code_tag_in_the_first_pre() {
    let page = vec![
        text("for example"),
        element("pre", "no code here", 1),
        element("pre", "<code>x</code>", 1),
    ];
    assert_eq!(anchored_block(&page), None);
    let page = vec![text("for example"), element("pre", "<code class=\"a\">x</code>", 1)];
    assert_eq!(anchored_block(&page), None);
}

#[test]
fn anchored_block_goes_by_the_last_mention_only() {
    let page = vec![
        text("For example:"),
        element("pre", "<code>x</code>", 1),
        text("x"),
        text("1"),
        text("2"),
        text("3"),
        text("for example, again"),
    ];
    assert_eq!(anchored_block(&page), None);
}

#[test]
fn anchored_block_needs_the_phrase() {
    let page = vec![text("an example"), element("pre", "<code>x</code>", 1)];
    assert_eq!(anchored_block(&page), None);
    assert_eq!(anchored_block(&Vec::new()), None);
}

#[test]
fn select_takes_an_only_candidate_whatever_it_holds() {
    for children in [0, 1, 2, 7] {
        let page = vec![
            text("For example:"),
            element("pre", "<code>not this</code>", 1),
            element("code", "not this", 1),
            element("code", "1,2,3\n4,5,6\n", children),
        ];
        assert_eq!(select(&page), found(Rule::OnlyCandidate, "1,2,3\n4,5,6"));
    }
}

#[test]
fn select_puts_the_anchored_block_before_a_plain_candidate() {
    let page = vec![
        element("code", "plain\ncandidate", 1),
        text("For example:"),
        element("pre", "<code>A &gt; B\nC</code>\n", 1),
        element("code", "A &gt; B\nC", 2),
    ];
    assert_eq!(select(&page), found(Rule::Anchor, "A > B\nC"));
}

#[test]
fn select_takes_the_first_plain_candidate_without_an_anchor() {
    let page = vec![
        element("code", "<span>x</span>\ny", 2),
        element("code", "first\nplain", 1),
        element("code", "second\nplain", 1),
    ];
    assert_eq!(select(&page), found(Rule::PlainMultiLine, "first\nplain"));
}

#[test]
fn select_takes_the_first_plain_candidate_where_the_anchor_points_at_nothing() {
    let page = vec![
        text("for example"),
        element("pre", "text only", 1),
        element("code", "a\nb", 3),
        element("code", "c\nd", 1),
    ];
    assert_eq!(select(&page), found(Rule::PlainMultiLine, "c\nd"));
}

#[test]
fn select_falls_back_to_a_plain_element_of_one_line() {
    let page = vec![
        element("code", "a\nb", 2),
        element("code", "skipped", 2),
        element("code", "c\nd", 3),
        element("code", "x &lt; y", 1),
        element("code", "later", 1),
    ];
    assert_eq!(select(&page), found(Rule::PlainSingleLine, "x < y"));
}

#[test]
fn select_falls_back_where_no_candidate_has_more_than_one_line() {
    let page = vec![element("p", "a\nb", 1), element("code", "only", 1)];
    assert_eq!(select(&page), found(Rule::PlainSingleLine, "only"));
}

#[test]
fn select_takes_the_anchored_block_without_candidates_of_more_than_one_line() {
    let page = vec![
        element("code", "first", 1),
        text("For example:"),
        element("pre", "<code>second</code>", 1),
        element("code", "second", 1),
    ];
    assert_eq!(select(&page), found(Rule::Anchor, "second"));
}

#[test]
fn select_takes_the_anchored_block_where_its_code_element_holds_markup() {
    let page = vec![
        element("p", "For example:", 1),
        text("For example:"),
        element("pre", "<code>A <em>&gt;</em> B</code>", 1),
        element("code", "A <em>&gt;</em> B", 3),
        text("A "),
        element("em", "&gt;", 1),
        text("&gt;"),
        text(" B"),
    ];
    assert_eq!(select(&page), found(Rule::Anchor, "A > B"));
}

#[test]
fn select_passes_the_anchor_by_on_a_page_without_code_elements() {
    let page = vec![
        text("for example"),
        element("pre", "<!--<code>-->", 1),
        text("<!--<code>-->"),
    ];
    assert_eq!(anchored_block(&page), Some(1));
    assert!(!holds_code(&page));
    assert_eq!(select(&page), Outcome::NoCodeBlocks);
    let page = vec![text("for example"), element("pre", "<img alt=\"<code>\">", 1)];
    assert_eq!(select(&page), Outcome::NoCodeBlocks);
}

#[test]
fn holds_code_looks_for_an_element_named_code() {
    assert!(!holds_code(&Vec::new()));
    assert!(!holds_code(&vec![text("code"), element("pre", "<code>", 1), element("CODE", "", 0)]));
    assert!(holds_code(&vec![text("x"), element("code", "", 0)]));
    assert!(holds_code(&vec![element("code", "a\nb", 2), text("x")]));
}

#[test]
fn select_puts_an_only_candidate_before_the_anchored_block() {
    let page = vec![
        text("For example:"),
        element("pre", "<code>anchored</code>", 1),
        element("code", "anchored", 1),
        element("code", "only\ncandidate", 2),
    ];
    assert_eq!(select(&page), found(Rule::OnlyCandidate, "only\ncandidate"));
}

#[test]
fn select_reports_that_there_are_no_code_blocks() {
    assert_eq!(select(&Vec::new()), Outcome::NoCodeBlocks);
    let page = vec![element("p", "a\nb", 1), text("a\nb"), element("pre", "a\nb", 1)];
    assert_eq!(select(&page), Outcome::NoCodeBlocks);
    let page = vec![element("code", "one line", 2), element("code", "", 0)];
    assert_eq!(select(&page), Outcome::NoCodeBlocks);
}

#[test]
fn select_reports_how_many_candidates_matched_nothing() {
    let page = vec![
        element("code", "a\nb", 2),
        element("code", "c\nd", 3),
        element("code", "e", 2),
        element("code", "f\ng", 0),
    ];
    assert_eq!(select(&page), Outcome::NoneMatched { candidates: 3 });
}

#[test]
fn select_gives_the_same_outcome_for_the_same_page() {
    let page = vec![element("code", "a\nb", 2), element("code", "c\nd\n", 1)];
    assert_eq!(select(&page), select(&page.clone()));
    assert_eq!(select(&page), found(Rule::PlainMultiLine, "c\nd"));
}

#[test]
fn example_is_the_text_of_what_was_found() {
    assert_eq!(found(Rule::Anchor, "x").example(), Some("x".to_string()));
    assert_eq!(Outcome::NoCodeBlocks.example(), None);
    assert_eq!(Outcome::NoneMatched { candidates: 2 }.example(), None);
}
