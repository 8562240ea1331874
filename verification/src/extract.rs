//! From the markup of a page to its example text. The markup is parsed by
//! the `tl` crate; this module reads the parsed document node by node and
//! hands the nodes to the rules.

use crate::fixup::lemma_fixup_ends_without_line_feed;
use crate::page::{page_view, NodeView, PageNode};
use crate::select::{select, spec_select, Outcome, OutcomeView};
use vstd::prelude::*;

verus! {

/// `tl::VDom`, a parsed document. It is carried through as it is; what it
/// holds is read through `dom_nodes`.
#[verifier::external_type_specification]
#[verifier::external_body]
pub struct ExVDom<'a>(tl::VDom<'a>);

/// `tl::ParseError`, the parser's refusal of a markup. Nothing is read from
/// it.
#[verifier::external_type_specification]
#[verifier::external_body]
pub struct ExParseError(tl::ParseError);

/// The nodes of a parsed document, in document order, each as the rules read
/// it: what `VDom::nodes` holds, with the tag name, the rendered inner markup
/// and the number of direct children of each node.
pub uninterp spec fn dom_nodes(dom: &tl::VDom) -> Seq<NodeView>;

/// `tl::parse` with the default options. It is assumed to fail exactly on
/// markup of more than `u32::MAX` bytes, as its documentation says. Nothing
/// is assumed of the document that it returns.
#[verifier::external_body]
fn parse_markup(markup: &str) -> (parsed: Result<tl::VDom<'_>, tl::ParseError>)
    ensures
        parsed is Ok <==> markup.len() <= u32::MAX,
{
    tl::parse(markup, tl::ParserOptions::default())
}

/// The length of `VDom::nodes`, assumed to be the number of the document's
/// nodes.
#[verifier::external_body]
fn node_count(dom: &tl::VDom) -> (count: usize)
    ensures
        count == dom_nodes(dom).len(),
{
    dom.nodes().len()
}

/// `Node::as_tag` and `HTMLTag::name` on the node at `at`, the name read as
/// UTF-8. It is assumed to give the tag name of an element, and nothing for
/// raw text and comments.
#[verifier::external_body]
fn node_tag_name(dom: &tl::VDom, at: usize) -> (name: Option<String>)
    requires
        at < dom_nodes(dom).len(),
    ensures
        match name {
            Some(name) => dom_nodes(dom)[at as int] matches NodeView::Element { name: own, .. }
                && own == name@,
            None => dom_nodes(dom)[at as int] is Text,
        },
{
    match dom.nodes()[at].as_tag() {
        Some(tag) => Some(tag.name().as_utf8_str().into_owned()),
        None => None,
    }
}

/// `Node::inner_html` on the node at `at`, assumed to give the node's
/// rendered inner markup: for raw text and comments the text itself, for an
/// element the markup of the nodes below it. `tl` renders an element by
/// calling itself for each level of nesting, so a document nested deeper
/// than the stack allows is beyond this call. Where an element has more than
/// two attributes besides `id` and `class`, `tl` writes them in the order of
/// a hash map: the markup is the same on each call for one document, and may
/// differ between two documents parsed from one markup.
#[verifier::external_body]
fn node_inner_html(dom: &tl::VDom, at: usize) -> (markup: String)
    requires
        at < dom_nodes(dom).len(),
    ensures
        markup@ == dom_nodes(dom)[at as int].inner_html(),
{
    dom.nodes()[at].inner_html(dom.parser()).into_owned()
}

/// `Node::children` and the length of `Children::top` on the node at `at`,
/// assumed to give the number of an element's direct children, and nothing
/// for raw text and comments.
#[verifier::external_body]
fn node_child_count(dom: &tl::VDom, at: usize) -> (count: Option<usize>)
    requires
        at < dom_nodes(dom).len(),
    ensures
        match count {
            Some(count) => dom_nodes(dom)[at as int] matches NodeView::Element { children, .. }
                && children == count,
            None => dom_nodes(dom)[at as int] is Text,
        },
{
    match dom.nodes()[at].children() {
        Some(children) => Some(children.top().len()),
        None => None,
    }
}

/// The node at `at` of a parsed document.
fn node_at(dom: &tl::VDom, at: usize) -> (node: PageNode)
    requires
        at < dom_nodes(dom).len(),
    ensures
        node@ == dom_nodes(dom)[at as int],
{
    let inner_html = node_inner_html(dom, at);
    match node_tag_name(dom, at) {
        Some(name) => match node_child_count(dom, at) {
            Some(children) => PageNode::Element { name, inner_html, children },
            None => PageNode::Text { content: inner_html },
        },
        None => PageNode::Text { content: inner_html },
    }
}

/// The nodes of a parsed document, in document order.
fn collect_nodes(dom: &tl::VDom) -> (page: Vec<PageNode>)
    ensures
        page_view(page@) == dom_nodes(dom),
{
    let count = node_count(dom);
    let mut page: Vec<PageNode> = Vec::new();
    while page.len() < count
        invariant
            count == dom_nodes(dom).len(),
            page.len() <= count,
            page_view(page@) == dom_nodes(dom).take(page.len() as int),
        decreases count - page.len(),
    {
        let ghost before = page@;
        let node = node_at(dom, page.len());
        page.push(node);
        assert(page_view(page@) =~= page_view(before).push(node@));
        assert(page_view(page@) =~= dom_nodes(dom).take(page.len() as int));
    }
    assert(dom_nodes(dom).take(count as int) =~= dom_nodes(dom));
    page
}

/// Why a page could not be searched.
#[derive(Clone, Copy, Debug, PartialEq, Eq)]
pub enum ExtractError {
    /// The markup is longer than `u32::MAX` bytes, which the parser does not
    /// take.
    MarkupTooLong,
}

/// Parses `markup` and gives its nodes in document order. This fails on
/// markup of more than `u32::MAX` bytes and on no other.
pub fn parse_page(markup: &str) -> (parsed: Result<Vec<PageNode>, ExtractError>)
    ensures
        parsed is Ok <==> markup.len() <= u32::MAX,
{
    match parse_markup(markup) {
        Ok(dom) => Ok(collect_nodes(&dom)),
        Err(_) => Err(ExtractError::MarkupTooLong),
    }
}

/// Parses `markup` and searches it for the example block. The outcome is
/// what the rules give for the page that the parser made of the markup.
pub fn extract(markup: &str) -> (searched: Result<Outcome, ExtractError>)
    ensures
        searched is Ok <==> markup.len() <= u32::MAX,
        searched matches Ok(outcome) ==> exists|page: Seq<NodeView>|
            outcome@ == #[trigger] spec_select(page),
{
    match parse_page(markup) {
        Ok(page) => Ok(select(&page)),
        Err(failure) => Err(failure),
    }
}

/// The example text of the page with the markup `html`, or `None` where the
/// rules choose no block. `year` and `day` name the puzzle; no rule reads
/// them.
#[allow(unused_variables)]
pub fn extract_example(year: u32, day: u32, html: &str) -> (example: Option<String>)
    requires
        html.len() <= u32::MAX,
    ensures
        exists|page: Seq<NodeView>|
            match example {
                Some(text) => (#[trigger] spec_select(page)).example() == Some(text@),
                None => spec_select(page).example() is None,
            },
        example matches Some(text) ==> (text@.len() > 0 ==> text@.last() != '\n'),
{
    match extract(html) {
        Ok(outcome) => {
            proof {
                let page = choose|page: Seq<NodeView>| outcome@ == #[trigger] spec_select(page);
                lemma_example_ends_without_line_feed(page);
            }
            outcome.example()
        },
        Err(_) => None,
    }
}

/// An example text never ends in a line feed.
pub proof fn lemma_example_ends_without_line_feed(page: Seq<NodeView>)
    ensures
        spec_select(page).example() matches Some(text) ==> (text.len() > 0 ==> text.last()
            != '\n'),
{
    match spec_select(page) {
        OutcomeView::Found { rule, text } => {
            let node = choose|node: NodeView| text == crate::fixup::spec_fixup(node.inner_html());
            lemma_fixup_ends_without_line_feed(node.inner_html());
        },
        _ => {},
    }
}

} // verus!
