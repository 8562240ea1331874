//! A parsed page, as far as the rules read it: its nodes in document order,
//! each with its tag name, its rendered inner markup and the number of its
//! direct children.

use crate::text::{line_count, lowercase_contains, spec_ascii_lowercase, spec_contains, spec_line_count};
use vstd::prelude::*;

verus! {

/// One node of a parsed page.
#[derive(Clone, Debug, PartialEq, Eq)]
pub enum PageNode {
    /// An element: its tag name, the markup of what it holds, and how many
    /// nodes stand directly below it.
    Element { name: String, inner_html: String, children: usize },
    /// Raw text or a comment, with its markup.
    Text { content: String },
}

/// What a `PageNode` stands for.
pub enum NodeView {
    Element { name: Seq<char>, inner_html: Seq<char>, children: nat },
    Text { content: Seq<char> },
}

impl NodeView {
    /// The rendered inner markup of the node; for text and comments, the text
    /// itself.
    pub open spec fn inner_html(self) -> Seq<char> {
        match self {
            NodeView::Element { inner_html, .. } => inner_html,
            NodeView::Text { content } => content,
        }
    }

    /// The node is an element with the tag name `name`.
    pub open spec fn is_named(self, name: Seq<char>) -> bool {
        self matches NodeView::Element { name: own, .. } && own == name
    }

    /// The node is a `<code>` element.
    pub open spec fn is_code(self) -> bool {
        self.is_named("code"@)
    }

    /// The node is a `<pre>` element.
    pub open spec fn is_pre(self) -> bool {
        self.is_named("pre"@)
    }

    /// The node's inner markup spans more than one line.
    pub open spec fn is_multi_line(self) -> bool {
        spec_line_count(self.inner_html()) > 1
    }

    /// The node is an element with exactly one direct child: a block that
    /// holds plain text and no decoration.
    pub open spec fn is_plain(self) -> bool {
        self matches NodeView::Element { children, .. } && children == 1
    }

    /// The node's inner markup holds the anchor phrase "for example", in
    /// capitals or small letters.
    pub open spec fn mentions_example(self) -> bool {
        spec_contains(spec_ascii_lowercase(self.inner_html()), "for example"@)
    }

    /// The node's inner markup holds the opening tag `<code>`.
    pub open spec fn holds_code_tag(self) -> bool {
        spec_contains(self.inner_html(), "<code>"@)
    }
}

impl View for PageNode {
    type V = NodeView;

    open spec fn view(&self) -> NodeView {
        match self {
            PageNode::Element { name, inner_html, children } => NodeView::Element {
                name: name@,
                inner_html: inner_html@,
                children: *children as nat,
            },
            PageNode::Text { content } => NodeView::Text { content: content@ },
        }
    }
}

/// What a page stands for: the views of its nodes, in document order.
pub open spec fn page_view(nodes: Seq<PageNode>) -> Seq<NodeView> {
    nodes.map_values(|node: PageNode| node@)
}

impl PageNode {
    /// The rendered inner markup of the node.
    pub fn inner_html(&self) -> (markup: &String)
        ensures
            markup@ == self@.inner_html(),
    {
        match self {
            PageNode::Element { inner_html, .. } => inner_html,
            PageNode::Text { content } => content,
        }
    }

    /// Whether the node is an element with the tag name `name`.
    pub fn is_named(&self, name: &str) -> (named: bool)
        ensures
            named == self@.is_named(name@),
    {
        match self {
            PageNode::Element { name: own, .. } => *own == name.to_owned(),
            PageNode::Text { .. } => false,
        }
    }

    /// Whether the node's inner markup spans more than one line.
    pub fn is_multi_line(&self) -> (multi_line: bool)
        ensures
            multi_line == self@.is_multi_line(),
    {
        line_count(self.inner_html().as_str()) > 1
    }

    /// Whether the node is an element with exactly one direct child.
    pub fn is_plain(&self) -> (plain: bool)
        ensures
            plain == self@.is_plain(),
    {
        match self {
            PageNode::Element { children, .. } => *children == 1,
            PageNode::Text { .. } => false,
        }
    }

    /// Whether the node's inner markup holds the anchor phrase.
    pub fn mentions_example(&self) -> (mentioned: bool)
        ensures
            mentioned == self@.mentions_example(),
    {
        lowercase_contains(self.inner_html().as_str(), "for example")
    }
}

} // verus!
