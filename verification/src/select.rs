//! The rules that choose the example block among the nodes of a page.
//!
//! The candidates are the `<code>` elements whose inner markup spans more than
//! one line. A single candidate is taken as it is. On every other page that
//! holds a `<code>` element, a `<pre>` block right behind the phrase "for
//! example" goes first, then the first candidate that holds plain text only,
//! then the first `<code>` element of one line that holds plain text only. A
//! page without `<code>` elements has no example.

use crate::fixup::{fixup, spec_fixup};
use crate::page::{page_view, NodeView, PageNode};
use crate::text::contains;
use vstd::prelude::*;

verus! {

/// How many nodes are looked at for a `<pre>` block, from the node that holds
/// the anchor phrase onwards, that node counted.
pub const ANCHOR_WINDOW: usize = 5;

/// The node is a `<code>` element of more than one line (`multi_line`), or of
/// one line at most (`!multi_line`).
pub open spec fn spec_is_candidate(node: NodeView, multi_line: bool) -> bool {
    node.is_code() && node.is_multi_line() == multi_line
}

/// The positions of the candidates in `page`, in document order.
pub open spec fn spec_candidates(page: Seq<NodeView>, multi_line: bool) -> Seq<int>
    decreases page.len(),
{
    if page.len() == 0 {
        Seq::empty()
    } else {
        let earlier = spec_candidates(page.drop_last(), multi_line);
        if spec_is_candidate(page.last(), multi_line) {
            earlier.push(page.len() - 1)
        } else {
            earlier
        }
    }
}

/// The page holds a `<code>` element.
pub open spec fn spec_holds_code(page: Seq<NodeView>) -> bool {
    exists|at: int| 0 <= at < page.len() && (#[trigger] page[at]).is_code()
}

/// The positions held in a vector, as integers.
pub open spec fn spec_positions(positions: Seq<usize>) -> Seq<int> {
    positions.map_values(|at: usize| at as int)
}

/// A position that was found, as an integer.
pub open spec fn spec_position(found: Option<usize>) -> Option<int> {
    match found {
        Some(at) => Some(at as int),
        None => None,
    }
}

/// The first of `positions` whose node in `page` holds plain text only.
pub open spec fn spec_first_plain(page: Seq<NodeView>, positions: Seq<int>) -> Option<int>
    decreases positions.len(),
{
    if positions.len() == 0 {
        None
    } else if page[positions[0]].is_plain() {
        Some(positions[0])
    } else {
        spec_first_plain(page, positions.skip(1))
    }
}

/// The position of the last node of `page` that holds the anchor phrase. A
/// node's markup holds that of the nodes below it, so the last such node is
/// the innermost.
pub open spec fn spec_last_mention(page: Seq<NodeView>) -> Option<int>
    decreases page.len(),
{
    if page.len() == 0 {
        None
    } else if page.last().mentions_example() {
        Some(page.len() - 1)
    } else {
        spec_last_mention(page.drop_last())
    }
}

/// The position of the first `<pre>` element of `page` at or after `from` and
/// before `until`.
pub open spec fn spec_first_pre(page: Seq<NodeView>, from: int, until: int) -> Option<int>
    decreases until - from,
{
    if from >= until || from >= page.len() {
        None
    } else if page[from].is_pre() {
        Some(from)
    } else {
        spec_first_pre(page, from + 1, until)
    }
}

/// The position of the block that the anchor phrase points at: the first
/// `<pre>` element among the `ANCHOR_WINDOW` nodes that begin with the last
/// node holding the phrase, if its inner markup holds a `<code>` tag. There
/// is none where the phrase is absent, where no `<pre>` element stands in the
/// window, or where the first one holds no `<code>` tag.
pub open spec fn spec_anchored_block(page: Seq<NodeView>) -> Option<int> {
    match spec_last_mention(page) {
        None => None,
        Some(anchor) => match spec_first_pre(page, anchor, anchor + ANCHOR_WINDOW) {
            None => None,
            Some(block) => if page[block].holds_code_tag() {
                Some(block)
            } else {
                None
            },
        },
    }
}

/// Whether the page holds a `<code>` element.
pub fn holds_code(page: &Vec<PageNode>) -> (held: bool)
    ensures
        held == spec_holds_code(page_view(page@)),
{
    let mut at: usize = 0;
    while at < page.len()
        invariant
            at <= page.len(),
            forall|j: int| 0 <= j < at ==> !(#[trigger] page_view(page@)[j]).is_code(),
        decreases page.len() - at,
    {
        assert(page_view(page@)[at as int] == page[at as int]@);
        if page[at].is_named("code") {
            return true;
        }
        at = at + 1;
    }
    false
}

/// The positions of the candidates in `page`, in document order.
pub fn candidates(page: &Vec<PageNode>, multi_line: bool) -> (positions: Vec<usize>)
    ensures
        spec_positions(positions@) == spec_candidates(page_view(page@), multi_line),
        forall|k: int| 0 <= k < positions.len() ==> positions[k] < page.len(),
{
    let mut positions: Vec<usize> = Vec::new();
    let mut at: usize = 0;
    while at < page.len()
        invariant
            at <= page.len(),
            spec_positions(positions@) == spec_candidates(
                page_view(page@).take(at as int),
                multi_line,
            ),
            forall|k: int| 0 <= k < positions.len() ==> positions[k] < page.len(),
        decreases page.len() - at,
    {
        let node = &page[at];
        assert(page_view(page@).take(at + 1).drop_last() =~= page_view(page@).take(at as int));
        assert(page_view(page@).take(at + 1).last() == node@);
        if node.is_named("code") && node.is_multi_line() == multi_line {
            let ghost before = positions@;
            positions.push(at);
            assert(spec_positions(positions@) =~= spec_positions(before).push(at as int));
        }
        at = at + 1;
    }
    assert(page_view(page@).take(page.len() as int) =~= page_view(page@));
    positions
}

/// The first of `positions` whose node in `page` holds plain text only.
pub fn first_plain(page: &Vec<PageNode>, positions: &Vec<usize>) -> (found: Option<usize>)
    requires
        forall|k: int| 0 <= k < positions.len() ==> positions[k] < page.len(),
    ensures
        spec_position(found) == spec_first_plain(page_view(page@), spec_positions(positions@)),
        found matches Some(at) ==> at < page.len(),
{
    let mut k: usize = 0;
    assert(spec_positions(positions@).skip(0) =~= spec_positions(positions@));
    while k < positions.len()
        invariant
            k <= positions.len(),
            forall|j: int| 0 <= j < positions.len() ==> positions[j] < page.len(),
            spec_first_plain(page_view(page@), spec_positions(positions@).skip(k as int))
                == spec_first_plain(page_view(page@), spec_positions(positions@)),
        decreases positions.len() - k,
    {
        let at = positions[k];
        let ghost rest = spec_positions(positions@).skip(k as int);
        assert(rest[0] == at);
        assert(page_view(page@)[at as int] == page[at as int]@);
        if page[at].is_plain() {
            return Some(at);
        }
        assert(rest.skip(1) =~= spec_positions(positions@).skip(k + 1));
        k = k + 1;
    }
    None
}

/// The position of the last node of `page` that holds the anchor phrase.
pub fn last_mention(page: &Vec<PageNode>) -> (found: Option<usize>)
    ensures
        spec_position(found) == spec_last_mention(page_view(page@)),
        found matches Some(at) ==> at < page.len(),
{
    let mut end: usize = page.len();
    assert(page_view(page@).take(end as int) =~= page_view(page@));
    while end > 0
        invariant
            end <= page.len(),
            spec_last_mention(page_view(page@).take(end as int)) == spec_last_mention(
                page_view(page@),
            ),
        decreases end,
    {
        let ghost upto = page_view(page@).take(end as int);
        assert(upto.last() == page[end - 1]@);
        if page[end - 1].mentions_example() {
            return Some(end - 1);
        }
        assert(upto.drop_last() =~= page_view(page@).take(end - 1));
        end = end - 1;
    }
    None
}

/// The position of the first `<pre>` element of `page` at or after `from`
/// and before `until`.
pub fn first_pre(page: &Vec<PageNode>, from: usize, until: usize) -> (found: Option<usize>)
    ensures
        spec_position(found) == spec_first_pre(page_view(page@), from as int, until as int),
        found matches Some(at) ==> at < page.len(),
{
    let mut at: usize = from;
    while at < until && at < page.len()
        invariant
            from <= at,
            spec_first_pre(page_view(page@), at as int, until as int) == spec_first_pre(
                page_view(page@),
                from as int,
                until as int,
            ),
        decreases until - at,
    {
        assert(page_view(page@)[at as int] == page[at as int]@);
        if page[at].is_named("pre") {
            return Some(at);
        }
        at = at + 1;
    }
    None
}

/// The position of the block that the anchor phrase points at.
pub fn anchored_block(page: &Vec<PageNode>) -> (found: Option<usize>)
    ensures
        spec_position(found) == spec_anchored_block(page_view(page@)),
        found matches Some(at) ==> at < page.len(),
{
    match last_mention(page) {
        None => None,
        Some(anchor) => {
            let until = if page.len() - anchor > ANCHOR_WINDOW {
                anchor + ANCHOR_WINDOW
            } else {
                page.len()
            };
            proof {
                lemma_first_pre_within(page_view(page@), anchor as int, anchor + ANCHOR_WINDOW);
                lemma_first_pre_within(page_view(page@), anchor as int, until as int);
            }
            match first_pre(page, anchor, until) {
                None => None,
                Some(block) => {
                    assert(page_view(page@)[block as int] == page[block as int]@);
                    if contains(page[block].inner_html().as_str(), "<code>") {
                        Some(block)
                    } else {
                        None
                    }
                },
            }
        },
    }
}

/// Looking for a `<pre>` element before `until` looks no further than the
/// page goes.
pub proof fn lemma_first_pre_within(page: Seq<NodeView>, from: int, until: int)
    ensures
        spec_first_pre(page, from, until) == spec_first_pre(
            page,
            from,
            if until <= page.len() {
                until
            } else {
                page.len() as int
            },
        ),
    decreases until - from,
{
    if from < until && from < page.len() && !page[from].is_pre() {
        lemma_first_pre_within(page, from + 1, until);
    }
}

/// The rule by which a block was chosen.
#[derive(Clone, Copy, Debug, PartialEq, Eq)]
pub enum Rule {
    /// The page has exactly one candidate of more than one line.
    OnlyCandidate,
    /// The block stands right behind the anchor phrase.
    Anchor,
    /// The first candidate of more than one line that holds plain text only.
    PlainMultiLine,
    /// The first `<code>` element of one line that holds plain text only.
    PlainSingleLine,
}

/// How the search on a page ended.
#[derive(Clone, Debug, PartialEq, Eq)]
pub enum Outcome {
    /// A block was chosen; `text` is its normalized text.
    Found { rule: Rule, text: String },
    /// No block was chosen, and the page has no candidate of more than one
    /// line to look at.
    NoCodeBlocks,
    /// No block was chosen, though the page has `candidates` candidates of
    /// more than one line.
    NoneMatched { candidates: usize },
}

/// What an `Outcome` stands for.
pub enum OutcomeView {
    Found { rule: Rule, text: Seq<char> },
    NoCodeBlocks,
    NoneMatched { candidates: nat },
}

impl View for Outcome {
    type V = OutcomeView;

    open spec fn view(&self) -> OutcomeView {
        match self {
            Outcome::Found { rule, text } => OutcomeView::Found { rule: *rule, text: text@ },
            Outcome::NoCodeBlocks => OutcomeView::NoCodeBlocks,
            Outcome::NoneMatched { candidates } => OutcomeView::NoneMatched {
                candidates: *candidates as nat,
            },
        }
    }
}

impl OutcomeView {
    /// The example text, if a block was chosen.
    pub open spec fn example(self) -> Option<Seq<char>> {
        match self {
            OutcomeView::Found { text, .. } => Some(text),
            _ => None,
        }
    }
}

impl Outcome {
    /// The example text, if a block was chosen.
    pub fn example(self) -> (text: Option<String>)
        ensures
            match text {
                Some(text) => self@.example() == Some(text@),
                None => self@.example() is None,
            },
    {
        match self {
            Outcome::Found { text, .. } => Some(text),
            _ => None,
        }
    }
}

/// The outcome of choosing the node `node` by the rule `rule`.
pub open spec fn spec_found(rule: Rule, node: NodeView) -> OutcomeView {
    OutcomeView::Found { rule, text: spec_fixup(node.inner_html()) }
}

/// The outcome of the search on `page`.
///
/// With exactly one candidate of more than one line, that candidate is
/// chosen, whatever it holds. On every other page that holds a `<code>`
/// element, the block that the anchor phrase points at is chosen if there is
/// one, however many candidates the page has; else the first candidate of
/// more than one line that holds plain text only; else the first `<code>`
/// element of one line that holds plain text only. Where nothing is chosen,
/// the outcome tells whether there were candidates of more than one line, and
/// how many. On a page without `<code>` elements nothing is chosen.
pub open spec fn spec_select(page: Seq<NodeView>) -> OutcomeView {
    let multi = spec_candidates(page, true);
    let single = spec_candidates(page, false);
    if multi.len() == 1 {
        spec_found(Rule::OnlyCandidate, page[multi[0]])
    } else if spec_holds_code(page) && spec_anchored_block(page) is Some {
        spec_found(Rule::Anchor, page[spec_anchored_block(page).unwrap()])
    } else if spec_first_plain(page, multi) is Some {
        spec_found(Rule::PlainMultiLine, page[spec_first_plain(page, multi).unwrap()])
    } else if spec_first_plain(page, single) is Some {
        spec_found(Rule::PlainSingleLine, page[spec_first_plain(page, single).unwrap()])
    } else if multi.len() == 0 {
        OutcomeView::NoCodeBlocks
    } else {
        OutcomeView::NoneMatched { candidates: multi.len() }
    }
}

/// The outcome of choosing the node at `at` in `page` by the rule `rule`.
fn found(page: &Vec<PageNode>, rule: Rule, at: usize) -> (outcome: Outcome)
    requires
        at < page.len(),
    ensures
        outcome@ == spec_found(rule, page_view(page@)[at as int]),
{
    Outcome::Found { rule, text: fixup(page[at].inner_html().as_str()) }
}

/// Searches `page` for the example block.
pub fn select(page: &Vec<PageNode>) -> (outcome: Outcome)
    ensures
        outcome@ == spec_select(page_view(page@)),
{
    let multi = candidates(page, true);
    if multi.len() == 1 {
        assert(spec_positions(multi@)[0] == multi[0]);
        return found(page, Rule::OnlyCandidate, multi[0]);
    }
    if holds_code(page) {
        if let Some(block) = anchored_block(page) {
            return found(page, Rule::Anchor, block);
        }
    }
    if let Some(at) = first_plain(page, &multi) {
        return found(page, Rule::PlainMultiLine, at);
    }
    let single = candidates(page, false);
    if let Some(at) = first_plain(page, &single) {
        return found(page, Rule::PlainSingleLine, at);
    }
    if multi.len() == 0 {
        Outcome::NoCodeBlocks
    } else {
        Outcome::NoneMatched { candidates: multi.len() }
    }
}

} // verus!
