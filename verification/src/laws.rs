//! What holds of the search on every page.

use crate::page::NodeView;
use crate::select::{
    spec_anchored_block, spec_candidates, spec_holds_code, spec_first_plain, spec_first_pre, spec_found,
    spec_is_candidate, spec_last_mention, spec_select, OutcomeView, Rule, ANCHOR_WINDOW,
};
use vstd::prelude::*;

verus! {

/// The candidates of a page are its `<code>` elements of the kind asked for:
/// each position listed holds one, the positions rise, and none is left out.
pub proof fn lemma_candidates(page: Seq<NodeView>, multi_line: bool)
    ensures
        forall|k: int|
            0 <= k < spec_candidates(page, multi_line).len() ==> {
                let at = #[trigger] spec_candidates(page, multi_line)[k];
                0 <= at < page.len() && spec_is_candidate(page[at], multi_line)
            },
        forall|k: int, l: int|
            0 <= k < l < spec_candidates(page, multi_line).len() ==> spec_candidates(
                page,
                multi_line,
            )[k] < spec_candidates(page, multi_line)[l],
        forall|at: int|
            0 <= at < page.len() && #[trigger] spec_is_candidate(page[at], multi_line)
                ==> spec_candidates(page, multi_line).contains(at),
    decreases page.len(),
{
    let all = spec_candidates(page, multi_line);
    if page.len() > 0 {
        let earlier = spec_candidates(page.drop_last(), multi_line);
        lemma_candidates(page.drop_last(), multi_line);
        assert forall|k: int| 0 <= k < all.len() implies {
            let at = #[trigger] all[k];
            0 <= at < page.len() && spec_is_candidate(page[at], multi_line)
        } by {
            if k < earlier.len() {
                let at = earlier[k];
                assert(page.drop_last()[at] == page[at]);
            }
        }
        assert forall|k: int, l: int| 0 <= k < l < all.len() implies all[k] < all[l] by {
            if l < earlier.len() {
                assert(earlier[k] < earlier[l]);
            } else {
                let at = earlier[k];
                assert(at < page.len() - 1);
            }
        }
        assert forall|at: int|
            0 <= at < page.len() && #[trigger] spec_is_candidate(
                page[at],
                multi_line,
            ) implies all.contains(at) by {
            if at < page.len() - 1 {
                assert(page.drop_last()[at] == page[at]);
                assert(earlier.contains(at));
                let k = choose|k: int| 0 <= k < earlier.len() && earlier[k] == at;
                assert(all[k] == at);
            } else {
                assert(all[all.len() - 1] == at);
            }
        }
    }
}

/// The first plain block among `positions` is the one before which no listed
/// block is plain; there is none where no listed block is plain.
pub proof fn lemma_first_plain(page: Seq<NodeView>, positions: Seq<int>)
    ensures
        match spec_first_plain(page, positions) {
            Some(at) => exists|k: int|
                {
                    &&& 0 <= k < positions.len()
                    &&& #[trigger] positions[k] == at
                    &&& page[at].is_plain()
                    &&& forall|j: int| 0 <= j < k ==> !page[#[trigger] positions[j]].is_plain()
                },
            None => forall|j: int|
                0 <= j < positions.len() ==> !page[#[trigger] positions[j]].is_plain(),
        },
    decreases positions.len(),
{
    if positions.len() > 0 && !page[positions[0]].is_plain() {
        let rest = positions.skip(1);
        lemma_first_plain(page, rest);
        match spec_first_plain(page, rest) {
            Some(at) => {
                let k = choose|k: int|
                    {
                        &&& 0 <= k < rest.len()
                        &&& #[trigger] rest[k] == at
                        &&& page[at].is_plain()
                        &&& forall|j: int| 0 <= j < k ==> !page[#[trigger] rest[j]].is_plain()
                    };
                assert(positions[k + 1] == at);
                assert forall|j: int| 0 <= j < k + 1 implies !page[#[trigger] positions[j]].is_plain() by {
                    if j > 0 {
                        assert(rest[j - 1] == positions[j]);
                    }
                }
            },
            None => {
                assert forall|j: int| 0 <= j < positions.len() implies !page[#[trigger] positions[j]].is_plain() by {
                    if j > 0 {
                        assert(rest[j - 1] == positions[j]);
                    }
                }
            },
        }
    } else if positions.len() > 0 {
        assert(positions[0] == positions[0]);
    }
}

/// The last mention is the node that holds the anchor phrase and has no such
/// node behind it; there is none where no node holds the phrase.
pub proof fn lemma_last_mention(page: Seq<NodeView>)
    ensures
        match spec_last_mention(page) {
            Some(at) => {
                &&& 0 <= at < page.len()
                &&& page[at].mentions_example()
                &&& forall|j: int| at < j < page.len() ==> !(#[trigger] page[j]).mentions_example()
            },
            None => forall|j: int| 0 <= j < page.len() ==> !(#[trigger] page[j]).mentions_example(),
        },
    decreases page.len(),
{
    if page.len() > 0 && !page.last().mentions_example() {
        lemma_last_mention(page.drop_last());
        assert forall|j: int| 0 <= j < page.len() - 1 implies page.drop_last()[j] == page[j] by {}
        match spec_last_mention(page) {
            Some(at) => {
                assert(page.drop_last()[at] == page[at]);
                assert forall|j: int| at < j < page.len() implies !(#[trigger] page[j]).mentions_example() by {
                    if j < page.len() - 1 {
                        assert(page.drop_last()[j] == page[j]);
                    }
                }
            },
            None => {
                assert forall|j: int| 0 <= j < page.len() implies !(#[trigger] page[j]).mentions_example() by {
                    if j < page.len() - 1 {
                        assert(page.drop_last()[j] == page[j]);
                    }
                }
            },
        }
    }
}

/// The first `<pre>` element from `from` and before `until` is the one on
/// the page and in that stretch before which the stretch holds none; there is
/// none where the stretch holds none.
pub proof fn lemma_first_pre(page: Seq<NodeView>, from: int, until: int)
    requires
        0 <= from,
    ensures
        match spec_first_pre(page, from, until) {
            Some(at) => {
                &&& from <= at < until
                &&& at < page.len()
                &&& page[at].is_pre()
                &&& forall|j: int| from <= j < at ==> !(#[trigger] page[j]).is_pre()
            },
            None => forall|j: int|
                from <= j < until && j < page.len() ==> !(#[trigger] page[j]).is_pre(),
        },
    decreases until - from,
{
    if from < until && from < page.len() && !page[from].is_pre() {
        lemma_first_pre(page, from + 1, until);
    }
}

/// The search depends on the nodes of the page and on nothing else: two
/// searches on the same nodes end in the same outcome.
pub proof fn lemma_same_page_same_outcome(
    page: Seq<NodeView>,
    again: Seq<NodeView>,
    first: OutcomeView,
    second: OutcomeView,
)
    requires
        page =~= again,
        first == spec_select(page),
        second == spec_select(again),
    ensures
        first == second,
{
}

/// Where a page has exactly one `<code>` element of more than one line, that
/// element is chosen, whatever stands below it and whatever else the page
/// holds.
pub proof fn lemma_only_candidate(page: Seq<NodeView>, at: int)
    requires
        0 <= at < page.len(),
        spec_is_candidate(page[at], true),
        forall|j: int| 0 <= j < page.len() && j != at ==> !spec_is_candidate(page[j], true),
    ensures
        spec_select(page) == spec_found(Rule::OnlyCandidate, page[at]),
{
    let multi = spec_candidates(page, true);
    lemma_candidates(page, true);
    assert(multi.contains(at));
    if multi.len() >= 2 {
        assert(multi[0] == at);
        assert(multi[1] == at);
    }
    assert(multi[0] == at);
}

/// Where a `<pre>` element that holds a `<code>` tag is the first `<pre>`
/// element among the `ANCHOR_WINDOW` nodes that begin with the last node
/// holding the anchor phrase, that `<pre>` element is chosen, whatever the
/// `<code>` elements of the page hold and however many there are, as long
/// as there is one. The one such page left out is that with exactly one
/// candidate of more than one line, where that candidate is chosen.
pub proof fn lemma_anchor_goes_first(page: Seq<NodeView>, anchor: int, block: int)
    requires
        spec_holds_code(page),
        spec_candidates(page, true).len() != 1,
        0 <= anchor < page.len(),
        page[anchor].mentions_example(),
        forall|j: int| anchor < j < page.len() ==> !page[j].mentions_example(),
        anchor <= block < anchor + ANCHOR_WINDOW,
        block < page.len(),
        page[block].is_pre(),
        forall|j: int| anchor <= j < block ==> !page[j].is_pre(),
        page[block].holds_code_tag(),
    ensures
        spec_select(page) == spec_found(Rule::Anchor, page[block]),
{
    lemma_last_mention(page);
    assert(spec_last_mention(page) == Some(anchor));
    lemma_first_pre(page, anchor, anchor + ANCHOR_WINDOW);
    assert(spec_first_pre(page, anchor, anchor + ANCHOR_WINDOW) == Some(block));
}

/// Where a page has two or more candidates of more than one line and the
/// anchor phrase points at no block, the first candidate that holds plain
/// text only is chosen; the candidates before it, which hold more, are
/// passed over.
pub proof fn lemma_first_plain_candidate(page: Seq<NodeView>, at: int)
    requires
        spec_candidates(page, true).len() >= 2,
        spec_anchored_block(page) is None,
        0 <= at < page.len(),
        spec_is_candidate(page[at], true),
        page[at].is_plain(),
        forall|j: int| 0 <= j < at && spec_is_candidate(page[j], true) ==> !page[j].is_plain(),
    ensures
        spec_select(page) == spec_found(Rule::PlainMultiLine, page[at]),
{
    lemma_first_among(page, true, at);
}

/// Where a page does not have exactly one candidate of more than one line,
/// the anchor phrase points at no block and no candidate of more than one
/// line holds plain text only, the first `<code>` element of one line that
/// holds plain text only is chosen.
pub proof fn lemma_single_line_fallback(page: Seq<NodeView>, at: int)
    requires
        spec_candidates(page, true).len() != 1,
        spec_anchored_block(page) is None,
        forall|j: int|
            0 <= j < page.len() && spec_is_candidate(page[j], true) ==> !page[j].is_plain(),
        0 <= at < page.len(),
        spec_is_candidate(page[at], false),
        page[at].is_plain(),
        forall|j: int| 0 <= j < at && spec_is_candidate(page[j], false) ==> !page[j].is_plain(),
    ensures
        spec_select(page) == spec_found(Rule::PlainSingleLine, page[at]),
{
    lemma_none_among(page, true);
    lemma_first_among(page, false, at);
}

/// A page without `<code>` elements ends the search with nothing chosen and
/// no candidate to report, whatever else it holds.
pub proof fn lemma_no_code_elements(page: Seq<NodeView>)
    requires
        forall|j: int| 0 <= j < page.len() ==> !page[j].is_code(),
    ensures
        spec_select(page) == OutcomeView::NoCodeBlocks,
{
    lemma_candidates(page, true);
    lemma_candidates(page, false);
    let multi = spec_candidates(page, true);
    let single = spec_candidates(page, false);
    if multi.len() > 0 {
        assert(spec_is_candidate(page[multi[0]], true));
    }
    if single.len() > 0 {
        assert(spec_is_candidate(page[single[0]], false));
    }
}

/// Where a page has two or more candidates of more than one line, none of
/// its `<code>` elements holds plain text only and the anchor phrase points
/// at no block, the search ends with nothing chosen and reports the number of
/// those candidates.
pub proof fn lemma_none_matched(page: Seq<NodeView>)
    requires
        spec_candidates(page, true).len() >= 2,
        spec_anchored_block(page) is None,
        forall|j: int| 0 <= j < page.len() && page[j].is_code() ==> !page[j].is_plain(),
    ensures
        spec_select(page) == (OutcomeView::NoneMatched {
            candidates: spec_candidates(page, true).len(),
        }),
{
    lemma_none_among(page, true);
    lemma_none_among(page, false);
}

/// Among the candidates of one kind, the first plain one is found.
proof fn lemma_first_among(page: Seq<NodeView>, multi_line: bool, at: int)
    requires
        0 <= at < page.len(),
        spec_is_candidate(page[at], multi_line),
        page[at].is_plain(),
        forall|j: int|
            0 <= j < at && spec_is_candidate(page[j], multi_line) ==> !page[j].is_plain(),
    ensures
        spec_first_plain(page, spec_candidates(page, multi_line)) == Some(at),
{
    let positions = spec_candidates(page, multi_line);
    lemma_candidates(page, multi_line);
    lemma_first_plain(page, positions);
    assert(positions.contains(at));
    let here = choose|k: int| 0 <= k < positions.len() && positions[k] == at;
    match spec_first_plain(page, positions) {
        Some(found) => {
            let k = choose|k: int|
                {
                    &&& 0 <= k < positions.len()
                    &&& #[trigger] positions[k] == found
                    &&& page[found].is_plain()
                    &&& forall|j: int| 0 <= j < k ==> !page[#[trigger] positions[j]].is_plain()
                };
            if k < here {
                assert(positions[k] < positions[here]);
                assert(spec_is_candidate(page[positions[k]], multi_line));
            } else if here < k {
                assert(!page[positions[here]].is_plain());
            }
        },
        None => {
            assert(!page[positions[here]].is_plain());
        },
    }
}

/// Among the candidates of one kind, none is found where none is plain.
proof fn lemma_none_among(page: Seq<NodeView>, multi_line: bool)
    requires
        forall|j: int|
            0 <= j < page.len() && spec_is_candidate(page[j], multi_line) ==> !page[j].is_plain(),
    ensures
        spec_first_plain(page, spec_candidates(page, multi_line)) is None,
{
    let positions = spec_candidates(page, multi_line);
    lemma_candidates(page, multi_line);
    lemma_first_plain(page, positions);
    if let Some(found) = spec_first_plain(page, positions) {
        let k = choose|k: int|
            {
                &&& 0 <= k < positions.len()
                &&& #[trigger] positions[k] == found
                &&& page[found].is_plain()
                &&& forall|j: int| 0 <= j < k ==> !page[#[trigger] positions[j]].is_plain()
            };
        assert(spec_is_candidate(page[positions[k]], multi_line));
    }
}

} // verus!
