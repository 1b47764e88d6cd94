//! Which rows of a tree are the browser's own.

use vstd::prelude::*;

use crate::laws::text::lemma_only_the_case_of_letters_is_ignored;
use crate::node::NodeView;
use crate::surface::{self, ancestor, in_web_content, is_trusted, parent_position};

verus! {

/// Whether a control type reads `Document`, each letter in either case.
pub open spec fn reads_document(kind: Seq<char>) -> bool {
    &&& kind.len() == 8
    &&& kind[0] == 'D' || kind[0] == 'd'
    &&& kind[1] == 'O' || kind[1] == 'o'
    &&& kind[2] == 'C' || kind[2] == 'c'
    &&& kind[3] == 'U' || kind[3] == 'u'
    &&& kind[4] == 'M' || kind[4] == 'm'
    &&& kind[5] == 'E' || kind[5] == 'e'
    &&& kind[6] == 'N' || kind[6] == 'n'
    &&& kind[7] == 'T' || kind[7] == 't'
}

/// Whether row `p` is the one that `child` names as its parent: the first that
/// carries the number.
pub open spec fn is_parent(rows: Seq<NodeView>, child: NodeView, p: int) -> bool {
    &&& 0 <= p < rows.len()
    &&& child.parent_element_index is Some
    &&& rows[p].element_index == child.parent_element_index
    &&& forall|q: int| 0 <= q < p ==> (#[trigger] rows[q]).element_index != child.parent_element_index
}

/// Whether link `i` of a chain leads from the row before it, or from `node`, to
/// its parent.
pub open spec fn is_link(rows: Seq<NodeView>, node: NodeView, chain: Seq<int>, i: int) -> bool {
    is_parent(
        rows,
        if i == 0 {
            node
        } else {
            rows[chain[i - 1]]
        },
        chain[i],
    )
}

/// Whether a chain of rows leads up from `node`, from each to its parent.
pub open spec fn leads_up(rows: Seq<NodeView>, node: NodeView, chain: Seq<int>) -> bool {
    forall|i: int| 0 <= i < chain.len() ==> #[trigger] is_link(rows, node, chain, i)
}

/// Whether a chain of parents leads up from `node` to a document.
pub open spec fn document_is_above(rows: Seq<NodeView>, node: NodeView) -> bool {
    exists|chain: Seq<int>| #[trigger]
        leads_up(rows, node, chain) && chain.len() > 0 && reads_document(
            rows[chain.last()].control_type,
        )
}

/// Whether a chain of as many parents as there are rows leads up from `node`.
pub open spec fn chain_is_as_long_as_the_tree(rows: Seq<NodeView>, node: NodeView) -> bool {
    exists|chain: Seq<int>| #[trigger] leads_up(rows, node, chain) && chain.len() == rows.len()
}

proof fn lemma_document_by_letters(row: NodeView)
    ensures
        surface::is_document(row) == reads_document(row.control_type),
{
    reveal_strlit("Document");
    let kind = row.control_type;
    let word = "Document"@;
    lemma_only_the_case_of_letters_is_ignored(kind, word);
    assert(word.len() == 8);
    assert(word[0] == 'D' && word[1] == 'o' && word[2] == 'c' && word[3] == 'u' && word[4] == 'm'
        && word[5] == 'e' && word[6] == 'n' && word[7] == 't');
    if reads_document(kind) {
        assert forall|i: int| 0 <= i < kind.len() implies (#[trigger] kind[i]) == word[i]
            || crate::laws::text::are_cases_of_one_letter(kind[i], word[i]) by {
            assert(i == 0 || i == 1 || i == 2 || i == 3 || i == 4 || i == 5 || i == 6 || i == 7);
        }
    }
    if surface::is_document(row) {
        assert(kind[0] == word[0] || crate::laws::text::are_cases_of_one_letter(kind[0], word[0]));
        assert(kind[1] == word[1] || crate::laws::text::are_cases_of_one_letter(kind[1], word[1]));
        assert(kind[2] == word[2] || crate::laws::text::are_cases_of_one_letter(kind[2], word[2]));
        assert(kind[3] == word[3] || crate::laws::text::are_cases_of_one_letter(kind[3], word[3]));
        assert(kind[4] == word[4] || crate::laws::text::are_cases_of_one_letter(kind[4], word[4]));
        assert(kind[5] == word[5] || crate::laws::text::are_cases_of_one_letter(kind[5], word[5]));
        assert(kind[6] == word[6] || crate::laws::text::are_cases_of_one_letter(kind[6], word[6]));
        assert(kind[7] == word[7] || crate::laws::text::are_cases_of_one_letter(kind[7], word[7]));
    }
}

proof fn lemma_parent_by_number(rows: Seq<NodeView>, child: NodeView, p: int)
    ensures
        parent_position(rows, child) == Some(p) <==> is_parent(rows, child, p),
{
    if child.parent_element_index is Some {
        let id = child.parent_element_index->0;
        surface::lemma_position(rows, id);
        if is_parent(rows, child, p) {
            surface::lemma_position_is(rows, id, p);
        }
    }
}

proof fn lemma_chain_is_of_ancestors(rows: Seq<NodeView>, node: NodeView, chain: Seq<int>, i: int)
    requires
        leads_up(rows, node, chain),
        0 <= i < chain.len(),
    ensures
        ancestor(rows, node, i as nat) == Some(chain[i]),
    decreases i,
{
    assert(is_link(rows, node, chain, i));
    if i == 0 {
        lemma_parent_by_number(rows, node, chain[0]);
    } else {
        lemma_chain_is_of_ancestors(rows, node, chain, i - 1);
        lemma_parent_by_number(rows, rows[chain[i - 1]], chain[i]);
    }
}

proof fn lemma_ancestors_are_a_chain(rows: Seq<NodeView>, node: NodeView, count: nat) -> (chain:
    Seq<int>)
    requires
        count > 0 ==> ancestor(rows, node, (count - 1) as nat) is Some,
    ensures
        chain.len() == count,
        leads_up(rows, node, chain),
        count > 0 ==> ancestor(rows, node, (count - 1) as nat) == Some(chain.last()),
{
    let chain = Seq::new(count, |i: int| ancestor(rows, node, i as nat)->0);
    assert forall|i: int| 0 <= i < chain.len() implies #[trigger] is_link(rows, node, chain, i) by {
        if ancestor(rows, node, i as nat) is None {
            surface::lemma_ancestors_end_none(rows, node, i as nat, (count - 1) as nat);
        }
        if i == 0 {
            lemma_parent_by_number(rows, node, chain[0]);
        } else {
            if ancestor(rows, node, (i - 1) as nat) is None {
                surface::lemma_ancestors_end_none(rows, node, (i - 1) as nat, i as nat);
            }
            lemma_parent_by_number(rows, rows[chain[i - 1]], chain[i]);
        }
    }
    chain
}

/// A node counts as a part of a page exactly where its parents lead up to a
/// document, or go on for as many steps as the tree has rows. Nothing else about
/// these rows matters.
pub proof fn lemma_web_content_is(rows: Seq<NodeView>, node: NodeView)
    ensures
        in_web_content(rows, node) <==> document_is_above(rows, node)
            || chain_is_as_long_as_the_tree(rows, node),
{
    let n = rows.len();
    if in_web_content(rows, node) {
        if exists|k: nat| k < n && surface::document_above(rows, node, k) {
            let k = choose|k: nat| k < n && surface::document_above(rows, node, k);
            let chain = lemma_ancestors_are_a_chain(rows, node, k + 1);
            lemma_document_by_letters(rows[chain.last()]);
            assert(leads_up(rows, node, chain));
        } else {
            if n > 0 {
                assert(ancestor(rows, node, (n - 1) as nat) is Some);
            }
            let chain = lemma_ancestors_are_a_chain(rows, node, n);
            assert(leads_up(rows, node, chain));
        }
    }
    if document_is_above(rows, node) {
        let chain = choose|chain: Seq<int>| #[trigger]
            leads_up(rows, node, chain) && chain.len() > 0 && reads_document(
                rows[chain.last()].control_type,
            );
        let k = (chain.len() - 1) as nat;
        lemma_chain_is_of_ancestors(rows, node, chain, k as int);
        lemma_document_by_letters(rows[chain.last()]);
        assert(surface::document_above(rows, node, k));
        if k >= n {
            assert forall|h: nat| h < n implies ancestor(rows, node, h) is Some by {
                lemma_chain_is_of_ancestors(rows, node, chain, h as int);
            }
        }
    }
    if chain_is_as_long_as_the_tree(rows, node) {
        let chain = choose|chain: Seq<int>| #[trigger]
            leads_up(rows, node, chain) && chain.len() == rows.len();
        assert forall|h: nat| h < n implies ancestor(rows, node, h) is Some by {
            lemma_chain_is_of_ancestors(rows, node, chain, h as int);
        }
    }
}

/// A node is the browser's own exactly where it is not marked as a page's, is no
/// document by its control type, has no document above it, and its parents come
/// to an end.
pub proof fn lemma_trusted_is(rows: Seq<NodeView>, node: NodeView)
    ensures
        is_trusted(rows, node) <==> {
            &&& !node.in_web_content
            &&& !reads_document(node.control_type)
            &&& !document_is_above(rows, node)
            &&& !chain_is_as_long_as_the_tree(rows, node)
        },
{
    lemma_document_by_letters(node);
    lemma_web_content_is(rows, node);
}

/// Whatever a page draws is never taken for the browser's own: a row whose parent
/// has the control type `Document`, in whatever case, is not trusted, and neither
/// is a row whose parent stands in the page. No other field can change that.
pub proof fn lemma_page_is_never_trusted(rows: Seq<NodeView>, child: NodeView, p: int)
    requires
        is_parent(rows, child, p),
        reads_document(rows[p].control_type) || document_is_above(rows, rows[p]),
    ensures
        in_web_content(rows, child),
        document_is_above(rows, child),
        !is_trusted(rows, child),
{
    if reads_document(rows[p].control_type) {
        let chain = seq![p];
        assert(is_link(rows, child, chain, 0));
        assert(leads_up(rows, child, chain));
    } else {
        let upper = choose|chain: Seq<int>| #[trigger]
            leads_up(rows, rows[p], chain) && chain.len() > 0 && reads_document(
                rows[chain.last()].control_type,
            );
        let chain = seq![p] + upper;
        assert forall|i: int| 0 <= i < chain.len() implies #[trigger] is_link(
            rows,
            child,
            chain,
            i,
        ) by {
            if i > 0 {
                assert(is_link(rows, rows[p], upper, i - 1));
            }
        }
        assert(chain.last() == upper.last());
        assert(leads_up(rows, child, chain));
    }
    lemma_trusted_is(rows, child);
    lemma_web_content_is(rows, child);
}

/// A row without a parent in the tree that is no document and not marked as a
/// page's is the browser's own.
pub proof fn lemma_own_rows_are_trusted(rows: Seq<NodeView>, child: NodeView)
    requires
        rows.len() > 0,
        !child.in_web_content,
        !reads_document(child.control_type),
        forall|p: int| !#[trigger] is_parent(rows, child, p),
    ensures
        is_trusted(rows, child),
{
    lemma_trusted_is(rows, child);
    if document_is_above(rows, child) {
        let chain = choose|chain: Seq<int>| #[trigger]
            leads_up(rows, child, chain) && chain.len() > 0 && reads_document(
                rows[chain.last()].control_type,
            );
        assert(is_link(rows, child, chain, 0));
    }
    if chain_is_as_long_as_the_tree(rows, child) {
        let chain = choose|chain: Seq<int>| #[trigger]
            leads_up(rows, child, chain) && chain.len() == rows.len();
        assert(is_link(rows, child, chain, 0));
    }
}

/// Whether two nodes agree in all that their trust is told by.
pub open spec fn same_provenance(a: NodeView, b: NodeView) -> bool {
    &&& a.element_index == b.element_index
    &&& a.parent_element_index == b.parent_element_index
    &&& a.control_type == b.control_type
    &&& a.in_web_content == b.in_web_content
}

/// Whether a row is trusted depends on nothing but the numbers, the parents, the
/// control types and the marks of the rows: not on names, places, depths, elements
/// or actions.
pub proof fn lemma_trust_ignores_the_rest(a: Seq<NodeView>, b: Seq<NodeView>, x: NodeView, y: NodeView)
    requires
        a.len() == b.len(),
        forall|i: int| #![trigger a[i]] #![trigger b[i]]
            0 <= i < a.len() ==> same_provenance(a[i], b[i]),
        same_provenance(x, y),
    ensures
        is_trusted(a, x) == is_trusted(b, y),
{
    lemma_trusted_is(a, x);
    lemma_trusted_is(b, y);
    assert forall|chain: Seq<int>| #[trigger] leads_up(a, x, chain) == #[trigger] leads_up(
        b,
        y,
        chain,
    ) by {
        if leads_up(a, x, chain) {
            lemma_chain_carries_over(a, b, x, y, chain);
        }
        if leads_up(b, y, chain) {
            lemma_chain_carries_over(b, a, y, x, chain);
        }
    }
    if document_is_above(a, x) {
        let chain = choose|chain: Seq<int>| #[trigger]
            leads_up(a, x, chain) && chain.len() > 0 && reads_document(
                a[chain.last()].control_type,
            );
        assert(is_link(a, x, chain, chain.len() - 1));
        assert(leads_up(b, y, chain));
    }
    if document_is_above(b, y) {
        let chain = choose|chain: Seq<int>| #[trigger]
            leads_up(b, y, chain) && chain.len() > 0 && reads_document(
                b[chain.last()].control_type,
            );
        assert(is_link(b, y, chain, chain.len() - 1));
        assert(leads_up(a, x, chain));
    }
    if chain_is_as_long_as_the_tree(a, x) {
        let chain = choose|chain: Seq<int>| #[trigger]
            leads_up(a, x, chain) && chain.len() == a.len();
        assert(leads_up(b, y, chain));
    }
    if chain_is_as_long_as_the_tree(b, y) {
        let chain = choose|chain: Seq<int>| #[trigger]
            leads_up(b, y, chain) && chain.len() == b.len();
        assert(leads_up(a, x, chain));
    }
}

proof fn lemma_chain_carries_over(
    a: Seq<NodeView>,
    b: Seq<NodeView>,
    x: NodeView,
    y: NodeView,
    chain: Seq<int>,
)
    requires
        a.len() == b.len(),
        forall|i: int| #![trigger a[i]] #![trigger b[i]]
            0 <= i < a.len() ==> same_provenance(a[i], b[i]),
        same_provenance(x, y),
        leads_up(a, x, chain),
    ensures
        leads_up(b, y, chain),
{
    assert forall|i: int| 0 <= i < chain.len() implies #[trigger] is_link(b, y, chain, i) by {
        assert(is_link(a, x, chain, i));
        if i > 0 {
            assert(is_link(a, x, chain, i - 1));
        }
    }
}

} // verus!
