//! Where in an accessibility tree a consent prompt of the browser itself
//! stands, as opposed to anything that a web page may draw.

use vstd::prelude::*;

use crate::node::{self, node_name, NodeView, UiaNode};
use crate::text::{self, eq_ignore_ascii_case, same_text};

verus! {

/// The root of a page's content has the control type `Document`.
pub open spec fn is_document(node: NodeView) -> bool {
    text::same_ignoring_ascii_case(node.control_type, "Document"@)
}

/// The first row that carries the number `id`.
pub open spec fn position(nodes: Seq<NodeView>, id: usize) -> Option<int>
    decreases nodes.len(),
{
    if nodes.len() == 0 {
        None
    } else if position(nodes.drop_last(), id) is Some {
        position(nodes.drop_last(), id)
    } else if nodes.last().element_index == Some(id) {
        Some(nodes.len() - 1)
    } else {
        None
    }
}

/// Where the row stands that `node` names as its parent.
pub open spec fn parent_position(nodes: Seq<NodeView>, node: NodeView) -> Option<int> {
    match node.parent_element_index {
        Some(id) => position(nodes, id),
        None => None,
    }
}

/// Where the row stands that is reached from `node` by `k + 1` parent links.
pub open spec fn ancestor(nodes: Seq<NodeView>, node: NodeView, k: nat) -> Option<int>
    decreases k,
{
    if k == 0 {
        parent_position(nodes, node)
    } else {
        match ancestor(nodes, node, (k - 1) as nat) {
            Some(p) => parent_position(nodes, nodes[p]),
            None => None,
        }
    }
}

/// Whether `k + 1` parent links lead from `node` to a document.
pub open spec fn document_above(nodes: Seq<NodeView>, node: NodeView, k: nat) -> bool {
    ancestor(nodes, node, k) matches Some(p) && is_document(nodes[p])
}

/// Whether the parent links from `node` lead to a document, or go on for as
/// many steps as there are rows, as they do where they run in a circle.
pub open spec fn in_web_content(nodes: Seq<NodeView>, node: NodeView) -> bool {
    ||| exists|k: nat| k < nodes.len() && document_above(nodes, node, k)
    ||| forall|k: nat| k < nodes.len() ==> ancestor(nodes, node, k) is Some
}

/// Whether a row is the browser's own, and no part of a page.
pub open spec fn is_trusted(nodes: Seq<NodeView>, node: NodeView) -> bool {
    &&& !node.in_web_content
    &&& !is_document(node)
    &&& !in_web_content(nodes, node)
}

pub proof fn lemma_position(nodes: Seq<NodeView>, id: usize)
    ensures
        position(nodes, id) matches Some(p) ==> {
            &&& 0 <= p < nodes.len()
            &&& nodes[p].element_index == Some(id)
            &&& forall|i: int| 0 <= i < p ==> (#[trigger] nodes[i]).element_index != Some(id)
        },
        position(nodes, id) is None ==> forall|i: int|
            0 <= i < nodes.len() ==> (#[trigger] nodes[i]).element_index != Some(id),
    decreases nodes.len(),
{
    if nodes.len() > 0 {
        let front = nodes.drop_last();
        lemma_position(front, id);
        assert forall|i: int| 0 <= i < front.len() implies front[i] == #[trigger] nodes[i] by {}
    }
}

pub(crate) proof fn lemma_position_is(nodes: Seq<NodeView>, id: usize, p: int)
    requires
        0 <= p < nodes.len(),
        nodes[p].element_index == Some(id),
        forall|i: int| 0 <= i < p ==> (#[trigger] nodes[i]).element_index != Some(id),
    ensures
        position(nodes, id) == Some(p),
{
    lemma_position(nodes, id);
    if position(nodes, id) is None {
        assert(nodes[p].element_index != Some(id));
    } else {
        let q = position(nodes, id)->0;
        if q < p {
            assert(nodes[q].element_index != Some(id));
        }
    }
}

/// The row that carries the number `id`, the first where several do.
fn find_element(nodes: &[UiaNode], id: usize) -> (found: Option<usize>)
    ensures
        found matches Some(p) ==> position(node::rows(nodes@), id) == Some(p as int) && p < nodes@.len(),
        found is None ==> position(node::rows(nodes@), id) is None,
{
    let ghost all = node::rows(nodes@);
    let mut i: usize = 0;
    while i < nodes.len()
        invariant
            all == node::rows(nodes@),
            i <= nodes@.len(),
            forall|j: int| 0 <= j < i ==> (#[trigger] all[j]).element_index != Some(id),
        decreases nodes@.len() - i,
    {
        if let Some(index) = nodes[i].element_index {
            if index == id {
                assert(all[i as int] == nodes@[i as int]@);
                proof {
                    lemma_position_is(all, id, i as int);
                }
                return Some(i);
            }
        }
        assert(all[i as int] == nodes@[i as int]@);
        i = i + 1;
    }
    proof {
        lemma_position(all, id);
    }
    None
}

/// Whether a node stands inside a web page by its parent links. Links that run
/// in a circle count as inside.
pub fn is_in_web_content(nodes: &[UiaNode], node: &UiaNode) -> (inside: bool)
    ensures
        inside == in_web_content(node::rows(nodes@), node@),
{
    let ghost all = node::rows(nodes@);
    let mut parent = node.parent_element_index;
    let mut step: usize = 0;
    while step < nodes.len()
        invariant
            all == node::rows(nodes@),
            step <= nodes@.len(),
            step == 0 ==> parent == node@.parent_element_index,
            step > 0 ==> (ancestor(all, node@, (step - 1) as nat) matches Some(p)
                && parent == all[p].parent_element_index),
            forall|k: nat|
                k < step ==> #[trigger] ancestor(all, node@, k) is Some && !document_above(
                    all,
                    node@,
                    k,
                ),
        decreases nodes@.len() - step,
    {
        let found = match parent {
            Some(id) => find_element(nodes, id),
            None => None,
        };
        match found {
            Some(p) => {
                assert(ancestor(all, node@, step as nat) == Some(p as int));
                assert(all[p as int] == nodes@[p as int]@);
                if eq_ignore_ascii_case(nodes[p].control_type.as_str(), "Document") {
                    assert(document_above(all, node@, step as nat));
                    return true;
                }
                parent = nodes[p].parent_element_index;
            },
            None => {
                assert(ancestor(all, node@, step as nat) is None);
                assert forall|k: nat| k < all.len() implies !document_above(all, node@, k) by {
                    lemma_ancestors_end(all, node@, step as nat, k);
                }
                return false;
            },
        }
        step = step + 1;
    }
    assert forall|k: nat| k < all.len() implies ancestor(all, node@, k) is Some by {}
    true
}

/// Past the end of the parent links there is no further ancestor.
proof fn lemma_ancestors_end(nodes: Seq<NodeView>, node: NodeView, end: nat, k: nat)
    requires
        ancestor(nodes, node, end) is None,
        forall|j: nat| j < end ==> !#[trigger] document_above(nodes, node, j),
    ensures
        !document_above(nodes, node, k),
    decreases k,
{
    if k > end {
        lemma_ancestors_end_none(nodes, node, end, k);
    }
}

pub(crate) proof fn lemma_ancestors_end_none(nodes: Seq<NodeView>, node: NodeView, end: nat, k: nat)
    requires
        ancestor(nodes, node, end) is None,
        end <= k,
    ensures
        ancestor(nodes, node, k) is None,
    decreases k,
{
    if k > end {
        lemma_ancestors_end_none(nodes, node, end, (k - 1) as nat);
    }
}

/// Whether a row may belong to a prompt of the browser itself.
pub fn is_trusted_prompt_node(nodes: &[UiaNode], node: &UiaNode) -> (trusted: bool)
    ensures
        trusted == is_trusted(node::rows(nodes@), node@),
{
    !node.in_web_content && !eq_ignore_ascii_case(node.control_type.as_str(), "Document")
        && !is_in_web_content(nodes, node)
}

/// Where `k` parent links lead from row `x`.
spec fn path(nodes: Seq<NodeView>, x: int, k: nat) -> Option<int> {
    if k == 0 {
        Some(x)
    } else {
        ancestor(nodes, nodes[x], (k - 1) as nat)
    }
}

proof fn lemma_path_repeats(nodes: Seq<NodeView>, x: int, i: nat, j: nat, t: nat)
    requires
        path(nodes, x, i) == path(nodes, x, j),
    ensures
        path(nodes, x, i + t) == path(nodes, x, j + t),
    decreases t,
{
    if t > 0 {
        lemma_path_repeats(nodes, x, i, j, (t - 1) as nat);
        assert(((i + t) - 1) as nat == (i + (t - 1)) as nat);
        assert(((j + t) - 1) as nat == (j + (t - 1)) as nat);
    }
}

proof fn lemma_path_goes_on(nodes: Seq<NodeView>, x: int, i: nat, j: nat, k: nat)
    requires
        i < j,
        path(nodes, x, i) == path(nodes, x, j),
        forall|h: nat| h <= j ==> #[trigger] path(nodes, x, h) is Some,
    ensures
        path(nodes, x, k) is Some,
    decreases k,
{
    if k > j {
        let t = (k - j) as nat;
        lemma_path_repeats(nodes, x, i, j, t);
        lemma_path_goes_on(nodes, x, i, j, i + t);
    }
}

/// Parent links that lead as many steps up as there are rows, from one of them,
/// never end.
proof fn lemma_long_path_goes_on(nodes: Seq<NodeView>, x: int, k: nat)
    requires
        0 <= x < nodes.len(),
        forall|h: nat| h < nodes.len() ==> ancestor(nodes, nodes[x], h) is Some,
    ensures
        ancestor(nodes, nodes[x], k) is Some,
{
    let n = nodes.len();
    let steps = Seq::new(n + 1, |h: int| path(nodes, x, h as nat)->0);
    assert forall|h: nat| h <= n implies #[trigger] path(nodes, x, h) is Some && 0 <= path(
        nodes,
        x,
        h,
    )->0 < n by {
        if h > 0 {
            assert(ancestor(nodes, nodes[x], (h - 1) as nat) is Some);
            lemma_ancestor_in_range(nodes, nodes[x], (h - 1) as nat);
        }
    }
    if steps.no_duplicates() {
        steps.unique_seq_to_set();
        vstd::set_lib::lemma_int_range(0, n as int);
        let all = vstd::set_lib::set_int_range(0, n as int);
        assert forall|p: int| steps.to_set().contains(p) implies all.contains(p) by {
            let h = choose|h: int| 0 <= h < steps.len() && steps[h] == p;
            assert(path(nodes, x, h as nat) is Some);
        }
        vstd::set_lib::lemma_len_subset(steps.to_set(), all);
    } else {
        let (i, j) = choose|i: int, j: int|
            0 <= i < steps.len() && 0 <= j < steps.len() && i != j && steps[i] == steps[j];
        let (low, high) = if i < j {
            (i as nat, j as nat)
        } else {
            (j as nat, i as nat)
        };
        assert(path(nodes, x, low) is Some && path(nodes, x, high) is Some);
        lemma_path_goes_on(nodes, x, low, high, k + 1);
    }
}

proof fn lemma_ancestor_in_range(nodes: Seq<NodeView>, node: NodeView, k: nat)
    ensures
        ancestor(nodes, node, k) matches Some(p) ==> 0 <= p < nodes.len(),
    decreases k,
{
    let below = if k == 0 {
        node
    } else {
        nodes[ancestor(nodes, node, (k - 1) as nat)->0]
    };
    if below.parent_element_index is Some {
        lemma_position(nodes, below.parent_element_index->0);
    }
}

/// A row of a tree counts as web content exactly where its parent links lead to
/// a document, however far up, or never end.
pub proof fn lemma_web_content_by_links(nodes: Seq<NodeView>, x: int)
    requires
        0 <= x < nodes.len(),
    ensures
        in_web_content(nodes, nodes[x]) <==> {
            ||| exists|k: nat| document_above(nodes, nodes[x], k)
            ||| forall|k: nat| #[trigger] ancestor(nodes, nodes[x], k) is Some
        },
{
    let node = nodes[x];
    let n = nodes.len();
    if forall|k: nat| k < n ==> ancestor(nodes, node, k) is Some {
        assert forall|k: nat| #[trigger] ancestor(nodes, node, k) is Some by {
            lemma_long_path_goes_on(nodes, x, k);
        }
    }
    if exists|k: nat| document_above(nodes, node, k) {
        let k = choose|k: nat| document_above(nodes, node, k);
        if k >= n {
            assert forall|h: nat| h < n implies ancestor(nodes, node, h) is Some by {
                if ancestor(nodes, node, h) is None {
                    lemma_ancestors_end_none(nodes, node, h, k);
                }
            }
        }
    }
}

/// A row that a page has as a document above it is never the browser's own.
pub proof fn lemma_page_content_is_not_trusted(nodes: Seq<NodeView>, x: int, k: nat)
    requires
        0 <= x < nodes.len(),
        document_above(nodes, nodes[x], k),
    ensures
        !is_trusted(nodes, nodes[x]),
{
    lemma_web_content_by_links(nodes, x);
}

/// A tree of nothing but web content shows no prompt.
pub proof fn lemma_no_prompt_in_web_content(nodes: Seq<NodeView>)
    requires
        forall|i: int| 0 <= i < nodes.len() ==> !is_trusted(nodes, #[trigger] nodes[i]),
    ensures
        prompts(nodes).len() == 0,
{
    if prompts(nodes).len() > 0 {
        lemma_prompt_bounds(nodes, 0);
        assert(is_trusted(nodes, nodes[prompts(nodes)[0].0]));
    }
}

/// Whether row `i` stands below row `root`: it comes later, and every row from
/// there to it is deeper than `root`.
pub open spec fn in_subtree(nodes: Seq<NodeView>, root: int, i: int) -> bool {
    &&& 0 <= root < i < nodes.len()
    &&& forall|j: int| root < j <= i ==> (#[trigger] nodes[j]).depth > nodes[root].depth
}

/// The first row from `i` on that is no deeper than `depth`, or the end.
pub open spec fn first_not_deeper(nodes: Seq<NodeView>, depth: usize, i: int) -> int
    decreases nodes.len() - i,
{
    if i >= nodes.len() || nodes[i].depth <= depth {
        i
    } else {
        first_not_deeper(nodes, depth, i + 1)
    }
}

/// Where the rows below row `root` end.
pub open spec fn end_of_subtree(nodes: Seq<NodeView>, root: int) -> int {
    first_not_deeper(nodes, nodes[root].depth, root + 1)
}

proof fn lemma_first_not_deeper(nodes: Seq<NodeView>, depth: usize, i: int, end: int)
    requires
        0 <= i <= end <= nodes.len(),
        forall|j: int| i <= j < end ==> (#[trigger] nodes[j]).depth > depth,
        end < nodes.len() ==> nodes[end].depth <= depth,
    ensures
        first_not_deeper(nodes, depth, i) == end,
    decreases end - i,
{
    if i < end {
        assert(nodes[i].depth > depth);
        lemma_first_not_deeper(nodes, depth, i + 1, end);
    }
}

pub(crate) proof fn lemma_first_not_deeper_bounds(nodes: Seq<NodeView>, depth: usize, i: int)
    requires
        0 <= i <= nodes.len(),
    ensures
        i <= first_not_deeper(nodes, depth, i) <= nodes.len(),
        forall|j: int|
            i <= j < first_not_deeper(nodes, depth, i) ==> (#[trigger] nodes[j]).depth > depth,
        first_not_deeper(nodes, depth, i) < nodes.len() ==> nodes[first_not_deeper(
            nodes,
            depth,
            i,
        )].depth <= depth,
    decreases nodes.len() - i,
{
    if i < nodes.len() && nodes[i].depth > depth {
        lemma_first_not_deeper_bounds(nodes, depth, i + 1);
    }
}

/// The rows below `root` are those between it and the end of its subtree.
pub proof fn lemma_end_of_subtree(nodes: Seq<NodeView>, root: int)
    requires
        0 <= root < nodes.len(),
    ensures
        root < end_of_subtree(nodes, root) <= nodes.len(),
        forall|i: int| #[trigger]
            in_subtree(nodes, root, i) <==> root < i < end_of_subtree(nodes, root),
{
    lemma_first_not_deeper_bounds(nodes, nodes[root].depth, root + 1);
    let end = end_of_subtree(nodes, root);
    assert forall|i: int| #[trigger] in_subtree(nodes, root, i) implies i < end by {
        if end <= i {
            assert(nodes[end].depth > nodes[root].depth);
        }
    }
}

/// Where the rows below row `root_index` end.
pub fn subtree_end(nodes: &[UiaNode], root_index: usize) -> (end: usize)
    requires
        root_index < nodes@.len(),
    ensures
        root_index < end <= nodes@.len(),
        end == end_of_subtree(node::rows(nodes@), root_index as int),
        forall|i: int| #[trigger]
            in_subtree(node::rows(nodes@), root_index as int, i) <==> root_index < i < end,
{
    let ghost all = node::rows(nodes@);
    proof {
        lemma_end_of_subtree(all, root_index as int);
    }
    let root_depth = nodes[root_index].depth;
    let mut i: usize = root_index + 1;
    while i < nodes.len() && nodes[i].depth > root_depth
        invariant
            all == node::rows(nodes@),
            root_index < i <= nodes@.len(),
            root_depth == all[root_index as int].depth,
            forall|j: int| root_index < j < i ==> (#[trigger] all[j]).depth > root_depth,
        decreases nodes@.len() - i,
    {
        assert(all[i as int] == nodes@[i as int]@);
        i = i + 1;
    }
    proof {
        if i < nodes@.len() {
            assert(all[i as int] == nodes@[i as int]@);
        }
        lemma_first_not_deeper(all, root_depth, root_index + 1, i as int);
    }
    i
}

/// Whether row `i` is the browser's own and has the control type `kind`.
pub open spec fn is_native(nodes: Seq<NodeView>, i: int, kind: Seq<char>) -> bool {
    is_trusted(nodes, nodes[i]) && nodes[i].control_type == kind
}

/// Whether row `i` is the browser's own, has the control type `kind` and bears
/// the title `name`.
pub open spec fn is_titled(nodes: Seq<NodeView>, i: int, kind: Seq<char>, name: Seq<char>) -> bool {
    is_native(nodes, i, kind) && nodes[i].title() == Some(name)
}

fn is_native_node(nodes: &[UiaNode], i: usize, kind: &str) -> (native: bool)
    requires
        i < nodes@.len(),
    ensures
        native == is_native(node::rows(nodes@), i as int, kind@),
{
    assert(node::rows(nodes@)[i as int] == nodes@[i as int]@);
    is_trusted_prompt_node(nodes, &nodes[i]) && same_text(nodes[i].control_type.as_str(), kind)
}

fn is_titled_node(nodes: &[UiaNode], i: usize, kind: &str, name: &str) -> (titled: bool)
    requires
        i < nodes@.len(),
    ensures
        titled == is_titled(node::rows(nodes@), i as int, kind@, name@),
{
    assert(node::rows(nodes@)[i as int] == nodes@[i as int]@);
    if !is_native_node(nodes, i, kind) {
        return false;
    }
    match node_name(&nodes[i]) {
        Some(text) => same_text(text, name),
        None => false,
    }
}

/// Whether row `window` stands below a pane of the browser that bears the title
/// `name`.
pub open spec fn below_titled_pane(nodes: Seq<NodeView>, window: int, name: Seq<char>) -> bool {
    exists|a: int| #[trigger] in_subtree(nodes, a, window) && is_titled(nodes, a, "Pane"@, name)
}

/// Whether the row at `window_index` stands below a pane of the browser that
/// bears the title `name`.
pub fn has_matching_pane_ancestor(nodes: &[UiaNode], window_index: usize, name: &str) -> (found:
    bool)
    requires
        window_index < nodes@.len(),
    ensures
        found == below_titled_pane(node::rows(nodes@), window_index as int, name@),
{
    let ghost all = node::rows(nodes@);
    let mut descendant_depth = nodes[window_index].depth;
    let mut i: usize = window_index;
    assert(all[i as int] == nodes@[i as int]@);
    while i > 0
        invariant
            all == node::rows(nodes@),
            i <= window_index < nodes@.len(),
            forall|j: int| i <= j <= window_index ==> (#[trigger] all[j]).depth >= descendant_depth,
            exists|j: int| i <= j <= window_index && (#[trigger] all[j]).depth == descendant_depth,
            forall|a: int|
                i <= a && #[trigger] in_subtree(all, a, window_index as int) ==> !is_titled(
                    all,
                    a,
                    "Pane"@,
                    name@,
                ),
        decreases i,
    {
        i = i - 1;
        assert(all[i as int] == nodes@[i as int]@);
        if nodes[i].depth >= descendant_depth {
            let ghost low = choose|j: int|
                i < j <= window_index && (#[trigger] all[j]).depth == descendant_depth;
            assert(all[low].depth <= all[i as int].depth);
            assert(!in_subtree(all, i as int, window_index as int));
        } else {
            descendant_depth = nodes[i].depth;
            assert(in_subtree(all, i as int, window_index as int));
            if is_titled_node(nodes, i, "Pane", name) {
                return true;
            }
        }
    }
    false
}

/// Whether a pane shows its own title `name` twice, once right below it and
/// once deeper, and holds no window.
pub open spec fn binds_own_title(nodes: Seq<NodeView>, pane: int, name: Seq<char>) -> bool {
    &&& exists|i: int| #[trigger]
        in_subtree(nodes, pane, i) && is_titled(nodes, i, "Text"@, name) && nodes[i].depth
            == nodes[pane].depth + 1
    &&& exists|i: int| #[trigger]
        in_subtree(nodes, pane, i) && is_titled(nodes, i, "Text"@, name) && nodes[i].depth
            > nodes[pane].depth + 1
    &&& forall|i: int| #[trigger]
        in_subtree(nodes, pane, i) ==> !is_native(nodes, i, "Window"@)
}

/// Whether the pane at `pane_index` shows its own title `name` twice, once
/// right below it and once deeper, and holds no window.
pub fn has_pane_rooted_title_binding(nodes: &[UiaNode], pane_index: usize, name: &str) -> (bound:
    bool)
    requires
        pane_index < nodes@.len(),
    ensures
        bound == binds_own_title(node::rows(nodes@), pane_index as int, name@),
{
    let ghost all = node::rows(nodes@);
    let pane_depth = nodes[pane_index].depth;
    let end = subtree_end(nodes, pane_index);
    let mut direct = false;
    let mut nested = false;
    let mut window = false;
    let mut i: usize = pane_index + 1;
    assert(all[pane_index as int] == nodes@[pane_index as int]@);
    while i < end
        invariant
            all == node::rows(nodes@),
            pane_index < i <= end <= nodes@.len(),
            pane_depth == all[pane_index as int].depth,
            forall|j: int| #[trigger]
                in_subtree(all, pane_index as int, j) <==> pane_index < j < end,
            direct == exists|j: int|
                j < i && #[trigger] in_subtree(all, pane_index as int, j) && is_titled(
                    all,
                    j,
                    "Text"@,
                    name@,
                ) && all[j].depth == pane_depth + 1,
            nested == exists|j: int|
                j < i && #[trigger] in_subtree(all, pane_index as int, j) && is_titled(
                    all,
                    j,
                    "Text"@,
                    name@,
                ) && all[j].depth > pane_depth + 1,
            window == exists|j: int|
                j < i && #[trigger] in_subtree(all, pane_index as int, j) && is_native(
                    all,
                    j,
                    "Window"@,
                ),
        decreases end - i,
    {
        assert(in_subtree(all, pane_index as int, i as int));
        assert(all[i as int] == nodes@[i as int]@);
        if is_titled_node(nodes, i, "Text", name) {
            if nodes[i].depth == pane_depth + 1 {
                direct = true;
            } else {
                nested = true;
            }
        }
        if is_native_node(nodes, i, "Window") {
            window = true;
        }
        i = i + 1;
    }
    direct && nested && !window
}

/// Whether a prompt of the browser is rooted at row `i`: a titled window below
/// a pane of the same title that shows this title as text, or a titled pane
/// below the top two levels that binds its own title.
pub open spec fn is_prompt_root(nodes: Seq<NodeView>, i: int) -> bool {
    &&& is_trusted(nodes, nodes[i])
    &&& nodes[i].depth > 0
    &&& nodes[i].title() matches Some(name) && {
        ||| nodes[i].control_type == "Window"@ && below_titled_pane(nodes, i, name) && exists|t: int|
            #[trigger] in_subtree(nodes, i, t) && is_titled(nodes, t, "Text"@, name)
        ||| nodes[i].control_type == "Pane"@ && nodes[i].depth > 1 && binds_own_title(
            nodes,
            i,
            name,
        )
    }
}

/// The prompts rooted in the first `count` rows, in order: where each starts,
/// and where the rows below it end.
pub open spec fn prompts_among(nodes: Seq<NodeView>, count: int) -> Seq<(int, int)>
    decreases count,
{
    if count <= 0 {
        Seq::empty()
    } else {
        let before = prompts_among(nodes, count - 1);
        if is_prompt_root(nodes, count - 1) {
            before.push((count - 1, end_of_subtree(nodes, count - 1)))
        } else {
            before
        }
    }
}

/// The prompts of the browser in a tree.
pub open spec fn prompts(nodes: Seq<NodeView>) -> Seq<(int, int)> {
    prompts_among(nodes, nodes.len() as int)
}

/// Each prompt starts at a row that roots one, ends where the rows below it
/// end, and comes after the prompts before it.
pub proof fn lemma_prompts_among(nodes: Seq<NodeView>, count: int)
    requires
        0 <= count <= nodes.len(),
    ensures
        forall|k: int| #![trigger prompts_among(nodes, count)[k]]
            0 <= k < prompts_among(nodes, count).len() ==> {
                let (start, end) = prompts_among(nodes, count)[k];
                &&& 0 <= start < count
                &&& is_prompt_root(nodes, start)
                &&& end == end_of_subtree(nodes, start)
            },
        forall|k: int, l: int|
            0 <= k < l < prompts_among(nodes, count).len() ==> (#[trigger] prompts_among(
                nodes,
                count,
            )[k]).0 < (#[trigger] prompts_among(nodes, count)[l]).0,
        forall|i: int|
            0 <= i < count && is_prompt_root(nodes, i) ==> prompts_among(nodes, count).contains(
                (i, #[trigger] end_of_subtree(nodes, i)),
            ),
    decreases count,
{
    if count > 0 {
        lemma_prompts_among(nodes, count - 1);
        let before = prompts_among(nodes, count - 1);
        let after = prompts_among(nodes, count);
        assert forall|i: int| 0 <= i < count && is_prompt_root(nodes, i) implies after.contains(
            (i, #[trigger] end_of_subtree(nodes, i)),
        ) by {
            let span = (i, end_of_subtree(nodes, i));
            if i == count - 1 {
                assert(after.last() == span);
            } else {
                let k = choose|k: int| 0 <= k < before.len() && before[k] == span;
                assert(before.contains(span));
                assert(after[k] == span);
            }
        }
    }
}

/// A prompt starts in the tree and ends after its start and in the tree.
pub proof fn lemma_prompt_bounds(nodes: Seq<NodeView>, k: int)
    requires
        0 <= k < prompts(nodes).len(),
    ensures
        0 <= prompts(nodes)[k].0 < prompts(nodes)[k].1 <= nodes.len(),
        is_prompt_root(nodes, prompts(nodes)[k].0),
        prompts(nodes)[k].1 == end_of_subtree(nodes, prompts(nodes)[k].0),
{
    lemma_prompts_among(nodes, nodes.len() as int);
    lemma_end_of_subtree(nodes, prompts(nodes)[k].0);
}

/// A list of prompts as numbers without bound.
pub open spec fn spans(surfaces: Seq<(usize, usize)>) -> Seq<(int, int)> {
    surfaces.map_values(|s: (usize, usize)| (s.0 as int, s.1 as int))
}

fn shows_title(nodes: &[UiaNode], root: usize, end: usize, name: &str) -> (shown: bool)
    requires
        root < end <= nodes@.len(),
        forall|j: int| #[trigger]
            in_subtree(node::rows(nodes@), root as int, j) <==> root < j < end,
    ensures
        shown == exists|t: int| #[trigger]
            in_subtree(node::rows(nodes@), root as int, t) && is_titled(
                node::rows(nodes@),
                t,
                "Text"@,
                name@,
            ),
{
    let ghost all = node::rows(nodes@);
    let mut i: usize = root + 1;
    while i < end
        invariant
            all == node::rows(nodes@),
            root < i <= end <= nodes@.len(),
            forall|j: int| #[trigger] in_subtree(all, root as int, j) <==> root < j < end,
            forall|j: int|
                j < i && #[trigger] in_subtree(all, root as int, j) ==> !is_titled(
                    all,
                    j,
                    "Text"@,
                    name@,
                ),
        decreases end - i,
    {
        assert(in_subtree(all, root as int, i as int));
        if is_titled_node(nodes, i, "Text", name) {
            return true;
        }
        i = i + 1;
    }
    false
}

fn is_prompt_surface(nodes: &[UiaNode], root: usize, end: usize) -> (surface: bool)
    requires
        root < end <= nodes@.len(),
        forall|j: int| #[trigger]
            in_subtree(node::rows(nodes@), root as int, j) <==> root < j < end,
    ensures
        surface == is_prompt_root(node::rows(nodes@), root as int),
{
    let node = &nodes[root];
    assert(node::rows(nodes@)[root as int] == node@);
    proof {
        reveal_strlit("Window");
        reveal_strlit("Pane");
        assert("Window"@.len() == 6);
        assert("Pane"@.len() == 4);
    }
    if !is_trusted_prompt_node(nodes, node) || node.depth == 0 {
        return false;
    }
    match node_name(node) {
        Some(name) => {
            if same_text(node.control_type.as_str(), "Window") {
                has_matching_pane_ancestor(nodes, root, name) && shows_title(nodes, root, end, name)
            } else if same_text(node.control_type.as_str(), "Pane") {
                node.depth > 1 && has_pane_rooted_title_binding(nodes, root, name)
            } else {
                false
            }
        },
        None => false,
    }
}

/// The prompts of the browser in a tree, in order: where each starts, and
/// where the rows below it end.
pub fn native_prompt_surfaces(nodes: &[UiaNode]) -> (surfaces: Vec<(usize, usize)>)
    ensures
        spans(surfaces@) == prompts(node::rows(nodes@)),
{
    let ghost all = node::rows(nodes@);
    let mut surfaces: Vec<(usize, usize)> = Vec::new();
    let mut i: usize = 0;
    assert(spans(surfaces@) =~= prompts_among(all, 0));
    while i < nodes.len()
        invariant
            all == node::rows(nodes@),
            i <= nodes@.len(),
            spans(surfaces@) == prompts_among(all, i as int),
        decreases nodes@.len() - i,
    {
        let end = subtree_end(nodes, i);
        if is_prompt_surface(nodes, i, end) {
            let ghost before = surfaces@;
            surfaces.push((i, end));
            assert(spans(surfaces@) =~= spans(before).push((i as int, end as int)));
        }
        i = i + 1;
    }
    surfaces
}

/// Whether the tree shows a prompt of the browser.
pub fn native_prompt_surface_present(nodes: &[UiaNode]) -> (present: bool)
    ensures
        present == (prompts(node::rows(nodes@)).len() > 0),
{
    let surfaces = native_prompt_surfaces(nodes);
    assert(spans(surfaces@).len() == surfaces@.len());
    surfaces.len() > 0
}

} // verus!
