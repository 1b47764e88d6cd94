//! What the matcher does not depend on: the language of a prompt, the direction
//! in which it is laid out, and what a page shows.

use vstd::prelude::*;

use crate::actions::{self, ButtonReply};
use crate::buttons;
use crate::node::NodeView;
use crate::surface;

verus! {

/// Whether a row is of a kind whose title can bind a prompt.
pub open spec fn may_bind(node: NodeView) -> bool {
    node.control_type == "Pane"@ || node.control_type == "Window"@ || node.control_type == "Text"@
}

/// Whether two rows agree in how they are linked to other rows and in whether
/// they are known to be a page's.
pub open spec fn same_links(a: NodeView, b: NodeView) -> bool {
    &&& a.element_index == b.element_index
    &&& a.parent_element_index == b.parent_element_index
    &&& a.depth == b.depth
    &&& a.in_web_content == b.in_web_content
    &&& surface::is_document(a) == surface::is_document(b)
}

/// Whether two rows agree in all but their names and where they stand on the
/// screen.
pub open spec fn same_element(a: NodeView, b: NodeView) -> bool {
    &&& a.element_index == b.element_index
    &&& a.control_type == b.control_type
    &&& a.actions == b.actions
    &&& a.element_ptr == b.element_ptr
    &&& a.rect is Some == b.rect is Some
    &&& a.depth == b.depth
    &&& a.parent_element_index == b.parent_element_index
    &&& a.in_web_content == b.in_web_content
}

/// Whether two trees agree in all but names and places, row by row, and give
/// the same rows a title and the same rows an equal title.
pub open spec fn same_structure(a: Seq<NodeView>, b: Seq<NodeView>) -> bool {
    &&& a.len() == b.len()
    &&& forall|i: int| #![trigger a[i]] #![trigger b[i]]
        0 <= i < a.len() ==> same_element(a[i], b[i])
    &&& forall|i: int| #![trigger a[i]] #![trigger b[i]]
        0 <= i < a.len() && may_bind(a[i]) ==> a[i].title() is Some == b[i].title() is Some
    &&& forall|i: int, j: int|
        #![trigger a[i], a[j]]
        #![trigger b[i], b[j]]
        0 <= i < a.len() && 0 <= j < a.len() && may_bind(a[i]) && may_bind(a[j]) ==> (a[i].title()
            == a[j].title()) == (b[i].title() == b[j].title())
}

proof fn lemma_same_position(a: Seq<NodeView>, b: Seq<NodeView>, id: usize)
    requires
        a.len() == b.len(),
        forall|i: int| 0 <= i < a.len() ==> same_links(#[trigger] a[i], b[i]),
    ensures
        surface::position(a, id) == surface::position(b, id),
    decreases a.len(),
{
    if a.len() > 0 {
        assert forall|i: int| 0 <= i < a.len() - 1 implies same_links(
            #[trigger] a.drop_last()[i],
            b.drop_last()[i],
        ) by {
            assert(same_links(a[i], b[i]));
        }
        lemma_same_position(a.drop_last(), b.drop_last(), id);
        assert(same_links(a[a.len() - 1], b[a.len() - 1]));
    }
}

proof fn lemma_same_parent(a: Seq<NodeView>, b: Seq<NodeView>, x: NodeView, y: NodeView)
    requires
        a.len() == b.len(),
        forall|i: int| 0 <= i < a.len() ==> same_links(#[trigger] a[i], b[i]),
        same_links(x, y),
    ensures
        surface::parent_position(a, x) == surface::parent_position(b, y),
{
    if x.parent_element_index is Some {
        lemma_same_position(a, b, x.parent_element_index->0);
    }
}

proof fn lemma_same_ancestor(a: Seq<NodeView>, b: Seq<NodeView>, x: NodeView, y: NodeView, k: nat)
    requires
        a.len() == b.len(),
        forall|i: int| 0 <= i < a.len() ==> same_links(#[trigger] a[i], b[i]),
        same_links(x, y),
    ensures
        surface::ancestor(a, x, k) == surface::ancestor(b, y, k),
        surface::document_above(a, x, k) == surface::document_above(b, y, k),
        surface::ancestor(a, x, k) matches Some(p) ==> 0 <= p < a.len(),
    decreases k,
{
    let (below_a, below_b) = if k == 0 {
        (x, y)
    } else {
        lemma_same_ancestor(a, b, x, y, (k - 1) as nat);
        let p = surface::ancestor(a, x, (k - 1) as nat)->0;
        (a[p], b[p])
    };
    if k == 0 || surface::ancestor(a, x, (k - 1) as nat) is Some {
        lemma_same_parent(a, b, below_a, below_b);
        if below_a.parent_element_index is Some {
            surface::lemma_position(a, below_a.parent_element_index->0);
        }
    }
    if surface::ancestor(a, x, k) is Some {
        let p = surface::ancestor(a, x, k)->0;
        assert(same_links(a[p], b[p]));
    }
}

proof fn lemma_same_trust(a: Seq<NodeView>, b: Seq<NodeView>, i: int)
    requires
        a.len() == b.len(),
        forall|i: int| 0 <= i < a.len() ==> same_links(#[trigger] a[i], b[i]),
        0 <= i < a.len(),
    ensures
        surface::is_trusted(a, a[i]) == surface::is_trusted(b, b[i]),
{
    assert(same_links(a[i], b[i]));
    assert forall|k: nat|
        surface::document_above(a, a[i], k) == surface::document_above(b, b[i], k)
            && surface::ancestor(a, a[i], k) == surface::ancestor(b, b[i], k) by {
        lemma_same_ancestor(a, b, a[i], b[i], k);
    }
    assert(surface::in_web_content(a, a[i]) == surface::in_web_content(b, b[i]));
}

proof fn lemma_same_subtree(a: Seq<NodeView>, b: Seq<NodeView>, root: int, i: int)
    requires
        a.len() == b.len(),
        forall|i: int| #![trigger a[i]] #![trigger b[i]]
            0 <= i < a.len() ==> same_links(a[i], b[i]),
    ensures
        surface::in_subtree(a, root, i) == surface::in_subtree(b, root, i),
{
    if 0 <= root < i < a.len() {
        assert(same_links(a[root], b[root]));
        assert forall|j: int| root < j <= i implies (#[trigger] a[j]).depth == b[j].depth by {
            assert(same_links(a[j], b[j]));
        }
        if surface::in_subtree(a, root, i) {
            assert forall|j: int| root < j <= i implies (#[trigger] b[j]).depth > b[root].depth by {
                assert(a[j].depth > a[root].depth);
            }
        }
        if surface::in_subtree(b, root, i) {
            assert forall|j: int| root < j <= i implies (#[trigger] a[j]).depth > a[root].depth by {
                assert(b[j].depth > b[root].depth);
            }
        }
    }
}

proof fn lemma_same_end(a: Seq<NodeView>, b: Seq<NodeView>, depth: usize, i: int)
    requires
        a.len() == b.len(),
        forall|i: int| 0 <= i < a.len() ==> same_links(#[trigger] a[i], b[i]),
        0 <= i <= a.len(),
    ensures
        surface::first_not_deeper(a, depth, i) == surface::first_not_deeper(b, depth, i),
    decreases a.len() - i,
{
    if i < a.len() {
        assert(same_links(a[i], b[i]));
        if a[i].depth > depth {
            lemma_same_end(a, b, depth, i + 1);
        }
    }
}

/// Row `i` bears the title of row `root` in both trees or in neither.
proof fn lemma_same_titled(a: Seq<NodeView>, b: Seq<NodeView>, root: int, i: int, kind: Seq<char>)
    requires
        same_structure(a, b),
        0 <= root < a.len(),
        0 <= i < a.len(),
        may_bind(a[root]),
        a[root].title() is Some,
        kind == "Pane"@ || kind == "Window"@ || kind == "Text"@,
    ensures
        surface::is_titled(a, i, kind, a[root].title()->0) == surface::is_titled(
            b,
            i,
            kind,
            b[root].title()->0,
        ),
        surface::is_native(a, i, kind) == surface::is_native(b, i, kind),
{
    lemma_same_trust(a, b, i);
    assert(same_element(a[i], b[i]));
    assert(b[root].title() is Some);
    if a[i].control_type == kind {
        assert(may_bind(a[i]));
        assert((a[i].title() == a[root].title()) == (b[i].title() == b[root].title()));
    }
}

proof fn lemma_prompt_root_carries_over(a: Seq<NodeView>, b: Seq<NodeView>, i: int)
    requires
        same_structure(a, b),
        0 <= i < a.len(),
        surface::is_prompt_root(a, i),
    ensures
        surface::is_prompt_root(b, i),
{
    lemma_same_trust(a, b, i);
    assert(same_element(a[i], b[i]));
    assert(may_bind(a[i]));
    let name = a[i].title()->0;
    let title = b[i].title()->0;
    assert forall|t: int| #[trigger]
        surface::in_subtree(a, i, t) == surface::in_subtree(b, i, t) by {
        lemma_same_subtree(a, b, i, t);
    }
    if a[i].control_type == "Window"@ && surface::below_titled_pane(a, i, name) {
        let p = choose|p: int| #[trigger]
            surface::in_subtree(a, p, i) && surface::is_titled(a, p, "Pane"@, name);
        lemma_same_subtree(a, b, p, i);
        lemma_same_titled(a, b, i, p, "Pane"@);
        let t = choose|t: int| #[trigger]
            surface::in_subtree(a, i, t) && surface::is_titled(a, t, "Text"@, name);
        lemma_same_titled(a, b, i, t, "Text"@);
        assert(surface::in_subtree(b, p, i) && surface::is_titled(b, p, "Pane"@, title));
        assert(surface::in_subtree(b, i, t) && surface::is_titled(b, t, "Text"@, title));
    } else {
        let d = choose|d: int| #[trigger]
            surface::in_subtree(a, i, d) && surface::is_titled(a, d, "Text"@, name) && a[d].depth
                == a[i].depth + 1;
        let n = choose|n: int| #[trigger]
            surface::in_subtree(a, i, n) && surface::is_titled(a, n, "Text"@, name) && a[n].depth
                > a[i].depth + 1;
        lemma_same_titled(a, b, i, d, "Text"@);
        lemma_same_titled(a, b, i, n, "Text"@);
        assert(same_element(a[d], b[d]) && same_element(a[n], b[n]));
        assert(surface::in_subtree(b, i, d) && surface::in_subtree(b, i, n));
        assert forall|w: int| #[trigger] surface::in_subtree(b, i, w) implies !surface::is_native(
            b,
            w,
            "Window"@,
        ) by {
            assert(surface::in_subtree(a, i, w));
            lemma_same_titled(a, b, i, w, "Window"@);
        }
        assert(surface::binds_own_title(b, i, title));
    }
}

proof fn lemma_same_structure_symmetric(a: Seq<NodeView>, b: Seq<NodeView>)
    requires
        same_structure(a, b),
    ensures
        same_structure(b, a),
{
    assert forall|i: int| #![trigger a[i]] #![trigger b[i]] 0 <= i < b.len() implies same_element(
        b[i],
        a[i],
    ) by {
        assert(same_element(a[i], b[i]));
    }
    assert forall|i: int| #![trigger a[i]] #![trigger b[i]]
        0 <= i < b.len() && may_bind(b[i]) implies b[i].title() is Some == a[i].title() is Some by {
        assert(same_element(a[i], b[i]));
    }
    assert forall|i: int, j: int|
        #![trigger a[i], a[j]]
        #![trigger b[i], b[j]]
        0 <= i < b.len() && 0 <= j < b.len() && may_bind(b[i]) && may_bind(b[j]) implies (
    b[i].title() == b[j].title()) == (a[i].title() == a[j].title()) by {
        assert(same_element(a[i], b[i]) && same_element(a[j], b[j]));
    }
}

proof fn lemma_same_prompts_among(a: Seq<NodeView>, b: Seq<NodeView>, count: int)
    requires
        same_structure(a, b),
        0 <= count <= a.len(),
    ensures
        surface::prompts_among(a, count) == surface::prompts_among(b, count),
    decreases count,
{
    if count > 0 {
        let i = count - 1;
        lemma_same_prompts_among(a, b, i);
        lemma_same_structure_symmetric(a, b);
        if surface::is_prompt_root(a, i) {
            lemma_prompt_root_carries_over(a, b, i);
        }
        if surface::is_prompt_root(b, i) {
            lemma_prompt_root_carries_over(b, a, i);
        }
        assert(same_element(a[i], b[i]));
        lemma_same_end(a, b, a[i].depth, i + 1);
    }
}

proof fn lemma_same_asked(a: Seq<NodeView>, b: Seq<NodeView>, start: int, end: int)
    requires
        same_structure(a, b),
        0 <= start <= end <= a.len(),
    ensures
        actions::dialog_buttons(a, start, end) == actions::dialog_buttons(b, start, end),
        forall|j: int|
            0 <= j < actions::dialog_buttons(a, start, end).len() ==> {
                let row = #[trigger] actions::dialog_buttons(a, start, end)[j];
                0 <= row < a.len() && a[row].rect is Some
            },
    decreases end - start,
{
    if end > start + 1 {
        lemma_same_asked(a, b, start, end - 1);
        lemma_same_trust(a, b, end - 1);
        assert(same_element(a[end - 1], b[end - 1]));
    }
}

/// The prompts of a tree and the elements that are asked depend on nothing but
/// its structure.
pub proof fn lemma_structure_decides_prompts(a: Seq<NodeView>, b: Seq<NodeView>)
    requires
        same_structure(a, b),
    ensures
        surface::prompts(a) == surface::prompts(b),
        forall|k: int|
            0 <= k < surface::prompts(a).len() ==> actions::asked_in(
                a,
                #[trigger] surface::prompts(a)[k],
            ) == actions::asked_in(b, surface::prompts(a)[k]),
{
    lemma_same_prompts_among(a, b, a.len() as int);
    assert forall|k: int| 0 <= k < surface::prompts(a).len() implies actions::asked_in(
        a,
        #[trigger] surface::prompts(a)[k],
    ) == actions::asked_in(b, surface::prompts(a)[k]) by {
        surface::lemma_prompt_bounds(a, k);
        lemma_same_asked(a, b, surface::prompts(a)[k].0, surface::prompts(a)[k].1);
    }
}

/// Whether all rows that are asked in a prompt are rows of the tree that stand
/// somewhere on the screen.
spec fn asked_rows_stand(nodes: Seq<NodeView>, asked: Seq<int>) -> bool {
    forall|j: int|
        0 <= j < asked.len() ==> {
            let row = #[trigger] asked[j];
            0 <= row < nodes.len() && nodes[row].rect is Some
        }
}

proof fn lemma_asked_rows_stand(nodes: Seq<NodeView>, k: int)
    requires
        0 <= k < surface::prompts(nodes).len(),
    ensures
        asked_rows_stand(nodes, actions::asked_in(nodes, surface::prompts(nodes)[k])),
{
    surface::lemma_prompt_bounds(nodes, k);
    assert(same_structure(nodes, nodes));
    lemma_same_asked(nodes, nodes, surface::prompts(nodes)[k].0, surface::prompts(nodes)[k].1);
}

proof fn lemma_same_candidates(
    a: Seq<NodeView>,
    b: Seq<NodeView>,
    asked: Seq<int>,
    answers: Seq<ButtonReply>,
)
    requires
        a.len() == b.len(),
        forall|i: int| 0 <= i < a.len() ==> same_element(#[trigger] a[i], b[i]),
        forall|i: int| 0 <= i < a.len() ==> (#[trigger] a[i]).rect == b[i].rect,
        asked_rows_stand(a, asked),
        answers.len() <= asked.len(),
    ensures
        actions::candidates(a, asked, answers) == actions::candidates(b, asked, answers),
    decreases answers.len(),
{
    if answers.len() > 0 {
        lemma_same_candidates(a, b, asked, answers.drop_last());
        let row = asked[answers.len() - 1];
        assert(same_element(a[row], b[row]));
        assert(a[row].rect == b[row].rect);
    }
}

/// Names are opaque: if the rows of a tree are renamed, in any script, so that
/// among panes, windows and texts the same ones have a name and the same ones
/// bear the same name, then the same prompts are found, the same elements are
/// asked, and by the same answers the same elements grant the request. The names
/// of buttons do not matter at all.
pub proof fn lemma_names_are_opaque(
    a: Seq<NodeView>,
    b: Seq<NodeView>,
    replies: Seq<Seq<ButtonReply>>,
)
    requires
        same_structure(a, b),
        forall|i: int| 0 <= i < a.len() ==> (#[trigger] a[i]).rect == b[i].rect,
    ensures
        surface::prompts(a) == surface::prompts(b),
        forall|k: int|
            0 <= k < surface::prompts(a).len() ==> actions::asked_in(
                a,
                #[trigger] surface::prompts(a)[k],
            ) == actions::asked_in(b, surface::prompts(a)[k]),
        actions::is_transcript(a, replies) == actions::is_transcript(b, replies),
        actions::is_transcript(a, replies) ==> actions::allow_actions(a, replies)
            == actions::allow_actions(b, replies),
{
    lemma_structure_decides_prompts(a, b);
    let all = surface::prompts(a);
    assert forall|k: int|
        0 <= k < replies.len() && k < all.len() && actions::asks_in_order(
            a,
            all[k],
            #[trigger] replies[k],
        ) implies actions::verdict(a, all[k], replies[k]) == actions::verdict(
        b,
        all[k],
        replies[k],
    ) by {
        lemma_asked_rows_stand(a, k);
        lemma_same_candidates(a, b, actions::asked_in(a, all[k]), replies[k]);
    }
    lemma_same_verdicts(a, b, replies);
}

/// Trees with the same prompts, the same asked rows and the same verdicts have
/// the same actions.
proof fn lemma_same_verdicts(
    a: Seq<NodeView>,
    b: Seq<NodeView>,
    replies: Seq<Seq<ButtonReply>>,
)
    requires
        surface::prompts(a) == surface::prompts(b),
        forall|k: int|
            0 <= k < surface::prompts(a).len() ==> actions::asked_in(
                a,
                #[trigger] surface::prompts(a)[k],
            ) == actions::asked_in(b, surface::prompts(a)[k]),
        forall|k: int|
            0 <= k < replies.len() && k < surface::prompts(a).len() && actions::asks_in_order(
                a,
                surface::prompts(a)[k],
                #[trigger] replies[k],
            ) ==> actions::verdict(a, surface::prompts(a)[k], replies[k]) == actions::verdict(
                b,
                surface::prompts(a)[k],
                replies[k],
            ),
    ensures
        actions::is_transcript(a, replies) == actions::is_transcript(b, replies),
        actions::is_transcript(a, replies) ==> actions::allow_actions(a, replies)
            == actions::allow_actions(b, replies),
{
    let all = surface::prompts(a);
    assert forall|k: int| 0 <= k < replies.len() && k < all.len() implies actions::asks_in_order(
        a,
        all[k],
        #[trigger] replies[k],
    ) == actions::asks_in_order(b, all[k], replies[k]) by {
        assert(actions::asked_in(a, all[k]) == actions::asked_in(b, all[k]));
    }
    if actions::is_transcript(a, replies) {
        let last = replies.len() - 1;
        if replies.len() > 0 {
            assert(actions::asks_in_order(a, all[last], replies[last]));
        }
        assert(actions::is_transcript(b, replies));
        if actions::allow_actions(a, replies) is Ok {
            assert forall|k: int| 0 <= k < replies.len() implies actions::verdict(
                a,
                all[k],
                #[trigger] replies[k],
            ) == actions::verdict(b, all[k], replies[k]) by {}
            assert(actions::allow_actions(a, replies)->Ok_0 =~= actions::allow_actions(
                b,
                replies,
            )->Ok_0);
        }
    }
    if actions::is_transcript(b, replies) {
        let last = replies.len() - 1;
        if replies.len() > 0 {
            assert(actions::asks_in_order(b, all[last], replies[last]));
            assert(actions::asks_in_order(a, all[last], replies[last]));
        }
        assert(actions::is_transcript(a, replies));
    }
}

/// Whether `b` is the tree `a` with every rectangle mirrored.
pub open spec fn is_mirrored_tree(a: Seq<NodeView>, b: Seq<NodeView>, axis: int) -> bool {
    &&& a.len() == b.len()
    &&& forall|i: int| #![trigger a[i]] #![trigger b[i]]
        0 <= i < a.len() ==> {
            &&& same_element(a[i], b[i])
            &&& a[i].name == b[i].name
            &&& a[i].rect is Some ==> buttons::is_mirrored(a[i].rect->0, b[i].rect->0, axis)
        }
}

proof fn lemma_mirrored_candidates(
    a: Seq<NodeView>,
    b: Seq<NodeView>,
    axis: int,
    asked: Seq<int>,
    answers: Seq<ButtonReply>,
)
    requires
        is_mirrored_tree(a, b, axis),
        asked_rows_stand(a, asked),
        answers.len() <= asked.len(),
    ensures
        buttons::all_proper(actions::candidates(a, asked, answers)),
        buttons::is_mirrored_row(
            actions::candidates(a, asked, answers),
            actions::candidates(b, asked, answers),
            axis,
        ),
    decreases answers.len(),
{
    if answers.len() > 0 {
        lemma_mirrored_candidates(a, b, axis, asked, answers.drop_last());
        let row = asked[answers.len() - 1];
        let (x, y) = (a[row].rect->0, b[row].rect->0);
        let found_a = actions::candidates(a, asked, answers.drop_last());
        let found_b = actions::candidates(b, asked, answers.drop_last());
        assert(same_element(a[row], b[row]));
        assert(buttons::is_mirrored(x, y, axis));
        assert forall|j: int| 0 <= j < found_a.len() implies ((#[trigger] found_a[j]).rect == x) == (
        found_b[j].rect == y) by {
            assert(buttons::is_mirrored(found_a[j].rect, found_b[j].rect, axis));
        }
        assert((exists|j: int| 0 <= j < found_a.len() && (#[trigger] found_a[j]).rect == x) == (
        exists|j: int| 0 <= j < found_b.len() && (#[trigger] found_b[j]).rect == y)) by {
            if exists|j: int| 0 <= j < found_a.len() && (#[trigger] found_a[j]).rect == x {
                let j = choose|j: int| 0 <= j < found_a.len() && (#[trigger] found_a[j]).rect == x;
                assert(found_b[j].rect == y);
            }
            if exists|j: int| 0 <= j < found_b.len() && (#[trigger] found_b[j]).rect == y {
                let j = choose|j: int| 0 <= j < found_b.len() && (#[trigger] found_b[j]).rect == y;
                assert(found_a[j].rect == x);
            }
        }
    }
}

/// The direction of the layout does not matter: if all rectangles of a tree are
/// mirrored, the same prompts are found and by the same answers the same
/// elements grant the request.
pub proof fn lemma_direction_does_not_matter(
    a: Seq<NodeView>,
    b: Seq<NodeView>,
    axis: int,
    replies: Seq<Seq<ButtonReply>>,
)
    requires
        is_mirrored_tree(a, b, axis),
    ensures
        surface::prompts(a) == surface::prompts(b),
        forall|k: int|
            0 <= k < surface::prompts(a).len() ==> actions::asked_in(
                a,
                #[trigger] surface::prompts(a)[k],
            ) == actions::asked_in(b, surface::prompts(a)[k]),
        actions::is_transcript(a, replies) == actions::is_transcript(b, replies),
        actions::is_transcript(a, replies) ==> actions::allow_actions(a, replies)
            == actions::allow_actions(b, replies),
{
    assert(same_structure(a, b)) by {
        assert forall|i: int| #![trigger a[i]] #![trigger b[i]] 0 <= i < a.len() implies a[i].title()
            == b[i].title() by {
            assert(a[i].name == b[i].name);
        }
    }
    lemma_structure_decides_prompts(a, b);
    let all = surface::prompts(a);
    assert forall|k: int|
        0 <= k < replies.len() && k < all.len() && actions::asks_in_order(
            a,
            all[k],
            #[trigger] replies[k],
        ) implies actions::verdict(a, all[k], replies[k]) == actions::verdict(
        b,
        all[k],
        replies[k],
    ) by {
        lemma_asked_rows_stand(a, k);
        let asked = actions::asked_in(a, all[k]);
        lemma_mirrored_candidates(a, b, axis, asked, replies[k]);
        buttons::lemma_choice_survives_mirroring(
            actions::candidates(a, asked, replies[k]),
            actions::candidates(b, asked, replies[k]),
            axis,
        );
    }
    lemma_same_verdicts(a, b, replies);
}

/// Whether two trees agree in their links, row by row, and in everything about
/// the rows that are the browser's own. What the rows of pages are called, where
/// they stand, what they can do, which elements they hold and of what kind they
/// are, documents aside, is left open.
pub open spec fn same_but_for_pages(a: Seq<NodeView>, b: Seq<NodeView>) -> bool {
    &&& a.len() == b.len()
    &&& forall|i: int| #![trigger a[i]] #![trigger b[i]]
        0 <= i < a.len() ==> same_links(a[i], b[i])
    &&& forall|i: int| #![trigger a[i]] #![trigger b[i]]
        0 <= i < a.len() && surface::is_trusted(a, a[i]) ==> a[i] == b[i]
}

proof fn lemma_same_but_for_pages_symmetric(a: Seq<NodeView>, b: Seq<NodeView>)
    requires
        same_but_for_pages(a, b),
    ensures
        same_but_for_pages(b, a),
{
    assert forall|i: int| #![trigger a[i]] #![trigger b[i]] 0 <= i < b.len() implies same_links(
        b[i],
        a[i],
    ) by {
        assert(same_links(a[i], b[i]));
    }
    assert forall|i: int| #![trigger a[i]] #![trigger b[i]]
        0 <= i < b.len() && surface::is_trusted(b, b[i]) implies b[i] == a[i] by {
        lemma_same_trust(a, b, i);
    }
}

/// A row that is the browser's own and of some kind or title in one tree is so in
/// the other.
proof fn lemma_native_carries_over(a: Seq<NodeView>, b: Seq<NodeView>, i: int)
    requires
        same_but_for_pages(a, b),
        0 <= i < a.len(),
    ensures
        surface::is_trusted(a, a[i]) == surface::is_trusted(b, b[i]),
        forall|kind: Seq<char>| #[trigger]
            surface::is_native(a, i, kind) == surface::is_native(b, i, kind),
        forall|kind: Seq<char>, name: Seq<char>| #[trigger]
            surface::is_titled(a, i, kind, name) == surface::is_titled(b, i, kind, name),
{
    lemma_same_trust(a, b, i);
}

proof fn lemma_prompt_root_ignores_pages(a: Seq<NodeView>, b: Seq<NodeView>, i: int)
    requires
        same_but_for_pages(a, b),
        0 <= i < a.len(),
        surface::is_prompt_root(a, i),
    ensures
        surface::is_prompt_root(b, i),
{
    lemma_native_carries_over(a, b, i);
    let name = a[i].title()->0;
    assert forall|t: int| #[trigger]
        surface::in_subtree(a, i, t) == surface::in_subtree(b, i, t) by {
        lemma_same_subtree(a, b, i, t);
    }
    if a[i].control_type == "Window"@ && surface::below_titled_pane(a, i, name) {
        let p = choose|p: int| #[trigger]
            surface::in_subtree(a, p, i) && surface::is_titled(a, p, "Pane"@, name);
        let t = choose|t: int| #[trigger]
            surface::in_subtree(a, i, t) && surface::is_titled(a, t, "Text"@, name);
        lemma_same_subtree(a, b, p, i);
        lemma_native_carries_over(a, b, p);
        lemma_native_carries_over(a, b, t);
        assert(surface::in_subtree(b, p, i) && surface::is_titled(b, p, "Pane"@, name));
        assert(surface::in_subtree(b, i, t) && surface::is_titled(b, t, "Text"@, name));
    } else {
        let d = choose|d: int| #[trigger]
            surface::in_subtree(a, i, d) && surface::is_titled(a, d, "Text"@, name) && a[d].depth
                == a[i].depth + 1;
        let n = choose|n: int| #[trigger]
            surface::in_subtree(a, i, n) && surface::is_titled(a, n, "Text"@, name) && a[n].depth
                > a[i].depth + 1;
        lemma_native_carries_over(a, b, d);
        lemma_native_carries_over(a, b, n);
        assert(surface::in_subtree(b, i, d) && surface::in_subtree(b, i, n));
        assert forall|w: int| #[trigger] surface::in_subtree(b, i, w) implies !surface::is_native(
            b,
            w,
            "Window"@,
        ) by {
            assert(surface::in_subtree(a, i, w));
            lemma_native_carries_over(a, b, w);
        }
        assert(surface::binds_own_title(b, i, name));
    }
}

proof fn lemma_prompts_ignore_pages(a: Seq<NodeView>, b: Seq<NodeView>, count: int)
    requires
        same_but_for_pages(a, b),
        0 <= count <= a.len(),
    ensures
        surface::prompts_among(a, count) == surface::prompts_among(b, count),
    decreases count,
{
    if count > 0 {
        let i = count - 1;
        lemma_prompts_ignore_pages(a, b, i);
        lemma_same_but_for_pages_symmetric(a, b);
        if surface::is_prompt_root(a, i) {
            lemma_prompt_root_ignores_pages(a, b, i);
        }
        if surface::is_prompt_root(b, i) {
            lemma_prompt_root_ignores_pages(b, a, i);
        }
        assert(same_links(a[i], b[i]));
        lemma_same_end(a, b, a[i].depth, i + 1);
    }
}

/// The rows that are asked are the browser's own, and so the same in both trees.
proof fn lemma_asked_rows_ignore_pages(a: Seq<NodeView>, b: Seq<NodeView>, start: int, end: int)
    requires
        same_but_for_pages(a, b),
        0 <= start <= end <= a.len(),
    ensures
        actions::dialog_buttons(a, start, end) == actions::dialog_buttons(b, start, end),
        forall|j: int|
            0 <= j < actions::dialog_buttons(a, start, end).len() ==> {
                let row = #[trigger] actions::dialog_buttons(a, start, end)[j];
                0 <= row < a.len() && a[row] == b[row]
            },
    decreases end - start,
{
    if end > start + 1 {
        lemma_asked_rows_ignore_pages(a, b, start, end - 1);
        lemma_native_carries_over(a, b, end - 1);
    }
}

proof fn lemma_candidates_ignore_pages(
    a: Seq<NodeView>,
    b: Seq<NodeView>,
    asked: Seq<int>,
    answers: Seq<ButtonReply>,
)
    requires
        forall|j: int|
            0 <= j < asked.len() ==> {
                let row = #[trigger] asked[j];
                a[row] == b[row]
            },
        answers.len() <= asked.len(),
    ensures
        actions::candidates(a, asked, answers) == actions::candidates(b, asked, answers),
    decreases answers.len(),
{
    if answers.len() > 0 {
        lemma_candidates_ignore_pages(a, b, asked, answers.drop_last());
        let row = asked[answers.len() - 1];
        assert(a[row] == b[row]);
    }
}

/// What a page shows does not matter: if the rows of pages, and they alone, get
/// other names, places, actions and elements, then the same prompts are found,
/// the same elements are asked, and by the same answers the same elements grant
/// the request.
pub proof fn lemma_page_content_does_not_matter(
    a: Seq<NodeView>,
    b: Seq<NodeView>,
    replies: Seq<Seq<ButtonReply>>,
)
    requires
        same_but_for_pages(a, b),
    ensures
        surface::prompts(a) == surface::prompts(b),
        forall|k: int|
            0 <= k < surface::prompts(a).len() ==> actions::asked_in(
                a,
                #[trigger] surface::prompts(a)[k],
            ) == actions::asked_in(b, surface::prompts(a)[k]),
        forall|k: int, j: int|
            0 <= k < surface::prompts(a).len() && 0 <= j < actions::asked_in(
                a,
                surface::prompts(a)[k],
            ).len() ==> {
                let row = #[trigger] actions::asked_in(a, surface::prompts(a)[k])[j];
                a[row] == b[row]
            },
        actions::is_transcript(a, replies) == actions::is_transcript(b, replies),
        actions::is_transcript(a, replies) ==> actions::allow_actions(a, replies)
            == actions::allow_actions(b, replies),
{
    lemma_prompts_ignore_pages(a, b, a.len() as int);
    let all = surface::prompts(a);
    assert forall|k: int| 0 <= k < all.len() implies actions::asked_in(a, #[trigger] all[k])
        == actions::asked_in(b, all[k]) by {
        surface::lemma_prompt_bounds(a, k);
        lemma_asked_rows_ignore_pages(a, b, all[k].0, all[k].1);
    }
    assert forall|k: int, j: int|
        0 <= k < all.len() && 0 <= j < actions::asked_in(a, all[k]).len() implies ({
        let row = #[trigger] actions::asked_in(a, all[k])[j];
        a[row] == b[row]
    }) by {
        surface::lemma_prompt_bounds(a, k);
        lemma_asked_rows_ignore_pages(a, b, all[k].0, all[k].1);
    }
    assert forall|k: int|
        0 <= k < replies.len() && k < all.len() && actions::asks_in_order(
            a,
            all[k],
            #[trigger] replies[k],
        ) implies actions::verdict(a, all[k], replies[k]) == actions::verdict(
        b,
        all[k],
        replies[k],
    ) by {
        surface::lemma_prompt_bounds(a, k);
        lemma_asked_rows_ignore_pages(a, b, all[k].0, all[k].1);
        lemma_candidates_ignore_pages(a, b, actions::asked_in(a, all[k]), replies[k]);
    }
    lemma_same_verdicts(a, b, replies);
}

} // verus!
