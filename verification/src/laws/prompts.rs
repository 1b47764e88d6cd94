//! Where the browser's own prompts stand in a tree.

use vstd::prelude::*;

use crate::laws::trust::{lemma_trust_ignores_the_rest, same_provenance};
use crate::node::NodeView;
use crate::surface::{
    self, below_titled_pane, binds_own_title, end_of_subtree, is_trusted, prompts,
};

verus! {

/// Whether row `i` stands below row `root`: it comes after it, and so far no row
/// has come up to the depth of `root` again.
pub open spec fn stands_below(rows: Seq<NodeView>, root: int, i: int) -> bool {
    &&& 0 <= root < i < rows.len()
    &&& forall|j: int| root < j <= i ==> rows[root].depth < (#[trigger] rows[j]).depth
}

/// Whether the rows below `root` end before row `end`.
pub open spec fn ends_before(rows: Seq<NodeView>, root: int, end: int) -> bool {
    &&& root < end <= rows.len()
    &&& forall|j: int| root < j < end ==> rows[root].depth < (#[trigger] rows[j]).depth
    &&& end == rows.len() || rows[end].depth <= rows[root].depth
}

/// Whether row `i` is a trusted row of the kind `kind` with the title `name`.
pub open spec fn bears(rows: Seq<NodeView>, i: int, kind: Seq<char>, name: Seq<char>) -> bool {
    is_trusted(rows, rows[i]) && rows[i].control_type == kind && rows[i].title() == Some(name)
}

/// Whether row `i` is a window with a prompt: trusted, not at the top of the tree,
/// below a trusted pane of its title and above a trusted text of its title.
pub open spec fn is_window_prompt(rows: Seq<NodeView>, i: int) -> bool {
    &&& rows[i].depth != 0
    &&& exists|pane: int, text: int, name: Seq<char>|
        stands_below(rows, pane, i) && stands_below(rows, i, text) && #[trigger] bears(
            rows,
            pane,
            "Pane"@,
            name,
        ) && bears(rows, i, "Window"@, name) && #[trigger] bears(rows, text, "Text"@, name)
}

/// Whether row `i` is a pane with a prompt: trusted, below the two top levels,
/// with a trusted text of its title one level below it and another one further
/// down, and with no trusted window in it.
pub open spec fn is_pane_prompt(rows: Seq<NodeView>, i: int) -> bool {
    &&& rows[i].depth != 0
    &&& rows[i].depth != 1
    &&& exists|near: int, far: int, name: Seq<char>|
        stands_below(rows, i, near) && stands_below(rows, i, far) && rows[near].depth
            == rows[i].depth + 1 && rows[far].depth >= rows[i].depth + 2 && bears(
            rows,
            i,
            "Pane"@,
            name,
        ) && #[trigger] bears(rows, near, "Text"@, name) && #[trigger] bears(
            rows,
            far,
            "Text"@,
            name,
        )
    &&& forall|j: int| #[trigger]
        stands_below(rows, i, j) ==> !(is_trusted(rows, rows[j]) && rows[j].control_type
            == "Window"@)
}

/// The rows below a row end where one first comes up to its depth again.
pub proof fn lemma_subtree_ends(rows: Seq<NodeView>, root: int, end: int)
    requires
        0 <= root < rows.len(),
    ensures
        end == end_of_subtree(rows, root) <==> ends_before(rows, root, end),
{
    surface::lemma_first_not_deeper_bounds(rows, rows[root].depth, root + 1);
    let found = end_of_subtree(rows, root);
    if ends_before(rows, root, end) {
        if end < found {
            assert(rows[end].depth > rows[root].depth);
        } else if found < end {
            assert(rows[found].depth > rows[root].depth);
        }
    }
}

proof fn lemma_below(rows: Seq<NodeView>, root: int, i: int)
    ensures
        surface::in_subtree(rows, root, i) == stands_below(rows, root, i),
{
}

/// A row has a matching pane above it exactly where it stands below a trusted pane
/// with that title, however far.
pub proof fn lemma_matching_pane_is(rows: Seq<NodeView>, window: int, name: Seq<char>)
    ensures
        below_titled_pane(rows, window, name) <==> exists|pane: int| #[trigger]
            stands_below(rows, pane, window) && bears(rows, pane, "Pane"@, name),
{
    if below_titled_pane(rows, window, name) {
        let pane = choose|a: int| #[trigger]
            surface::in_subtree(rows, a, window) && surface::is_titled(rows, a, "Pane"@, name);
        lemma_below(rows, pane, window);
        assert(stands_below(rows, pane, window) && bears(rows, pane, "Pane"@, name));
    }
    if exists|pane: int| #[trigger]
        stands_below(rows, pane, window) && bears(rows, pane, "Pane"@, name) {
        let pane = choose|pane: int| #[trigger]
            stands_below(rows, pane, window) && bears(rows, pane, "Pane"@, name);
        lemma_below(rows, pane, window);
        assert(surface::in_subtree(rows, pane, window) && surface::is_titled(
            rows,
            pane,
            "Pane"@,
            name,
        ));
    }
}

/// A pane binds its title exactly where a trusted text one level below it and
/// another one further down bear it, and no trusted window stands in the pane.
pub proof fn lemma_title_binding_is(rows: Seq<NodeView>, pane: int, name: Seq<char>)
    ensures
        binds_own_title(rows, pane, name) <==> {
            &&& exists|near: int| #[trigger]
                stands_below(rows, pane, near) && bears(rows, near, "Text"@, name)
                    && rows[near].depth == rows[pane].depth + 1
            &&& exists|far: int| #[trigger]
                stands_below(rows, pane, far) && bears(rows, far, "Text"@, name) && rows[far].depth
                    >= rows[pane].depth + 2
            &&& forall|j: int| #[trigger]
                stands_below(rows, pane, j) ==> !(is_trusted(rows, rows[j])
                    && rows[j].control_type == "Window"@)
        },
{
    assert forall|i: int| #[trigger]
        surface::in_subtree(rows, pane, i) == #[trigger] stands_below(rows, pane, i) by {}
    if binds_own_title(rows, pane, name) {
        let near = choose|i: int| #[trigger]
            surface::in_subtree(rows, pane, i) && surface::is_titled(rows, i, "Text"@, name)
                && rows[i].depth == rows[pane].depth + 1;
        let far = choose|i: int| #[trigger]
            surface::in_subtree(rows, pane, i) && surface::is_titled(rows, i, "Text"@, name)
                && rows[i].depth > rows[pane].depth + 1;
        assert(stands_below(rows, pane, near) && bears(rows, near, "Text"@, name));
        assert(stands_below(rows, pane, far) && bears(rows, far, "Text"@, name));
        assert forall|j: int| #[trigger] stands_below(rows, pane, j) implies !(is_trusted(
            rows,
            rows[j],
        ) && rows[j].control_type == "Window"@) by {
            assert(surface::in_subtree(rows, pane, j));
            assert(!surface::is_native(rows, j, "Window"@));
        }
    }
    if (exists|near: int| #[trigger]
        stands_below(rows, pane, near) && bears(rows, near, "Text"@, name) && rows[near].depth
            == rows[pane].depth + 1) && (exists|far: int| #[trigger]
        stands_below(rows, pane, far) && bears(rows, far, "Text"@, name) && rows[far].depth
            >= rows[pane].depth + 2) && (forall|j: int| #[trigger]
        stands_below(rows, pane, j) ==> !(is_trusted(rows, rows[j]) && rows[j].control_type
            == "Window"@)) {
        let near = choose|near: int| #[trigger]
            stands_below(rows, pane, near) && bears(rows, near, "Text"@, name)
                && rows[near].depth == rows[pane].depth + 1;
        let far = choose|far: int| #[trigger]
            stands_below(rows, pane, far) && bears(rows, far, "Text"@, name) && rows[far].depth
                >= rows[pane].depth + 2;
        assert(surface::in_subtree(rows, pane, near) && surface::is_titled(
            rows,
            near,
            "Text"@,
            name,
        ));
        assert(surface::in_subtree(rows, pane, far) && surface::is_titled(
            rows,
            far,
            "Text"@,
            name,
        ));
        assert forall|j: int| #[trigger]
            surface::in_subtree(rows, pane, j) implies !surface::is_native(rows, j, "Window"@) by {
            assert(stands_below(rows, pane, j));
        }
    }
}

proof fn lemma_kinds_differ()
    ensures
        "Window"@ != "Pane"@,
{
    reveal_strlit("Window");
    reveal_strlit("Pane");
    assert("Window"@.len() == 6);
    assert("Pane"@.len() == 4);
}

proof fn lemma_root_is(rows: Seq<NodeView>, i: int)
    requires
        0 <= i < rows.len(),
    ensures
        surface::is_prompt_root(rows, i) <==> is_window_prompt(rows, i) || is_pane_prompt(rows, i),
{
    lemma_kinds_differ();
    assert forall|a: int, b: int| #[trigger]
        surface::in_subtree(rows, a, b) == #[trigger] stands_below(rows, a, b) by {}
    if surface::is_prompt_root(rows, i) {
        let name = rows[i].title()->0;
        lemma_matching_pane_is(rows, i, name);
        lemma_title_binding_is(rows, i, name);
        if rows[i].control_type == "Window"@ {
            let pane = choose|pane: int| #[trigger]
                stands_below(rows, pane, i) && bears(rows, pane, "Pane"@, name);
            let text = choose|t: int| #[trigger]
                surface::in_subtree(rows, i, t) && surface::is_titled(rows, t, "Text"@, name);
            assert(bears(rows, pane, "Pane"@, name) && bears(rows, text, "Text"@, name));
            assert(bears(rows, i, "Window"@, name));
            assert(stands_below(rows, pane, i) && stands_below(rows, i, text));
            assert(is_window_prompt(rows, i));
        } else {
            let near = choose|near: int| #[trigger]
                stands_below(rows, i, near) && bears(rows, near, "Text"@, name)
                    && rows[near].depth == rows[i].depth + 1;
            let far = choose|far: int| #[trigger]
                stands_below(rows, i, far) && bears(rows, far, "Text"@, name) && rows[far].depth
                    >= rows[i].depth + 2;
            assert(bears(rows, i, "Pane"@, name));
            assert(bears(rows, near, "Text"@, name) && bears(rows, far, "Text"@, name));
            assert(is_pane_prompt(rows, i));
        }
    }
    if is_window_prompt(rows, i) {
        let (pane, text, name) = choose|pane: int, text: int, name: Seq<char>|
            stands_below(rows, pane, i) && stands_below(rows, i, text) && #[trigger] bears(
                rows,
                pane,
                "Pane"@,
                name,
            ) && bears(rows, i, "Window"@, name) && #[trigger] bears(rows, text, "Text"@, name);
        lemma_matching_pane_is(rows, i, name);
        assert(surface::in_subtree(rows, i, text) && surface::is_titled(rows, text, "Text"@, name));
    }
    if is_pane_prompt(rows, i) {
        let (near, far, name) = choose|near: int, far: int, name: Seq<char>|
            stands_below(rows, i, near) && stands_below(rows, i, far) && rows[near].depth
                == rows[i].depth + 1 && rows[far].depth >= rows[i].depth + 2 && bears(
                rows,
                i,
                "Pane"@,
                name,
            ) && #[trigger] bears(rows, near, "Text"@, name) && #[trigger] bears(
                rows,
                far,
                "Text"@,
                name,
            );
        lemma_title_binding_is(rows, i, name);
    }
}

/// The prompts of a tree are its window prompts and its pane prompts, each once,
/// in the order of the rows, and each with where the rows below it end. No bound
/// on depth, size or place leaves one out.
pub proof fn lemma_prompts_are(rows: Seq<NodeView>)
    ensures
        forall|start: int, end: int| #[trigger]
            prompts(rows).contains((start, end)) <==> {
                &&& 0 <= start < rows.len()
                &&& ends_before(rows, start, end)
                &&& is_window_prompt(rows, start) || is_pane_prompt(rows, start)
            },
        forall|k: int, l: int|
            0 <= k < l < prompts(rows).len() ==> (#[trigger] prompts(rows)[k]).0 < (
            #[trigger] prompts(rows)[l]).0,
{
    let all = prompts(rows);
    surface::lemma_prompts_among(rows, rows.len() as int);
    assert forall|start: int, end: int| #[trigger] all.contains((start, end)) <==> {
        &&& 0 <= start < rows.len()
        &&& ends_before(rows, start, end)
        &&& is_window_prompt(rows, start) || is_pane_prompt(rows, start)
    } by {
        if all.contains((start, end)) {
            let k = choose|k: int| 0 <= k < all.len() && all[k] == (start, end);
            lemma_root_is(rows, start);
            lemma_subtree_ends(rows, start, end);
        }
        if 0 <= start < rows.len() && ends_before(rows, start, end) && (is_window_prompt(
            rows,
            start,
        ) || is_pane_prompt(rows, start)) {
            lemma_root_is(rows, start);
            lemma_subtree_ends(rows, start, end);
            assert(all.contains((start, end_of_subtree(rows, start))));
        }
    }
}

/// Whether `b` is the tree `a` moved down by some levels.
pub open spec fn is_moved_down(a: Seq<NodeView>, b: Seq<NodeView>, levels: int) -> bool {
    &&& a.len() == b.len()
    &&& forall|i: int| #![trigger a[i]] #![trigger b[i]]
        0 <= i < a.len() ==> same_provenance(a[i], b[i]) && a[i].name == b[i].name && b[i].depth
            == a[i].depth + levels
}

proof fn lemma_moved_prompt(a: Seq<NodeView>, b: Seq<NodeView>, levels: int, i: int)
    requires
        is_moved_down(a, b, levels),
        0 <= i < a.len(),
        b[i].depth >= 2,
    ensures
        is_window_prompt(a, i) ==> is_window_prompt(b, i),
        is_pane_prompt(a, i) ==> is_pane_prompt(b, i),
{
    assert forall|r: int, j: int| #[trigger] stands_below(a, r, j) == #[trigger] stands_below(
        b,
        r,
        j,
    ) by {
        if stands_below(a, r, j) {
            assert forall|h: int| r < h <= j implies b[r].depth < (#[trigger] b[h]).depth by {
                assert(a[r].depth < a[h].depth);
            }
        }
        if stands_below(b, r, j) {
            assert forall|h: int| r < h <= j implies a[r].depth < (#[trigger] a[h]).depth by {
                assert(b[r].depth < b[h].depth);
            }
        }
    }
    assert forall|j: int| 0 <= j < a.len() implies is_trusted(a, #[trigger] a[j]) == is_trusted(
        b,
        b[j],
    ) by {
        lemma_trust_ignores_the_rest(a, b, a[j], b[j]);
    }
    if is_window_prompt(a, i) {
        let (pane, text, name) = choose|pane: int, text: int, name: Seq<char>|
            stands_below(a, pane, i) && stands_below(a, i, text) && #[trigger] bears(
                a,
                pane,
                "Pane"@,
                name,
            ) && bears(a, i, "Window"@, name) && #[trigger] bears(a, text, "Text"@, name);
        assert(stands_below(b, pane, i) && stands_below(b, i, text));
        assert(bears(b, pane, "Pane"@, name) && bears(b, text, "Text"@, name));
    }
    if is_pane_prompt(a, i) {
        let (near, far, name) = choose|near: int, far: int, name: Seq<char>|
            stands_below(a, i, near) && stands_below(a, i, far) && a[near].depth == a[i].depth + 1
                && a[far].depth >= a[i].depth + 2 && bears(a, i, "Pane"@, name)
                && #[trigger] bears(a, near, "Text"@, name) && #[trigger] bears(
                a,
                far,
                "Text"@,
                name,
            );
        assert(stands_below(b, i, near) && stands_below(b, i, far));
        assert(bears(b, near, "Text"@, name) && bears(b, far, "Text"@, name));
        assert forall|j: int| #[trigger] stands_below(b, i, j) implies !(is_trusted(b, b[j])
            && b[j].control_type == "Window"@) by {
            assert(stands_below(a, i, j));
            assert(is_trusted(a, a[j]) == is_trusted(b, b[j]));
        }
    }
}

proof fn lemma_moved_prompts_among(a: Seq<NodeView>, b: Seq<NodeView>, levels: int, count: int)
    requires
        is_moved_down(a, b, levels),
        levels >= 0,
        forall|i: int| 0 <= i < a.len() ==> (#[trigger] a[i]).depth >= 2,
        0 <= count <= a.len(),
    ensures
        surface::prompts_among(a, count) == surface::prompts_among(b, count),
    decreases count,
{
    if count > 0 {
        let i = count - 1;
        lemma_moved_prompts_among(a, b, levels, i);
        assert(is_moved_down(b, a, -levels));
        assert(a[i].depth >= 2 && b[i].depth >= 2);
        lemma_moved_prompt(a, b, levels, i);
        lemma_moved_prompt(b, a, -levels, i);
        lemma_root_is(a, i);
        lemma_root_is(b, i);
        lemma_subtree_ends(a, i, end_of_subtree(a, i));
        let end = end_of_subtree(a, i);
        assert(ends_before(b, i, end)) by {
            assert forall|j: int| i < j < end implies b[i].depth < (#[trigger] b[j]).depth by {
                assert(a[i].depth < a[j].depth);
            }
            if end < a.len() {
                assert(a[end].depth <= a[i].depth);
            }
        }
        lemma_subtree_ends(b, i, end);
    }
}

/// Below the two top levels it does not matter how deep a tree stands: moved down
/// by any number of levels, it shows the same prompts.
pub proof fn lemma_depth_does_not_matter(a: Seq<NodeView>, b: Seq<NodeView>, levels: int)
    requires
        is_moved_down(a, b, levels),
        levels >= 0,
        forall|i: int| 0 <= i < a.len() ==> (#[trigger] a[i]).depth >= 2,
    ensures
        prompts(a) == prompts(b),
{
    lemma_moved_prompts_among(a, b, levels, a.len() as int);
}

} // verus!
