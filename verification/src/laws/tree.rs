//! The rows of a tree: what they hold, and what is released of them.

use vstd::prelude::*;

use crate::laws::text::{is_core, lemma_trimming_leaves_the_core};
use crate::node::{self, live_elements, NodeView, UiaNode};
use crate::text::white_space;

verus! {

/// A row is told by the fields of its node, each of them unchanged.
pub proof fn lemma_rows_hold_the_fields(nodes: Seq<UiaNode>, i: int)
    requires
        0 <= i < nodes.len(),
    ensures
        node::rows(nodes).len() == nodes.len(),
        node::rows(nodes)[i].element_index == nodes[i].element_index,
        node::rows(nodes)[i].control_type == nodes[i].control_type@,
        node::rows(nodes)[i].name is Some <==> nodes[i].name is Some,
        nodes[i].name matches Some(name) ==> node::rows(nodes)[i].name == Some(name@),
        node::rows(nodes)[i].actions.len() == nodes[i].actions@.len(),
        forall|j: int|
            0 <= j < nodes[i].actions@.len() ==> (#[trigger] nodes[i].actions@[j])@
                == node::rows(nodes)[i].actions[j],
        node::rows(nodes)[i].element_ptr == nodes[i].element_ptr,
        node::rows(nodes)[i].rect == nodes[i].rect,
        node::rows(nodes)[i].depth == nodes[i].depth,
        node::rows(nodes)[i].parent_element_index == nodes[i].parent_element_index,
        node::rows(nodes)[i].in_web_content == nodes[i].in_web_content,
{
}

/// A row has a title exactly where its name holds more than white space, and the
/// title is then the name but for the white space at its ends.
pub proof fn lemma_title_is_the_name(row: NodeView)
    ensures
        row.title() is None <==> (row.name matches Some(name) ==> forall|i: int|
            0 <= i < name.len() ==> white_space(#[trigger] name[i])),
        row.title() matches Some(title) ==> (row.name matches Some(name) && is_core(name, title)
            && title.len() > 0),
{
    if row.name is Some {
        lemma_trimming_leaves_the_core(row.name->0);
    }
}

/// What is released of a tree is every element that is not null, in the order of
/// the rows and as often as they name it.
pub proof fn lemma_every_live_element_is_released(rows: Seq<NodeView>)
    ensures
        live_elements(rows) == rows.map_values(|row: NodeView| row.element_ptr).filter(
            |element: usize| element != 0,
        ),
    decreases rows.len(),
{
    reveal(Seq::filter);
    let elements = rows.map_values(|row: NodeView| row.element_ptr);
    if rows.len() > 0 {
        lemma_every_live_element_is_released(rows.drop_last());
        assert(elements.drop_last() =~= rows.drop_last().map_values(
            |row: NodeView| row.element_ptr,
        ));
    }
}

} // verus!
