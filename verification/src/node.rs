//! Rows of a walked accessibility tree.

use vstd::prelude::*;

use crate::text::trim;

verus! {

/// A rectangle on the screen: left, top, right, bottom.
pub type Rect = (i32, i32, i32, i32);

/// One row of an accessibility tree, as far as the consent prompt is
/// recognised by it. The rows of a tree stand in depth-first order.
#[derive(Clone, Debug)]
pub struct UiaNode {
    /// The number by which other rows name this one as their parent.
    pub element_index: Option<usize>,
    pub control_type: String,
    pub name: Option<String>,
    /// The patterns that the element supports, such as `invoke`.
    pub actions: Vec<String>,
    /// The address of the live element, or 0 where there is none.
    pub element_ptr: usize,
    pub rect: Option<Rect>,
    pub depth: usize,
    pub parent_element_index: Option<usize>,
    pub in_web_content: bool,
}

/// The contents of a `UiaNode`.
pub struct NodeView {
    pub element_index: Option<usize>,
    pub control_type: Seq<char>,
    pub name: Option<Seq<char>>,
    pub actions: Seq<Seq<char>>,
    pub element_ptr: usize,
    pub rect: Option<Rect>,
    pub depth: usize,
    pub parent_element_index: Option<usize>,
    pub in_web_content: bool,
}

impl View for UiaNode {
    type V = NodeView;

    open spec fn view(&self) -> NodeView {
        NodeView {
            element_index: self.element_index,
            control_type: self.control_type@,
            name: match self.name {
                Some(name) => Some(name@),
                None => None,
            },
            actions: self.actions@.map_values(|action: String| action@),
            element_ptr: self.element_ptr,
            rect: self.rect,
            depth: self.depth,
            parent_element_index: self.parent_element_index,
            in_web_content: self.in_web_content,
        }
    }
}

/// The contents of the rows of a tree.
pub open spec fn rows(nodes: Seq<UiaNode>) -> Seq<NodeView> {
    nodes.map_values(|node: UiaNode| node@)
}

impl NodeView {
    /// The name without surrounding white space, where something is left of it.
    pub open spec fn title(self) -> Option<Seq<char>> {
        match self.name {
            Some(name) => if crate::text::trimmed(name).len() > 0 {
                Some(crate::text::trimmed(name))
            } else {
                None
            },
            None => None,
        }
    }
}

/// The name of a node without surrounding white space, where something is left
/// of it.
pub fn node_name(node: &UiaNode) -> (name: Option<&str>)
    ensures
        name is Some <==> node@.title() is Some,
        name matches Some(text) ==> node@.title() == Some(text@),
{
    match &node.name {
        Some(name) => {
            let text = trim(name.as_str());
            if text.is_empty() {
                None
            } else {
                Some(text)
            }
        },
        None => None,
    }
}

/// The live elements that the rows of a tree hold, in order.
pub open spec fn live_elements(nodes: Seq<NodeView>) -> Seq<usize>
    decreases nodes.len(),
{
    if nodes.len() == 0 {
        Seq::empty()
    } else {
        let before = live_elements(nodes.drop_last());
        if nodes.last().element_ptr != 0 {
            before.push(nodes.last().element_ptr)
        } else {
            before
        }
    }
}

/// The live elements that the rows of a tree hold, in order: those that are to
/// be released when the tree is no longer needed.
pub fn elements_to_release(nodes: &[UiaNode]) -> (elements: Vec<usize>)
    ensures
        elements@ == live_elements(rows(nodes@)),
{
    let ghost all = rows(nodes@);
    let mut elements: Vec<usize> = Vec::new();
    let mut i: usize = 0;
    assert(all.take(0) =~= Seq::empty());
    while i < nodes.len()
        invariant
            all == rows(nodes@),
            i <= nodes@.len(),
            elements@ == live_elements(all.take(i as int)),
        decreases nodes@.len() - i,
    {
        assert(all.take(i + 1).drop_last() =~= all.take(i as int));
        assert(all[i as int] == nodes@[i as int]@);
        if nodes[i].element_ptr != 0 {
            elements.push(nodes[i].element_ptr);
        }
        i = i + 1;
    }
    assert(all.take(i as int) =~= all);
    elements
}

} // verus!
