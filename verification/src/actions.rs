//! Which live elements of a tree grant the request: one for each prompt.

use vstd::prelude::*;

use crate::buttons::{self, select_language_independent_allow, ConsentButtonCandidate};
use crate::node::{self, NodeView, Rect, UiaNode};
use crate::refusal::{self, refusal, BrowserRefusal, BrowserRefusalCode, RefusalView};
use crate::surface::{self, is_trusted_prompt_node, native_prompt_surfaces};
use crate::text::{joined, same_text};

verus! {

/// The class of the buttons in the dialogs that Chromium draws itself.
pub const CHROMIUM_DIALOG_BUTTON_CLASS: &'static str = "MdTextButton";

/// What a live element answers: its class and whether it has the keyboard
/// focus, or why it could not be asked.
pub type ButtonReply = Result<(String, bool), BrowserRefusal>;

/// What a live element answers to the matcher, by what came of reading its
/// class and focus. A reading that failed refuses the prompt and says why.
pub fn native_button_properties(reading: Result<(String, bool), String>) -> (reply: Result<
    (String, bool),
    BrowserRefusal,
>)
    ensures
        match reading {
            Ok(properties) => reply == Ok::<(String, bool), BrowserRefusal>(properties),
            Err(detail) => reply matches Err(refused) && refused@ == refusal::wrong_target(
                "could not prove a native Chromium consent button: "@ + detail@,
            ),
        },
{
    match reading {
        Ok(properties) => Ok(properties),
        Err(detail) => Err(
            BrowserRefusal::new(
                BrowserRefusalCode::BrowserWrongTargetRefused,
                joined(
                    "could not prove a native Chromium consent button: ",
                    detail.as_str(),
                ),
            ),
        ),
    }
}

/// Whether row `i` is a live button of the browser that can be pressed and
/// stands somewhere on the screen.
pub open spec fn is_dialog_button(nodes: Seq<NodeView>, i: int) -> bool {
    &&& surface::is_native(nodes, i, "Button"@)
    &&& nodes[i].actions.contains("invoke"@)
    &&& nodes[i].element_ptr != 0
    &&& nodes[i].rect is Some
}

/// The dialog buttons between row `start` and row `end`, in order.
pub open spec fn dialog_buttons(nodes: Seq<NodeView>, start: int, end: int) -> Seq<int>
    decreases end - start,
{
    if end <= start + 1 {
        Seq::empty()
    } else {
        let before = dialog_buttons(nodes, start, end - 1);
        if is_dialog_button(nodes, end - 1) {
            before.push(end - 1)
        } else {
            before
        }
    }
}

/// The candidates, with one more where the element is a button of Chromium's
/// dialogs, has an area, and stands where none of them stands.
pub open spec fn with_button(
    found: Seq<ConsentButtonCandidate>,
    node: NodeView,
    class_name: Seq<char>,
    focused: bool,
) -> Seq<ConsentButtonCandidate> {
    let rect = node.rect->0;
    if class_name == CHROMIUM_DIALOG_BUTTON_CLASS@ && buttons::is_proper(rect) && !(exists|j: int|
        0 <= j < found.len() && (#[trigger] found[j]).rect == rect) {
        found.push(
            ConsentButtonCandidate {
                element_ptr: node.element_ptr,
                rect,
                has_keyboard_focus: focused,
            },
        )
    } else {
        found
    }
}

/// The candidates among the rows `asked`, by what the first of them answered.
pub open spec fn candidates(
    nodes: Seq<NodeView>,
    asked: Seq<int>,
    answers: Seq<ButtonReply>,
) -> Seq<ConsentButtonCandidate>
    decreases answers.len(),
{
    if answers.len() == 0 {
        Seq::empty()
    } else {
        let last = answers.len() - 1;
        let (class_name, focused) = answers[last]->Ok_0;
        with_button(
            candidates(nodes, asked, answers.drop_last()),
            nodes[asked[last]],
            class_name@,
            focused,
        )
    }
}

/// The rows of a prompt whose elements are asked.
pub open spec fn asked_in(nodes: Seq<NodeView>, prompt: (int, int)) -> Seq<int> {
    dialog_buttons(nodes, prompt.0, prompt.1)
}

/// Whether the elements of a prompt were asked in order, until one could not
/// be asked or none was left.
pub open spec fn asks_in_order(
    nodes: Seq<NodeView>,
    prompt: (int, int),
    answers: Seq<ButtonReply>,
) -> bool {
    &&& answers.len() <= asked_in(nodes, prompt).len()
    &&& forall|j: int| 0 <= j < answers.len() - 1 ==> (#[trigger] answers[j]) is Ok
    &&& answers.len() == asked_in(nodes, prompt).len() || (answers.len() > 0 && answers.last() is Err)
}

/// The element that grants the request of one prompt, by what its buttons
/// answered.
pub open spec fn verdict(
    nodes: Seq<NodeView>,
    prompt: (int, int),
    answers: Seq<ButtonReply>,
) -> Result<usize, RefusalView> {
    if answers.len() > 0 && answers.last() is Err {
        Err((answers.last()->Err_0)@)
    } else {
        buttons::chosen_allow(candidates(nodes, asked_in(nodes, prompt), answers))
    }
}

/// Whether `replies` holds what was answered in each prompt, the prompts taken
/// in order until one is refused or none is left.
pub open spec fn is_transcript(nodes: Seq<NodeView>, replies: Seq<Seq<ButtonReply>>) -> bool {
    let all = surface::prompts(nodes);
    &&& replies.len() <= all.len()
    &&& forall|k: int|
        0 <= k < replies.len() ==> asks_in_order(nodes, all[k], #[trigger] replies[k])
    &&& forall|k: int|
        0 <= k < replies.len() - 1 ==> verdict(nodes, all[k], #[trigger] replies[k]) is Ok
    &&& replies.len() == all.len() || (replies.len() > 0 && verdict(
        nodes,
        all[replies.len() - 1],
        replies.last(),
    ) is Err)
}

/// Whether each reply came from asking the element in question.
pub open spec fn replies_of<F: FnMut(usize) -> ButtonReply>(
    ask: F,
    nodes: Seq<NodeView>,
    replies: Seq<Seq<ButtonReply>>,
) -> bool {
    forall|k: int, j: int|
        0 <= k < replies.len() && 0 <= j < replies[k].len() ==> call_ensures(
            ask,
            (nodes[asked_in(nodes, surface::prompts(nodes)[k])[j]].element_ptr,),
            #[trigger] replies[k][j],
        )
}

/// The elements that grant the request, one for each prompt, or the first
/// refusal.
pub open spec fn allow_actions(nodes: Seq<NodeView>, replies: Seq<Seq<ButtonReply>>) -> Result<
    Seq<usize>,
    RefusalView,
> {
    let all = surface::prompts(nodes);
    if replies.len() > 0 && verdict(nodes, all[replies.len() - 1], replies.last()) is Err {
        Err(verdict(nodes, all[replies.len() - 1], replies.last())->Err_0)
    } else {
        Ok(Seq::new(replies.len(), |k: int| verdict(nodes, all[k], replies[k])->Ok_0))
    }
}

/// A list of actions or a refusal, by its contents.
pub open spec fn actions_view(r: Result<Vec<usize>, BrowserRefusal>) -> Result<
    Seq<usize>,
    RefusalView,
> {
    match r {
        Ok(actions) => Ok(actions@),
        Err(refused) => Err(refused@),
    }
}

fn can_invoke(node: &UiaNode) -> (can: bool)
    ensures
        can == node@.actions.contains("invoke"@),
{
    let mut i: usize = 0;
    while i < node.actions.len()
        invariant
            i <= node.actions@.len(),
            forall|j: int| 0 <= j < i ==> (#[trigger] node.actions@[j])@ != "invoke"@,
        decreases node.actions@.len() - i,
    {
        if same_text(node.actions[i].as_str(), "invoke") {
            assert(node@.actions[i as int] == "invoke"@);
            return true;
        }
        i = i + 1;
    }
    false
}

fn find_dialog_buttons(nodes: &[UiaNode], start: usize, end: usize) -> (found: Vec<usize>)
    requires
        start < end <= nodes@.len(),
    ensures
        found@.map_values(|i: usize| i as int) == dialog_buttons(
            node::rows(nodes@),
            start as int,
            end as int,
        ),
        forall|j: int|
            0 <= j < found@.len() ==> is_dialog_button(
                node::rows(nodes@),
                #[trigger] found@[j] as int,
            ) && start < found@[j] < end,
{
    let ghost all = node::rows(nodes@);
    let mut found: Vec<usize> = Vec::new();
    let mut i: usize = start + 1;
    assert(found@.map_values(|i: usize| i as int) =~= dialog_buttons(all, start as int, i as int));
    while i < end
        invariant
            all == node::rows(nodes@),
            start < i <= end <= nodes@.len(),
            found@.map_values(|i: usize| i as int) == dialog_buttons(all, start as int, i as int),
            forall|j: int|
                0 <= j < found@.len() ==> is_dialog_button(all, #[trigger] found@[j] as int)
                    && start < found@[j] < end,
        decreases end - i,
    {
        let node = &nodes[i];
        assert(all[i as int] == node@);
        if is_trusted_prompt_node(nodes, node) && same_text(node.control_type.as_str(), "Button")
            && can_invoke(node) && node.element_ptr != 0 && node.rect.is_some() {
            let ghost before = found@;
            found.push(i);
            assert(found@.map_values(|i: usize| i as int) =~= before.map_values(
                |i: usize| i as int,
            ).push(i as int));
        }
        i = i + 1;
    }
    found
}

fn stands_where_another(found: &Vec<ConsentButtonCandidate>, rect: Rect) -> (taken: bool)
    ensures
        taken == exists|j: int| 0 <= j < found@.len() && (#[trigger] found@[j]).rect == rect,
{
    let mut i: usize = 0;
    while i < found.len()
        invariant
            i <= found@.len(),
            forall|j: int| 0 <= j < i ==> (#[trigger] found@[j]).rect != rect,
        decreases found@.len() - i,
    {
        let other = found[i].rect;
        if other.0 == rect.0 && other.1 == rect.1 && other.2 == rect.2 && other.3 == rect.3 {
            assert(found@[i as int].rect == rect);
            return true;
        }
        i = i + 1;
    }
    false
}

/// Whether pressing `element` presses a live native button below the root of a
/// prompt: row `row`, in the prompt rooted at row `root`.
pub open spec fn is_prompt_button(
    nodes: Seq<NodeView>,
    element: usize,
    root: int,
    row: int,
) -> bool {
    &&& 0 <= root < nodes.len()
    &&& surface::is_prompt_root(nodes, root)
    &&& surface::in_subtree(nodes, root, row)
    &&& is_dialog_button(nodes, row)
    &&& nodes[row].element_ptr == element
}

/// Whether every element that may be asked, the live native buttons below the
/// roots of prompts, can be asked. No other element is ever asked.
pub open spec fn can_ask<F: FnMut(usize) -> ButtonReply>(ask: F, nodes: Seq<NodeView>) -> bool {
    forall|element: usize, root: int, row: int| #[trigger]
        is_prompt_button(nodes, element, root, row) ==> call_requires(ask, (element,))
}

/// The elements that grant the request, one for each prompt of the tree.
/// `properties` asks a live element for its class and whether it has the
/// keyboard focus.
pub fn structural_allow_actions_with<F>(nodes: &[UiaNode], properties: F) -> (actions: Result<
    Vec<usize>,
    BrowserRefusal,
>) where F: FnMut(usize) -> Result<(String, bool), BrowserRefusal>
    requires
        can_ask(properties, node::rows(nodes@)),
    ensures
        exists|replies: Seq<Seq<ButtonReply>>| #[trigger]
            is_transcript(node::rows(nodes@), replies) && replies_of(
                properties,
                node::rows(nodes@),
                replies,
            ) && actions_view(actions) == allow_actions(node::rows(nodes@), replies),
{
    let mut ask = properties;
    let ghost all = node::rows(nodes@);
    let surfaces = native_prompt_surfaces(nodes);
    let ghost prompts = surface::prompts(all);
    let mut matches: Vec<usize> = Vec::new();
    let ghost mut replies: Seq<Seq<ButtonReply>> = Seq::empty();
    let mut k: usize = 0;
    while k < surfaces.len()
        invariant
            all == node::rows(nodes@),
            prompts == surface::prompts(all),
            surface::spans(surfaces@) == prompts,
            ask == properties,
            can_ask(ask, all),
            k <= surfaces@.len(),
            replies.len() == k,
            matches@.len() == k,
            replies_of(properties, all, replies),
            forall|i: int|
                0 <= i < k ==> asks_in_order(all, prompts[i], #[trigger] replies[i]) && verdict(
                    all,
                    prompts[i],
                    replies[i],
                ) == Ok::<usize, RefusalView>(matches@[i]),
        decreases surfaces@.len() - k,
    {
        let (start, end) = surfaces[k];
        assert(prompts[k as int] == (start as int, end as int));
        proof {
            surface::lemma_prompt_bounds(all, k as int);
        }
        let buttons = find_dialog_buttons(nodes, start, end);
        let ghost asked = asked_in(all, prompts[k as int]);
        let mut found: Vec<ConsentButtonCandidate> = Vec::new();
        let ghost mut answers: Seq<ButtonReply> = Seq::empty();
        let mut j: usize = 0;
        while j < buttons.len()
            invariant
                all == node::rows(nodes@),
                prompts == surface::prompts(all),
                0 <= k < prompts.len(),
                asked == asked_in(all, prompts[k as int]),
                asked == buttons@.map_values(|i: usize| i as int),
                end <= nodes@.len(),
                forall|i: int|
                    0 <= i < buttons@.len() ==> is_dialog_button(all, #[trigger] buttons@[i] as int)
                        && start < buttons@[i] < end,
                ask == properties,
                can_ask(ask, all),
                prompts[k as int] == (start as int, end as int),
                j <= buttons@.len(),
                answers.len() == j,
                forall|i: int| 0 <= i < j ==> (#[trigger] answers[i]) is Ok,
                forall|i: int|
                    0 <= i < j ==> call_ensures(
                        properties,
                        (all[asked[i]].element_ptr,),
                        #[trigger] answers[i],
                    ),
                found@ == candidates(all, asked, answers),
                replies.len() == k,
                matches@.len() == k,
                replies_of(properties, all, replies),
                forall|i: int|
                    0 <= i < k ==> asks_in_order(all, prompts[i], #[trigger] replies[i]) && verdict(
                        all,
                        prompts[i],
                        replies[i],
                    ) == Ok::<usize, RefusalView>(matches@[i]),
            decreases buttons@.len() - j,
        {
            let node = &nodes[buttons[j]];
            assert(is_dialog_button(all, buttons@[j as int] as int));
            assert(asked[j as int] == buttons@[j as int]);
            assert(all[asked[j as int]] == node@);
            proof {
                surface::lemma_prompt_bounds(all, k as int);
                surface::lemma_end_of_subtree(all, start as int);
                assert(surface::in_subtree(all, start as int, asked[j as int]));
                assert(is_prompt_button(all, node.element_ptr, start as int, asked[j as int]));
            }
            let reply = ask(node.element_ptr);
            let ghost before = answers;
            proof {
                answers = answers.push(reply);
                assert(answers.drop_last() =~= before);
            }
            match reply {
                Ok((class_name, has_keyboard_focus)) => {
                    if let Some(rect) = node.rect {
                        if same_text(class_name.as_str(), CHROMIUM_DIALOG_BUTTON_CLASS) && rect.0
                            < rect.2 && rect.1 < rect.3 && !stands_where_another(&found, rect) {
                            found.push(
                                ConsentButtonCandidate {
                                    element_ptr: node.element_ptr,
                                    rect,
                                    has_keyboard_focus,
                                },
                            );
                        }
                    }
                },
                Err(refused) => {
                    proof {
                        lemma_replies_push(properties, all, replies, answers);
                        let ended = replies.push(answers);
                        assert(ended.drop_last() =~= replies);
                        assert(is_transcript(all, ended));
                    }
                    return Err(refused);
                },
            }
            j = j + 1;
        }
        let ghost earlier = replies;
        proof {
            lemma_replies_push(properties, all, replies, answers);
            replies = replies.push(answers);
            assert(asks_in_order(all, prompts[k as int], answers));
        }
        match select_language_independent_allow(found.as_slice()) {
            Ok(element) => {
                matches.push(element);
            },
            Err(refused) => {
                assert(is_transcript(all, replies));
                return Err(refused);
            },
        }
        k = k + 1;
    }
    proof {
        assert(surfaces@.len() == surface::spans(surfaces@).len());
        assert(is_transcript(all, replies));
        assert(allow_actions(all, replies)->Ok_0 =~= matches@);
    }
    Ok(matches)
}

proof fn lemma_replies_push<F: FnMut(usize) -> ButtonReply>(
    ask: F,
    nodes: Seq<NodeView>,
    replies: Seq<Seq<ButtonReply>>,
    answers: Seq<ButtonReply>,
)
    requires
        replies_of(ask, nodes, replies),
        forall|j: int|
            0 <= j < answers.len() ==> call_ensures(
                ask,
                (nodes[asked_in(nodes, surface::prompts(nodes)[replies.len() as int])[j]].element_ptr,),
                #[trigger] answers[j],
            ),
    ensures
        replies_of(ask, nodes, replies.push(answers)),
{
    let longer = replies.push(answers);
    assert forall|k: int, j: int| 0 <= k < longer.len() && 0 <= j < longer[k].len() implies
        call_ensures(
        ask,
        (nodes[asked_in(nodes, surface::prompts(nodes)[k])[j]].element_ptr,),
        #[trigger] longer[k][j],
    ) by {
        if k < replies.len() {
            assert(longer[k] == replies[k]);
            assert(longer[k][j] == replies[k][j]);
        } else {
            assert(longer[k] == answers);
            assert(longer[k][j] == answers[j]);
        }
    }
}

/// Whether all actions are the same one.
pub open spec fn all_same(actions: Seq<usize>) -> bool {
    forall|i: int| 0 <= i < actions.len() ==> #[trigger] actions[i] == actions[0]
}

/// The one action there is, repeats aside: none where there is no action, and a
/// refusal where there are two.
pub open spec fn sole_action(actions: Result<Seq<usize>, RefusalView>) -> Result<
    Option<usize>,
    RefusalView,
> {
    match actions {
        Err(refused) => Err(refused),
        Ok(elements) => if elements.len() == 0 {
            Ok(None)
        } else if all_same(elements) {
            Ok(Some(elements[0]))
        } else {
            Err(
                refusal::wrong_target(
                    "multiple bound native Chromium consent prompts exposed structural allow actions"@,
                ),
            )
        },
    }
}

/// How many different actions there are, as far as it matters.
pub enum DistinctActions {
    Nothing,
    One(usize),
    Several,
}

/// Sums up a list of actions, each counted once however often it occurs.
pub fn distinct_actions(actions: &[usize]) -> (distinct: DistinctActions)
    ensures
        match distinct {
            DistinctActions::Nothing => actions@.len() == 0,
            DistinctActions::One(element) => actions@.len() > 0 && all_same(actions@) && element
                == actions@[0],
            DistinctActions::Several => !all_same(actions@),
        },
{
    if actions.len() == 0 {
        return DistinctActions::Nothing;
    }
    let first = actions[0];
    let mut i: usize = 1;
    while i < actions.len()
        invariant
            1 <= i <= actions@.len(),
            first == actions@[0],
            forall|j: int| 0 <= j < i ==> #[trigger] actions@[j] == first,
        decreases actions@.len() - i,
    {
        if actions[i] != first {
            assert(actions@[i as int] != actions@[0]);
            return DistinctActions::Several;
        }
        i = i + 1;
    }
    DistinctActions::One(first)
}

/// The one element of the tree that grants the request, where the tree shows a
/// prompt. `properties` asks a live element for its class and whether it has
/// the keyboard focus.
pub fn exact_allow_button_with<F>(nodes: &[UiaNode], properties: F) -> (button: Result<
    Option<usize>,
    BrowserRefusal,
>) where F: FnMut(usize) -> Result<(String, bool), BrowserRefusal>
    requires
        can_ask(properties, node::rows(nodes@)),
    ensures
        exists|replies: Seq<Seq<ButtonReply>>| #[trigger]
            is_transcript(node::rows(nodes@), replies) && replies_of(
                properties,
                node::rows(nodes@),
                replies,
            ) && refusal::outcome_view(button) == sole_action(
                allow_actions(node::rows(nodes@), replies),
            ),
{
    match structural_allow_actions_with(nodes, properties) {
        Ok(matches) => match distinct_actions(matches.as_slice()) {
            DistinctActions::Nothing => Ok(None),
            DistinctActions::One(element) => Ok(Some(element)),
            DistinctActions::Several => Err(
                refusal(
                    BrowserRefusalCode::BrowserWrongTargetRefused,
                    "multiple bound native Chromium consent prompts exposed structural allow actions",
                ),
            ),
        },
        Err(refused) => Err(refused),
    }
}

/// The dialog buttons of a range are rows strictly inside it, in order.
pub proof fn lemma_dialog_buttons(nodes: Seq<NodeView>, start: int, end: int)
    ensures
        forall|j: int|
            0 <= j < dialog_buttons(nodes, start, end).len() ==> {
                let row = #[trigger] dialog_buttons(nodes, start, end)[j];
                start < row < end && is_dialog_button(nodes, row)
            },
        forall|i: int, j: int|
            0 <= i < j < dialog_buttons(nodes, start, end).len() ==> #[trigger] dialog_buttons(
                nodes,
                start,
                end,
            )[i] < #[trigger] dialog_buttons(nodes, start, end)[j],
        forall|row: int|
            start < row < end && #[trigger] is_dialog_button(nodes, row) ==> dialog_buttons(
                nodes,
                start,
                end,
            ).contains(row),
    decreases end - start,
{
    if end > start + 1 {
        lemma_dialog_buttons(nodes, start, end - 1);
        let before = dialog_buttons(nodes, start, end - 1);
        let after = dialog_buttons(nodes, start, end);
        assert forall|row: int| start < row < end && #[trigger] is_dialog_button(
            nodes,
            row,
        ) implies after.contains(row) by {
            if row == end - 1 {
                assert(after.last() == row);
            } else {
                assert(before.contains(row));
                let j = choose|j: int| 0 <= j < before.len() && before[j] == row;
                assert(after[j] == row);
            }
        }
    }
}

/// Whether a candidate stands for the row `asked[j]`, whose element answered
/// that it is a button of Chromium's dialogs.
pub open spec fn stands_for(
    nodes: Seq<NodeView>,
    asked: Seq<int>,
    answers: Seq<ButtonReply>,
    button: ConsentButtonCandidate,
    j: int,
) -> bool {
    &&& 0 <= j < answers.len()
    &&& answers[j] matches Ok((class_name, focused)) && class_name@ == CHROMIUM_DIALOG_BUTTON_CLASS@
        && focused == button.has_keyboard_focus
    &&& nodes[asked[j]].element_ptr == button.element_ptr
    &&& nodes[asked[j]].rect->0 == button.rect
}

/// Whether a candidate stands for some row that was asked.
pub open spec fn stands_for_some(
    nodes: Seq<NodeView>,
    asked: Seq<int>,
    answers: Seq<ButtonReply>,
    button: ConsentButtonCandidate,
) -> bool {
    exists|j: int| #[trigger] stands_for(nodes, asked, answers, button, j)
}

/// Every candidate stands for a row whose element answered that it is a button
/// of Chromium's dialogs, has an area, and shares its place with no other.
pub proof fn lemma_candidates(nodes: Seq<NodeView>, asked: Seq<int>, answers: Seq<ButtonReply>)
    requires
        answers.len() <= asked.len(),
        forall|j: int| 0 <= j < answers.len() ==> (#[trigger] answers[j]) is Ok,
    ensures
        buttons::all_proper(candidates(nodes, asked, answers)),
        forall|i: int|
            0 <= i < candidates(nodes, asked, answers).len() ==> stands_for_some(
                nodes,
                asked,
                answers,
                #[trigger] candidates(nodes, asked, answers)[i],
            ),
        forall|i: int, j: int|
            0 <= i < j < candidates(nodes, asked, answers).len() ==> (#[trigger] candidates(
                nodes,
                asked,
                answers,
            )[i]).rect != (#[trigger] candidates(nodes, asked, answers)[j]).rect,
    decreases answers.len(),
{
    if answers.len() > 0 {
        let front = answers.drop_last();
        assert forall|j: int| 0 <= j < front.len() implies (#[trigger] front[j]) is Ok by {
            assert(front[j] == answers[j]);
        }
        lemma_candidates(nodes, asked, front);
        let before = candidates(nodes, asked, front);
        let after = candidates(nodes, asked, answers);
        let last = answers.len() - 1;
        assert forall|i: int| 0 <= i < after.len() implies stands_for_some(
            nodes,
            asked,
            answers,
            #[trigger] after[i],
        ) by {
            if i < before.len() {
                assert(after[i] == before[i]);
                assert(stands_for_some(nodes, asked, front, before[i]));
                let j = choose|j: int| #[trigger] stands_for(nodes, asked, front, before[i], j);
                assert(front[j] == answers[j]);
                assert(stands_for(nodes, asked, answers, after[i], j));
            } else {
                assert(stands_for(nodes, asked, answers, after[i], last));
            }
        }
    }
}

/// A row that stands where a candidate already stands adds nothing, so rows
/// that a walk lists twice count once.
pub proof fn lemma_repeated_row_adds_nothing(
    found: Seq<ConsentButtonCandidate>,
    i: int,
    node: NodeView,
    class_name: Seq<char>,
    focused: bool,
)
    requires
        0 <= i < found.len(),
        node.rect == Some(found[i].rect),
    ensures
        with_button(found, node, class_name, focused) == found,
{
}

/// Whether row `row` of a prompt was asked and answered, as answer `j`, that it
/// is a button of Chromium's dialogs.
pub open spec fn answered_as_dialog_button(
    nodes: Seq<NodeView>,
    prompt: (int, int),
    answers: Seq<ButtonReply>,
    row: int,
    j: int,
) -> bool {
    &&& 0 <= j < answers.len() <= asked_in(nodes, prompt).len()
    &&& asked_in(nodes, prompt)[j] == row
    &&& answers[j] matches Ok((class_name, _)) && class_name@ == CHROMIUM_DIALOG_BUTTON_CLASS@
}

/// Every action is a live native button below the root of its prompt that
/// answered that it is a button of Chromium's dialogs, and so never a button
/// outside the prompts or one in a page.
pub proof fn lemma_actions_are_prompt_buttons(
    nodes: Seq<NodeView>,
    replies: Seq<Seq<ButtonReply>>,
    k: int,
)
    requires
        is_transcript(nodes, replies),
        allow_actions(nodes, replies) is Ok,
        0 <= k < (allow_actions(nodes, replies)->Ok_0).len(),
    ensures
        exists|row: int, j: int|
            is_prompt_button(
                nodes,
                (allow_actions(nodes, replies)->Ok_0)[k],
                surface::prompts(nodes)[k].0,
                row,
            ) && #[trigger] answered_as_dialog_button(
                nodes,
                surface::prompts(nodes)[k],
                replies[k],
                row,
                j,
            ),
{
    let all = surface::prompts(nodes);
    let (start, end) = all[k];
    let asked = asked_in(nodes, all[k]);
    let answers = replies[k];
    let element = (allow_actions(nodes, replies)->Ok_0)[k];
    assert(asks_in_order(nodes, all[k], answers));
    assert(verdict(nodes, all[k], answers) == Ok::<usize, RefusalView>(element));
    assert forall|j: int| 0 <= j < answers.len() implies (#[trigger] answers[j]) is Ok by {
        if j == answers.len() - 1 {
            assert(answers.last() is Ok);
        }
    }
    lemma_candidates(nodes, asked, answers);
    let found = candidates(nodes, asked, answers);
    buttons::lemma_allow_is_the_middle_button(found);
    let (allow, cancel, extra) = choose|allow: int, cancel: int, extra: int| #[trigger]
        buttons::plays_roles(found, allow, cancel, extra) && buttons::chosen_allow(found) == Ok::<
            usize,
            RefusalView,
        >(found[allow].element_ptr);
    let button = found[allow];
    assert(stands_for_some(nodes, asked, answers, button));
    let j = choose|j: int| #[trigger] stands_for(nodes, asked, answers, button, j);
    lemma_dialog_buttons(nodes, start, end);
    surface::lemma_prompt_bounds(nodes, k);
    surface::lemma_end_of_subtree(nodes, start);
    let row = asked[j];
    assert(surface::in_subtree(nodes, start, row));
    assert(is_prompt_button(nodes, element, start, row));
    assert(answered_as_dialog_button(nodes, all[k], answers, row, j));
}

/// The sole element that grants the request is a live native button below the
/// root of a prompt.
pub proof fn lemma_sole_action_is_prompt_button(
    nodes: Seq<NodeView>,
    replies: Seq<Seq<ButtonReply>>,
    element: usize,
)
    requires
        is_transcript(nodes, replies),
        sole_action(allow_actions(nodes, replies)) == Ok::<Option<usize>, RefusalView>(
            Some(element),
        ),
    ensures
        exists|root: int, row: int| #[trigger] is_prompt_button(nodes, element, root, row),
{
    lemma_actions_are_prompt_buttons(nodes, replies, 0);
    let (row, j) = choose|row: int, j: int|
        is_prompt_button(nodes, element, surface::prompts(nodes)[0].0, row) && #[trigger]
            answered_as_dialog_button(nodes, surface::prompts(nodes)[0], replies[0], row, j);
    assert(is_prompt_button(nodes, element, surface::prompts(nodes)[0].0, row));
}

/// The contents of what an element answered.
pub open spec fn reply_view(reply: ButtonReply) -> Result<(Seq<char>, bool), RefusalView> {
    match reply {
        Ok((class_name, focused)) => Ok((class_name@, focused)),
        Err(refused) => Err(refused@),
    }
}

/// Whether every reply is what `answer` gives for the element that was asked.
pub open spec fn replies_are(
    answer: spec_fn(usize) -> Result<(Seq<char>, bool), RefusalView>,
    nodes: Seq<NodeView>,
    replies: Seq<Seq<ButtonReply>>,
) -> bool {
    forall|k: int, j: int|
        0 <= k < replies.len() && 0 <= j < replies[k].len() ==> reply_view(
            #[trigger] replies[k][j],
        ) == answer(nodes[asked_in(nodes, surface::prompts(nodes)[k])[j]].element_ptr)
}

proof fn lemma_equal_answers_give_equal_candidates(
    nodes: Seq<NodeView>,
    asked: Seq<int>,
    a: Seq<ButtonReply>,
    b: Seq<ButtonReply>,
)
    requires
        a.len() == b.len(),
        forall|j: int|
            0 <= j < a.len() ==> (#[trigger] a[j]) is Ok && reply_view(a[j]) == reply_view(b[j]),
    ensures
        candidates(nodes, asked, a) == candidates(nodes, asked, b),
    decreases a.len(),
{
    if a.len() > 0 {
        assert forall|j: int| 0 <= j < a.len() - 1 implies (#[trigger] a.drop_last()[j]) is Ok
            && reply_view(a.drop_last()[j]) == reply_view(b.drop_last()[j]) by {
            assert(a.drop_last()[j] == a[j] && b.drop_last()[j] == b[j]);
        }
        lemma_equal_answers_give_equal_candidates(nodes, asked, a.drop_last(), b.drop_last());
        let last = a.len() - 1;
        assert(a[last] is Ok && reply_view(a[last]) == reply_view(b[last]));
    }
}

proof fn lemma_equal_verdicts(
    answer: spec_fn(usize) -> Result<(Seq<char>, bool), RefusalView>,
    nodes: Seq<NodeView>,
    a: Seq<Seq<ButtonReply>>,
    b: Seq<Seq<ButtonReply>>,
    k: int,
)
    requires
        is_transcript(nodes, a),
        is_transcript(nodes, b),
        replies_are(answer, nodes, a),
        replies_are(answer, nodes, b),
        0 <= k < a.len(),
        k < b.len(),
    ensures
        verdict(nodes, surface::prompts(nodes)[k], a[k]) == verdict(
            nodes,
            surface::prompts(nodes)[k],
            b[k],
        ),
{
    let prompt = surface::prompts(nodes)[k];
    let asked = asked_in(nodes, prompt);
    let (x, y) = (a[k], b[k]);
    assert(asks_in_order(nodes, prompt, x) && asks_in_order(nodes, prompt, y));
    assert forall|j: int| 0 <= j < x.len() && j < y.len() implies reply_view(#[trigger] x[j])
        == reply_view(y[j]) by {
        assert(a[k][j] == x[j] && b[k][j] == y[j]);
        assert(reply_view(a[k][j]) == answer(nodes[asked[j]].element_ptr));
        assert(reply_view(b[k][j]) == answer(nodes[asked[j]].element_ptr));
    }
    if x.len() < y.len() {
        assert(x.last() is Err);
        assert(y[x.len() - 1] is Ok);
        assert(reply_view(x[x.len() - 1]) == reply_view(y[x.len() - 1]));
    }
    if y.len() < x.len() {
        assert(y.last() is Err);
        assert(x[y.len() - 1] is Ok);
        assert(reply_view(x[y.len() - 1]) == reply_view(y[y.len() - 1]));
    }
    if x.len() > 0 {
        let last = x.len() - 1;
        assert(reply_view(x[last]) == reply_view(y[last]));
    }
    if x.len() == 0 || x.last() is Ok {
        assert forall|j: int| 0 <= j < x.len() implies (#[trigger] x[j]) is Ok by {}
        lemma_equal_answers_give_equal_candidates(nodes, asked, x, y);
    }
}

/// What the elements answer decides the actions: as long as every element gives
/// one answer whenever it is asked, a tree has only one outcome.
pub proof fn lemma_answers_decide_actions(
    answer: spec_fn(usize) -> Result<(Seq<char>, bool), RefusalView>,
    nodes: Seq<NodeView>,
    a: Seq<Seq<ButtonReply>>,
    b: Seq<Seq<ButtonReply>>,
)
    requires
        is_transcript(nodes, a),
        is_transcript(nodes, b),
        replies_are(answer, nodes, a),
        replies_are(answer, nodes, b),
    ensures
        a.len() == b.len(),
        allow_actions(nodes, a) == allow_actions(nodes, b),
{
    let all = surface::prompts(nodes);
    assert forall|k: int| 0 <= k < a.len() && k < b.len() implies verdict(
        nodes,
        all[k],
        #[trigger] a[k],
    ) == verdict(nodes, all[k], b[k]) by {
        lemma_equal_verdicts(answer, nodes, a, b, k);
    }
    if a.len() < b.len() {
        assert(verdict(nodes, all[a.len() - 1], a[a.len() - 1]) is Err);
        assert(verdict(nodes, all[a.len() - 1], b[a.len() - 1]) is Ok);
    }
    if b.len() < a.len() {
        assert(verdict(nodes, all[b.len() - 1], b[b.len() - 1]) is Err);
        assert(verdict(nodes, all[b.len() - 1], a[b.len() - 1]) is Ok);
    }
    if a.len() > 0 {
        assert(verdict(nodes, all[a.len() - 1], a[a.len() - 1]) == verdict(
            nodes,
            all[a.len() - 1],
            b[a.len() - 1],
        ));
    }
    if allow_actions(nodes, a) is Ok {
        assert(allow_actions(nodes, a)->Ok_0 =~= allow_actions(nodes, b)->Ok_0);
    }
}

/// No action is found exactly where the tree shows no prompt, and then nothing is
/// asked: a prompt that is shown is either answered or refused.
pub proof fn lemma_no_action_only_without_prompt(
    nodes: Seq<NodeView>,
    replies: Seq<Seq<ButtonReply>>,
)
    requires
        is_transcript(nodes, replies),
    ensures
        sole_action(allow_actions(nodes, replies)) == Ok::<Option<usize>, RefusalView>(None)
            <==> surface::prompts(nodes).len() == 0,
        surface::prompts(nodes).len() == 0 ==> replies.len() == 0,
{
}

/// Actions are counted once however often they are found: the sole action
/// depends on nothing but which actions there are.
pub proof fn lemma_repeated_actions_count_once(a: Seq<usize>, b: Seq<usize>)
    requires
        forall|element: usize| a.contains(element) <==> b.contains(element),
    ensures
        sole_action(Ok(a)) == sole_action(Ok(b)),
{
    if a.len() > 0 {
        assert(a.contains(a[0]));
        assert(b.contains(a[0]));
    }
    if b.len() > 0 {
        assert(b.contains(b[0]));
        assert(a.contains(b[0]));
    }
    if a.len() > 0 && b.len() > 0 {
        if all_same(b) {
            lemma_all_same_carries_over(b, a);
        }
        if all_same(a) {
            lemma_all_same_carries_over(a, b);
            let i = choose|i: int| 0 <= i < a.len() && a[i] == b[0];
            assert(a[i] == a[0]);
        }
    }
}

proof fn lemma_all_same_carries_over(a: Seq<usize>, b: Seq<usize>)
    requires
        forall|element: usize| a.contains(element) <==> b.contains(element),
        a.len() > 0,
        b.len() > 0,
        all_same(a),
    ensures
        all_same(b),
{
    assert forall|i: int| 0 <= i < b.len() implies #[trigger] b[i] == b[0] by {
        assert(b.contains(b[i]) && b.contains(b[0]));
        let p = choose|p: int| 0 <= p < a.len() && a[p] == b[i];
        let q = choose|q: int| 0 <= q < a.len() && a[q] == b[0];
        assert(a.contains(b[i]) && a.contains(b[0]));
        assert(a[p] == a[0] && a[q] == a[0]);
    }
}

} // verus!
