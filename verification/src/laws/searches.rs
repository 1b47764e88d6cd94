//! What the searches give back that ask elements and walk windows, told by what
//! they are given and by what they were answered.

use vstd::prelude::*;

use crate::actions::{
    exact_allow_button_with, is_transcript, replies_of, structural_allow_actions_with, ButtonReply,
};
use crate::laws::actions::{
    gives, is_failure, is_outcome, lemma_every_prompt_is_answered, lemma_sole_action_is, refuses,
};
use crate::look::{look_for_button, Look};
use crate::native::{
    is_z_order_walk, owned_with_ranks, target_owned_windows_by_z_order, WindowFacts,
};
use crate::node::{self, NodeView, UiaNode};
use crate::refusal::{BrowserRefusal, BrowserRefusalCode};
use crate::session::ConsentEvent;
use crate::surface::prompts;
use crate::target::{
    self, exact_allow_button_for_target, exact_allow_button_from_owned_prompt_windows,
    settle_owned_prompts, settle_target_tree, Inquiry, OwnedPromptSelection, PromptCandidate,
    SettledTrees, TargetSelection, WindowVisit,
};

verus! {

/// Whether every prompt of a tree gave its element, by these answers.
pub open spec fn all_gave(
    rows: Seq<NodeView>,
    replies: Seq<Seq<ButtonReply>>,
    elements: Seq<usize>,
) -> bool {
    &&& replies.len() == prompts(rows).len()
    &&& elements.len() == prompts(rows).len()
    &&& forall|k: int|
        0 <= k < elements.len() ==> #[trigger] gives(
            rows,
            prompts(rows)[k],
            replies[k],
            elements[k],
        )
}

/// Whether a prompt of a tree was refused, by these answers.
pub open spec fn one_refused(
    rows: Seq<NodeView>,
    replies: Seq<Seq<ButtonReply>>,
    refused: BrowserRefusal,
) -> bool {
    &&& 0 < replies.len() <= prompts(rows).len()
    &&& refuses(rows, prompts(rows)[replies.len() - 1], replies.last(), refused@)
}

/// `structural_allow_actions_with` asks the elements of the prompts, and gives the
/// element of every prompt or the first refusal.
pub proof fn lemma_structural_allow_actions_with_gives<
    F: FnMut(usize) -> Result<(String, bool), BrowserRefusal>,
>(nodes: &[UiaNode], ask: F, found: Result<Vec<usize>, BrowserRefusal>) -> (replies: Seq<
    Seq<ButtonReply>,
>)
    requires
        call_ensures(structural_allow_actions_with::<F>, (nodes, ask), found),
    ensures
        is_transcript(node::rows(nodes@), replies),
        replies_of(ask, node::rows(nodes@), replies),
        found matches Ok(elements) ==> all_gave(node::rows(nodes@), replies, elements@),
        found matches Err(refused) ==> one_refused(node::rows(nodes@), replies, refused),
{
    let rows = node::rows(nodes@);
    let replies = choose|replies: Seq<Seq<ButtonReply>>| #[trigger]
        is_transcript(rows, replies) && replies_of(ask, rows, replies)
            && crate::actions::actions_view(found) == crate::actions::allow_actions(rows, replies);
    lemma_every_prompt_is_answered(rows, replies);
    match found {
        Ok(elements) => {
            assert(is_outcome(crate::actions::allow_actions(rows, replies), elements@));
        },
        Err(refused) => {
            assert(is_failure(crate::actions::allow_actions(rows, replies), refused@));
        },
    }
    replies
}

/// `exact_allow_button_with` gives nothing where there is no prompt, the element that
/// every prompt gave where it is one and the same, and refuses two different ones.
pub proof fn lemma_exact_allow_button_with_gives<
    F: FnMut(usize) -> Result<(String, bool), BrowserRefusal>,
>(nodes: &[UiaNode], ask: F, button: Result<Option<usize>, BrowserRefusal>) -> (answers: (
    Seq<Seq<ButtonReply>>,
    Seq<usize>,
))
    requires
        call_ensures(exact_allow_button_with::<F>, (nodes, ask), button),
    ensures
        is_transcript(node::rows(nodes@), answers.0),
        replies_of(ask, node::rows(nodes@), answers.0),
        button matches Ok(None) ==> prompts(node::rows(nodes@)).len() == 0,
        prompts(node::rows(nodes@)).len() == 0 ==> button matches Ok(None),
        button matches Ok(Some(element)) ==> prompts(node::rows(nodes@)).len() > 0 && all_gave(
            node::rows(nodes@),
            answers.0,
            answers.1,
        ) && forall|k: int| 0 <= k < answers.1.len() ==> #[trigger] answers.1[k] == element,
        button matches Err(refused) ==> one_refused(node::rows(nodes@), answers.0, refused) || {
            &&& all_gave(node::rows(nodes@), answers.0, answers.1)
            &&& exists|i: int, j: int|
                0 <= i < answers.1.len() && 0 <= j < answers.1.len() && #[trigger] answers.1[i]
                    != #[trigger] answers.1[j]
            &&& refused.code == BrowserRefusalCode::BrowserWrongTargetRefused
            &&& refused.message@
                == "multiple bound native Chromium consent prompts exposed structural allow actions"@
        },
{
    let rows = node::rows(nodes@);
    let replies = choose|replies: Seq<Seq<ButtonReply>>| #[trigger]
        is_transcript(rows, replies) && replies_of(ask, rows, replies)
            && crate::refusal::outcome_view(button) == crate::actions::sole_action(
            crate::actions::allow_actions(rows, replies),
        );
    let outcome = crate::actions::allow_actions(rows, replies);
    lemma_every_prompt_is_answered(rows, replies);
    match outcome {
        Ok(elements) => {
            assert(is_outcome(outcome, elements));
            lemma_sole_action_is(elements, arbitrary());
            if button matches Ok(Some(element)) {
                assert(crate::laws::actions::is_sole(
                    crate::actions::sole_action(Ok(elements)),
                    button->Ok_0->0,
                ));
            }
            (replies, elements)
        },
        Err(why) => {
            assert(is_failure(outcome, why));
            lemma_sole_action_is(Seq::empty(), why);
            (replies, Seq::empty())
        },
    }
}

/// `target_owned_windows_by_z_order` lists what was found owned of the windows that
/// were looked at.
pub proof fn lemma_target_owned_windows_by_z_order_gives<
    O: FnMut(u64) -> bool,
    N: FnMut(u64) -> u64,
>(top: u64, owned: O, below: N, windows: Vec<(u64, usize)>) -> (seen: Seq<(u64, bool)>)
    requires
        call_ensures(target_owned_windows_by_z_order::<O, N>, (top, owned, below), windows),
    ensures
        is_z_order_walk(top, owned, below, seen),
        forall|window: u64, rank: usize| #[trigger]
            windows@.contains((window, rank)) <==> rank < seen.len() && seen[rank as int].0
                == window && seen[rank as int].1,
        forall|i: int, j: int|
            0 <= i < j < windows@.len() ==> (#[trigger] windows@[i]).1 < (
            #[trigger] windows@[j]).1,
{
    let seen = choose|seen: Seq<(u64, bool)>| #[trigger]
        is_z_order_walk(top, owned, below, seen) && windows@ == owned_with_ranks(seen);
    crate::laws::windows::lemma_windows_are_looked_at_from_the_top(top, owned, below, seen);
    crate::laws::windows::lemma_owned_windows_are_listed(seen);
    seen
}

/// `settle_owned_prompts` adds what it releases behind what was released before, and
/// `settle_target_tree` holds two trees for a button and none without.
pub proof fn lemma_settling_gives(
    found: Vec<PromptCandidate>,
    before: Vec<Vec<UiaNode>>,
    selection: OwnedPromptSelection,
    choice: TargetSelection,
    tree: Vec<UiaNode>,
    out: SettledTrees,
)
    requires
        call_ensures(settle_owned_prompts, (found, before), selection),
        call_ensures(settle_target_tree, (choice, tree), out),
    ensures
        target::button_view(selection.button) == target::settled(found@).0,
        selection.released@ == before@ + target::settled(found@).1,
        match choice.button {
            Ok(Some(button)) => {
                &&& out.button matches Ok(Some(element)) && element == button.element_ptr
                &&& out.held@ == seq![button.additional_nodes, tree]
                &&& out.released@ == choice.released@
            },
            Ok(None) => {
                &&& out.button matches Ok(None)
                &&& out.held@.len() == 0
                &&& out.released@ == choice.released@.push(tree)
            },
            Err(why) => {
                &&& out.button matches Err(refused) && refused == why
                &&& out.held@.len() == 0
                &&& out.released@ == choice.released@.push(tree)
            },
        },
{
}

/// `exact_allow_button_from_owned_prompt_windows` scans the windows it is given, and
/// gives what the scan decides.
pub proof fn lemma_exact_allow_button_from_owned_prompt_windows_gives<
    S,
    W: FnMut(S, Option<Vec<UiaNode>>, u64) -> (S, Vec<UiaNode>),
    P: FnMut(usize) -> Result<(String, bool), BrowserRefusal> + Copy,
    N: FnMut(u64) -> WindowFacts,
>(
    windows: &[(u64, usize)],
    pid: u32,
    walker: S,
    walk: W,
    ask: P,
    inspect: N,
    out: (S, OwnedPromptSelection),
) -> (visits: Seq<WindowVisit>)
    requires
        call_ensures(
            exact_allow_button_from_owned_prompt_windows::<S, W, P, N>,
            (windows, pid, walker, walk, ask, inspect),
            out,
        ),
    ensures
        target::is_scan(windows@, visits),
        target::visits_lead(windows@, walker, out.0, walk, ask, inspect, visits),
        target::button_view(out.1.button) == target::scanned(windows@, pid, visits).0,
        out.1.released@ == target::scanned(windows@, pid, visits).1,
{
    choose|visits: Seq<WindowVisit>| #[trigger]
        target::is_scan(windows@, visits) && target::visits_lead(
            windows@,
            walker,
            out.0,
            walk,
            ask,
            inspect,
            visits,
        ) && (target::button_view(out.1.button), out.1.released@) == target::scanned(
            windows@,
            pid,
            visits,
        )
}

/// `exact_allow_button_for_target` gives what the tree of the target decides, or a
/// scan where that is left to one.
pub proof fn lemma_exact_allow_button_for_target_gives<
    S,
    D: FnOnce() -> Vec<(u64, usize)>,
    W: FnMut(S, Option<Vec<UiaNode>>, u64) -> (S, Vec<UiaNode>),
    P: FnMut(usize) -> Result<(String, bool), BrowserRefusal> + Copy,
    N: FnMut(u64) -> WindowFacts,
>(
    nodes: &[UiaNode],
    pid: u32,
    owned_windows: D,
    walker: S,
    walk: W,
    ask: P,
    inspect: N,
    out: (S, TargetSelection),
) -> (inquiry: Inquiry)
    requires
        call_ensures(
            exact_allow_button_for_target::<S, D, W, P, N>,
            (nodes, pid, owned_windows, walker, walk, ask, inspect),
            out,
        ),
    ensures
        target::is_inquiry(nodes@, owned_windows, walker, out.0, walk, ask, inspect, inquiry),
        target::target_view(out.1.button) == inquiry.chosen(nodes@, pid).0,
        out.1.released@ == inquiry.chosen(nodes@, pid).1,
{
    choose|inquiry: Inquiry| #[trigger]
        target::is_inquiry(
            nodes@,
            owned_windows,
            walker,
            out.0,
            walk,
            ask,
            inspect,
            inquiry,
        ) && (target::target_view(out.1.button), out.1.released@) == inquiry.chosen(nodes@, pid)
}

/// `look_for_button` gives a look at the tree it is given.
pub proof fn lemma_look_for_button_gives<
    S,
    D: FnOnce() -> Vec<(u64, usize)>,
    W: FnMut(S, Option<Vec<UiaNode>>, u64) -> (S, Vec<UiaNode>),
    P: FnMut(usize) -> Result<(String, bool), BrowserRefusal> + Copy,
    N: FnMut(u64) -> WindowFacts,
>(
    tree: Vec<UiaNode>,
    pid: u32,
    owned_windows: D,
    walker: S,
    walk: W,
    ask: P,
    inspect: N,
    out: (S, ConsentEvent),
) -> (look: Look)
    requires
        call_ensures(
            look_for_button::<S, D, W, P, N>,
            (tree, pid, owned_windows, walker, walk, ask, inspect),
            out,
        ),
    ensures
        look.tree == tree,
        target::is_inquiry(
            tree@,
            owned_windows,
            walker,
            out.0,
            walk,
            ask,
            inspect,
            look.inquiry,
        ),
        look.gives(pid, out.1@),
        out.1 is Inspected,
{
    let inquiry = choose|inquiry: Inquiry| #[trigger]
        target::is_inquiry(
            tree@,
            owned_windows,
            walker,
            out.0,
            walk,
            ask,
            inspect,
            inquiry,
        ) && (Look { tree, inquiry }).gives(pid, out.1@);
    Look { tree, inquiry }
}

/// Every search can be made with elements, windows and walks that answer whatever
/// they are asked.
pub proof fn lemma_searches_can_be_made<
    S,
    D: FnOnce() -> Vec<(u64, usize)>,
    W: FnMut(S, Option<Vec<UiaNode>>, u64) -> (S, Vec<UiaNode>),
    P: FnMut(usize) -> Result<(String, bool), BrowserRefusal> + Copy,
    N: FnMut(u64) -> WindowFacts,
    O: FnMut(u64) -> bool,
    L: FnMut(u64) -> u64,
>(
    nodes: &[UiaNode],
    tree: Vec<UiaNode>,
    windows: &[(u64, usize)],
    pid: u32,
    top: u64,
    owned_windows: D,
    walker: S,
    walk: W,
    ask: P,
    inspect: N,
    owned: O,
    below: L,
)
    requires
        call_requires(owned_windows, ()),
        forall|s: S, unneeded: Option<Vec<UiaNode>>, window: u64| #[trigger]
            call_requires(walk, (s, unneeded, window)),
        forall|element: usize| #[trigger] call_requires(ask, (element,)),
        forall|window: u64| #[trigger] call_requires(inspect, (window,)),
        forall|window: u64| #[trigger] call_requires(owned, (window,)),
        forall|window: u64| #[trigger] call_requires(below, (window,)),
    ensures
        call_requires(structural_allow_actions_with::<P>, (nodes, ask)),
        call_requires(exact_allow_button_with::<P>, (nodes, ask)),
        call_requires(target_owned_windows_by_z_order::<O, L>, (top, owned, below)),
        call_requires(
            exact_allow_button_from_owned_prompt_windows::<S, W, P, N>,
            (windows, pid, walker, walk, ask, inspect),
        ),
        call_requires(
            exact_allow_button_for_target::<S, D, W, P, N>,
            (nodes, pid, owned_windows, walker, walk, ask, inspect),
        ),
        call_requires(
            look_for_button::<S, D, W, P, N>,
            (tree, pid, owned_windows, walker, walk, ask, inspect),
        ),
{
    crate::laws::scan::lemma_whatever_answers_can_be_scanned(
        nodes@,
        windows@,
        owned_windows,
        walker,
        walk,
        ask,
        inspect,
    );
    crate::laws::scan::lemma_whatever_answers_can_be_scanned(
        tree@,
        windows@,
        owned_windows,
        walker,
        walk,
        ask,
        inspect,
    );
}

} // verus!
