//! The one button that grants the request of a target window.

use vstd::prelude::*;

use crate::actions::{
    self, distinct_actions, exact_allow_button_with, structural_allow_actions_with, ButtonReply,
    DistinctActions,
};
use crate::native::{self, native_consent_action_evidence, WindowFacts};
use crate::node::{self, UiaNode};
use crate::owned::{
    self, select_unique_target_owned_topmost, NativeConsentActionEvidence,
};
use crate::refusal::{self, refusal, BrowserRefusal, BrowserRefusalCode, RefusalView};

verus! {

/// The button that grants the request, with the rows of the tree that keep its
/// element alive, where this is not the tree of the target window itself.
#[derive(Debug)]
pub struct ExactAllowButton {
    pub element_ptr: usize,
    pub additional_nodes: Vec<UiaNode>,
}

/// The contents of an `ExactAllowButton` or a refusal.
pub open spec fn button_view(r: Result<ExactAllowButton, BrowserRefusal>) -> Result<
    (usize, Seq<UiaNode>),
    RefusalView,
> {
    match r {
        Ok(button) => Ok((button.element_ptr, button.additional_nodes@)),
        Err(refused) => Err(refused@),
    }
}

/// A tree that was walked for a native window, and the evidence for the action
/// that was found in it.
pub type PromptCandidate = (NativeConsentActionEvidence, Vec<UiaNode>);

/// A choice between native windows, and the trees that are no longer needed
/// and whose elements are to be released.
#[derive(Debug)]
pub struct OwnedPromptSelection {
    pub button: Result<ExactAllowButton, BrowserRefusal>,
    pub released: Vec<Vec<UiaNode>>,
}

/// The evidence of each candidate.
pub open spec fn evidence_of(found: Seq<PromptCandidate>) -> Seq<NativeConsentActionEvidence> {
    found.map_values(|candidate: PromptCandidate| candidate.0)
}

/// The tree of each candidate.
pub open spec fn trees_of(found: Seq<PromptCandidate>) -> Seq<Vec<UiaNode>> {
    found.map_values(|candidate: PromptCandidate| candidate.1)
}

/// Trees told apart by whether they hold the chosen element.
pub struct SortedTrees {
    pub kept: Option<Vec<UiaNode>>,
    pub released: Seq<Vec<UiaNode>>,
    /// Whether a second candidate had the chosen element. The trees after it
    /// are neither kept nor released.
    pub clash: bool,
}

/// The candidates told apart by whether they have the chosen element: the first
/// one that has it is kept and the others are released, up to a second one that
/// has it, with which both are released.
pub open spec fn sorted_trees(found: Seq<PromptCandidate>, selected: usize) -> SortedTrees
    decreases found.len(),
{
    if found.len() == 0 {
        SortedTrees { kept: None, released: Seq::empty(), clash: false }
    } else {
        let before = sorted_trees(found.drop_last(), selected);
        let (evidence, nodes) = found.last();
        if before.clash {
            before
        } else if evidence.allow_element_ptr != selected {
            SortedTrees { released: before.released.push(nodes), ..before }
        } else if before.kept is Some {
            SortedTrees {
                kept: None,
                released: before.released.push(nodes).push(before.kept->0),
                clash: true,
            }
        } else {
            SortedTrees { kept: Some(nodes), ..before }
        }
    }
}

/// What is chosen among candidates, and which trees are released.
pub open spec fn settled(found: Seq<PromptCandidate>) -> (
    Result<(usize, Seq<UiaNode>), RefusalView>,
    Seq<Vec<UiaNode>>,
) {
    match owned::chosen_topmost(evidence_of(found)) {
        Err(refused) => (Err(refused), trees_of(found)),
        Ok(selected) => {
            let sorted = sorted_trees(found, selected);
            if sorted.clash {
                (
                    Err(
                        refusal::wrong_target(
                            "multiple native Chromium consent windows shared one UI Automation action identity"@,
                        ),
                    ),
                    sorted.released,
                )
            } else {
                (Ok((selected, (sorted.kept->0)@)), sorted.released)
            }
        },
    }
}

fn gather_evidence(found: &Vec<PromptCandidate>) -> (evidence: Vec<NativeConsentActionEvidence>)
    ensures
        evidence@ == evidence_of(found@),
{
    let mut evidence: Vec<NativeConsentActionEvidence> = Vec::new();
    let mut i: usize = 0;
    while i < found.len()
        invariant
            i <= found@.len(),
            evidence@ =~= evidence_of(found@).take(i as int),
        decreases found@.len() - i,
    {
        evidence.push(found[i].0);
        i = i + 1;
    }
    evidence
}

/// Adds the trees of all candidates to those that are released.
fn release_all(released: &mut Vec<Vec<UiaNode>>, found: Vec<PromptCandidate>)
    ensures
        final(released)@ == old(released)@ + trees_of(found@),
{
    let ghost before = released@;
    for candidate in it: found
        invariant
            released@ =~= before + trees_of(it.seq()).take(it.index()),
    {
        released.push(candidate.1);
    }
}

/// Once two candidates had the chosen element, the later ones change nothing.
proof fn lemma_clash_is_final(found: Seq<PromptCandidate>, selected: usize, count: int)
    requires
        0 <= count <= found.len(),
        sorted_trees(found.take(count), selected).clash,
    ensures
        sorted_trees(found, selected) == sorted_trees(found.take(count), selected),
    decreases found.len(),
{
    if count < found.len() {
        assert(found.drop_last().take(count) =~= found.take(count));
        lemma_clash_is_final(found.drop_last(), selected, count);
    } else {
        assert(found.take(count) =~= found);
    }
}

/// A tree is kept where some candidate has the chosen element, unless two have.
proof fn lemma_selected_is_kept(found: Seq<PromptCandidate>, selected: usize, i: int)
    requires
        0 <= i < found.len(),
        found[i].0.allow_element_ptr == selected,
    ensures
        sorted_trees(found, selected).clash || sorted_trees(found, selected).kept is Some,
    decreases found.len(),
{
    if i < found.len() - 1 {
        lemma_selected_is_kept(found.drop_last(), selected, i);
    }
}

/// Chooses between candidates by their windows. Of the trees, that of the
/// chosen candidate is kept. The others join `released`, but for those that
/// follow a second candidate with the chosen element.
pub fn settle_owned_prompts(found: Vec<PromptCandidate>, released: Vec<Vec<UiaNode>>) -> (selection:
    OwnedPromptSelection)
    ensures
        button_view(selection.button) == settled(found@).0,
        selection.released@ == released@ + settled(found@).1,
{
    let ghost all = found@;
    let ghost before = released@;
    let mut unneeded = released;
    let evidence = gather_evidence(&found);
    let selected = match select_unique_target_owned_topmost(evidence.as_slice()) {
        Ok(selected) => selected,
        Err(refused) => {
            release_all(&mut unneeded, found);
            return OwnedPromptSelection { button: Err(refused), released: unneeded };
        },
    };
    let mut kept: Option<Vec<UiaNode>> = None;
    assert(all.take(0) =~= Seq::empty());
    assert(before + Seq::empty() =~= before);
    for candidate in it: found
        invariant
            it.seq() == all,
            owned::chosen_topmost(evidence_of(all)) == Ok::<usize, RefusalView>(selected),
            !sorted_trees(all.take(it.index()), selected).clash,
            kept == sorted_trees(all.take(it.index()), selected).kept,
            before == released@,
            unneeded@ == before + sorted_trees(all.take(it.index()), selected).released,
    {
        let ghost k = it.index();
        let ghost earlier = sorted_trees(all.take(k), selected);
        let (evidence, nodes) = candidate;
        proof {
            assert(all.take(k + 1).drop_last() =~= all.take(k));
            assert(all.take(k + 1).last() == (evidence, nodes));
        }
        if evidence.allow_element_ptr == selected {
            if let Some(existing) = kept {
                unneeded.push(nodes);
                unneeded.push(existing);
                proof {
                    lemma_clash_is_final(all, selected, k + 1);
                    assert(unneeded@ =~= before + sorted_trees(all, selected).released);
                }
                return OwnedPromptSelection {
                    button: Err(
                        refusal(
                            BrowserRefusalCode::BrowserWrongTargetRefused,
                            "multiple native Chromium consent windows shared one UI Automation action identity",
                        ),
                    ),
                    released: unneeded,
                };
            }
            kept = Some(nodes);
        } else {
            unneeded.push(nodes);
            assert(unneeded@ =~= before + sorted_trees(all.take(k + 1), selected).released);
        }
    }
    proof {
        assert(all.take(all.len() as int) =~= all);
        let top = choose|i: int| #[trigger] owned::is_topmost(evidence_of(all), i);
        assert(owned::is_topmost(evidence_of(all), top));
        lemma_selected_is_kept(all, selected, top);
    }
    OwnedPromptSelection {
        button: Ok(ExactAllowButton { element_ptr: selected, additional_nodes: kept.unwrap() }),
        released: unneeded,
    }
}

/// What looking at one native window brought: its tree, what the elements in it
/// answered, and, where they gave an action, what the system says of the window.
pub struct WindowVisit {
    pub nodes: Vec<UiaNode>,
    pub replies: Seq<Seq<ButtonReply>>,
    pub facts: WindowFacts,
}

impl WindowVisit {
    /// The action that was found in the window.
    pub open spec fn action(self) -> Result<Option<usize>, RefusalView> {
        actions::sole_action(actions::allow_actions(node::rows(self.nodes@), self.replies))
    }

    /// Whether an action was found in the window.
    pub open spec fn has_action(self) -> bool {
        self.action() matches Ok(Some(_))
    }

    /// The tree of the window, where no action was found in it.
    pub open spec fn unneeded(self) -> Option<Vec<UiaNode>> {
        if self.has_action() {
            None
        } else {
            Some(self.nodes)
        }
    }
}

/// The tree that is handed over to be released before window `k` is walked: that
/// of the window before it, where no action was found in it.
pub open spec fn handed(visits: Seq<WindowVisit>, k: int) -> Option<Vec<UiaNode>> {
    if k <= 0 {
        None
    } else {
        visits[k - 1].unneeded()
    }
}

/// Whether `visits` holds what was seen of `windows`, in order, until a window
/// was refused or none was left.
pub open spec fn is_scan(windows: Seq<(u64, usize)>, visits: Seq<WindowVisit>) -> bool {
    &&& visits.len() <= windows.len()
    &&& forall|k: int|
        0 <= k < visits.len() ==> actions::is_transcript(
            node::rows((#[trigger] visits[k]).nodes@),
            visits[k].replies,
        )
    &&& forall|k: int| 0 <= k < visits.len() - 1 ==> (#[trigger] visits[k]).action() is Ok
    &&& visits.len() == windows.len() || (visits.len() > 0 && visits.last().action() is Err)
}

/// Whether visit `k` came from walking window `k`, with the tree of the window
/// before it handed over where that one is not needed, asking its elements, and
/// asking the system about it where an action was found. The walk takes walker
/// `k` and gives back the next one.
pub open spec fn is_visit_of<
    S,
    W: FnMut(S, Option<Vec<UiaNode>>, u64) -> (S, Vec<UiaNode>),
    P: FnMut(usize) -> ButtonReply,
    N: FnMut(u64) -> WindowFacts,
>(
    windows: Seq<(u64, usize)>,
    walkers: Seq<S>,
    walk: W,
    ask: P,
    inspect: N,
    visits: Seq<WindowVisit>,
    k: int,
) -> bool {
    &&& call_ensures(
        walk,
        (walkers[k], handed(visits, k), windows[k].0),
        (walkers[k + 1], visits[k].nodes),
    )
    &&& actions::replies_of(ask, node::rows(visits[k].nodes@), visits[k].replies)
    &&& visits[k].has_action() ==> call_ensures(inspect, (windows[k].0,), visits[k].facts)
}

/// Whether each visit came from its window, each with the walker that the one
/// before it gave back: no window is walked but for a visit.
pub open spec fn visits_of<
    S,
    W: FnMut(S, Option<Vec<UiaNode>>, u64) -> (S, Vec<UiaNode>),
    P: FnMut(usize) -> ButtonReply,
    N: FnMut(u64) -> WindowFacts,
>(
    windows: Seq<(u64, usize)>,
    walkers: Seq<S>,
    walk: W,
    ask: P,
    inspect: N,
    visits: Seq<WindowVisit>,
) -> bool {
    &&& walkers.len() == visits.len() + 1
    &&& forall|k: int|
        0 <= k < visits.len() ==> #[trigger] is_visit_of(
            windows,
            walkers,
            walk,
            ask,
            inspect,
            visits,
            k,
        )
}

/// Whether the visits lead from one walker to another.
pub open spec fn visits_lead<
    S,
    W: FnMut(S, Option<Vec<UiaNode>>, u64) -> (S, Vec<UiaNode>),
    P: FnMut(usize) -> ButtonReply,
    N: FnMut(u64) -> WindowFacts,
>(
    windows: Seq<(u64, usize)>,
    walker: S,
    after: S,
    walk: W,
    ask: P,
    inspect: N,
    visits: Seq<WindowVisit>,
) -> bool {
    exists|walkers: Seq<S>| #[trigger]
        visits_of(windows, walkers, walk, ask, inspect, visits) && walkers.first() == walker
            && walkers.last() == after
}

/// The windows in which an action was found, with the evidence for it.
pub open spec fn matched(
    windows: Seq<(u64, usize)>,
    target_pid: u32,
    visits: Seq<WindowVisit>,
) -> Seq<PromptCandidate>
    decreases visits.len(),
{
    if visits.len() == 0 {
        Seq::empty()
    } else {
        let before = matched(windows, target_pid, visits.drop_last());
        let (window, rank) = windows[visits.len() - 1];
        match visits.last().action() {
            Ok(Some(element)) => before.push(
                (
                    native::evidence_for(
                        element,
                        window,
                        target_pid,
                        visits.last().facts,
                        Some(rank),
                    ),
                    visits.last().nodes,
                ),
            ),
            _ => before,
        }
    }
}

/// The tree that the last visit leaves to be released.
pub open spec fn pending(visits: Seq<WindowVisit>) -> Seq<Vec<UiaNode>> {
    match handed(visits, visits.len() as int) {
        Some(nodes) => seq![nodes],
        None => Seq::empty(),
    }
}

/// What is chosen after a scan of the target's windows, and which trees are left
/// to be released.
pub open spec fn scanned(
    windows: Seq<(u64, usize)>,
    target_pid: u32,
    visits: Seq<WindowVisit>,
) -> (Result<(usize, Seq<UiaNode>), RefusalView>, Seq<Vec<UiaNode>>) {
    let found = matched(windows, target_pid, visits);
    if visits.len() > 0 && visits.last().action() is Err {
        (Err(visits.last().action()->Err_0), pending(visits) + trees_of(found))
    } else {
        (settled(found).0, pending(visits) + settled(found).1)
    }
}

/// Whether every visit has a transcript and was not refused.
pub open spec fn is_scan_so_far(visits: Seq<WindowVisit>) -> bool {
    forall|k: int| #![trigger visits[k]]
        0 <= k < visits.len() ==> actions::is_transcript(
            node::rows(visits[k].nodes@),
            visits[k].replies,
        ) && visits[k].action() is Ok
}

/// Whether a scan may get as far as these visits, with a window left to be walked
/// by the walker `after`.
pub open spec fn may_walk<
    S,
    W: FnMut(S, Option<Vec<UiaNode>>, u64) -> (S, Vec<UiaNode>),
    P: FnMut(usize) -> ButtonReply,
    N: FnMut(u64) -> WindowFacts,
>(
    windows: Seq<(u64, usize)>,
    walker: S,
    after: S,
    walk: W,
    ask: P,
    inspect: N,
    visits: Seq<WindowVisit>,
) -> bool {
    &&& visits.len() < windows.len()
    &&& is_scan_so_far(visits)
    &&& visits_lead(windows, walker, after, walk, ask, inspect, visits)
}

/// Whether walking the window after these visits may give the tree `nodes`.
pub open spec fn may_give<
    S,
    W: FnMut(S, Option<Vec<UiaNode>>, u64) -> (S, Vec<UiaNode>),
    P: FnMut(usize) -> ButtonReply,
    N: FnMut(u64) -> WindowFacts,
>(
    windows: Seq<(u64, usize)>,
    walker: S,
    walk: W,
    ask: P,
    inspect: N,
    visits: Seq<WindowVisit>,
    nodes: Vec<UiaNode>,
) -> bool {
    let k = visits.len() as int;
    exists|before: S, after: S|
        may_walk(windows, walker, before, walk, ask, inspect, visits) && #[trigger] call_ensures(
            walk,
            (before, handed(visits, k), windows[k].0),
            (after, nodes),
        )
}

/// Whether an action may be found in the window after these visits, in the tree
/// `nodes` and by the answers `replies`.
pub open spec fn may_have_action<
    S,
    W: FnMut(S, Option<Vec<UiaNode>>, u64) -> (S, Vec<UiaNode>),
    P: FnMut(usize) -> ButtonReply,
    N: FnMut(u64) -> WindowFacts,
>(
    windows: Seq<(u64, usize)>,
    walker: S,
    walk: W,
    ask: P,
    inspect: N,
    visits: Seq<WindowVisit>,
    nodes: Vec<UiaNode>,
    replies: Seq<Seq<ButtonReply>>,
) -> bool {
    &&& may_give(windows, walker, walk, ask, inspect, visits, nodes)
    &&& actions::is_transcript(node::rows(nodes@), replies)
    &&& actions::replies_of(ask, node::rows(nodes@), replies)
    &&& actions::sole_action(actions::allow_actions(node::rows(nodes@), replies)) matches Ok(
        Some(_),
    )
}

/// Whether all that a scan may do can be done: walk the listed windows, ask the
/// buttons of the prompts in their trees, and ask the system about a window in
/// which an action was found. A scan does nothing else.
pub open spec fn can_scan<
    S,
    W: FnMut(S, Option<Vec<UiaNode>>, u64) -> (S, Vec<UiaNode>),
    P: FnMut(usize) -> ButtonReply,
    N: FnMut(u64) -> WindowFacts,
>(windows: Seq<(u64, usize)>, walker: S, walk: W, ask: P, inspect: N) -> bool {
    &&& forall|after: S, visits: Seq<WindowVisit>| #[trigger]
        may_walk(windows, walker, after, walk, ask, inspect, visits) ==> call_requires(
            walk,
            (after, handed(visits, visits.len() as int), windows[visits.len() as int].0),
        )
    &&& forall|visits: Seq<WindowVisit>, nodes: Vec<UiaNode>| #[trigger]
        may_give(windows, walker, walk, ask, inspect, visits, nodes) ==> actions::can_ask(
            ask,
            node::rows(nodes@),
        )
    &&& forall|
        visits: Seq<WindowVisit>,
        nodes: Vec<UiaNode>,
        replies: Seq<Seq<ButtonReply>>,
    | #[trigger]
        may_have_action(windows, walker, walk, ask, inspect, visits, nodes, replies)
            ==> call_requires(inspect, (windows[visits.len() as int].0,))
}

/// The button that grants the request in the topmost of the native windows that
/// the target owns. `windows` lists these windows with their ranks, `walk`
/// releases the tree that is handed to it, where there is one, and then walks
/// the tree of a window, `properties` asks a live element for its class and whether
/// it has the keyboard focus, and `inspect` asks the system about a window. Each
/// walk takes the walker and gives it back, as this function does in the end.
pub fn exact_allow_button_from_owned_prompt_windows<S, W, P, N>(
    windows: &[(u64, usize)],
    target_pid: u32,
    walker: S,
    walk: W,
    properties: P,
    inspect: N,
) -> (out: (S, OwnedPromptSelection)) where
    W: FnMut(S, Option<Vec<UiaNode>>, u64) -> (S, Vec<UiaNode>),
    P: FnMut(usize) -> Result<(String, bool), BrowserRefusal> + Copy,
    N: FnMut(u64) -> WindowFacts,

    requires
        can_scan(windows@, walker, walk, properties, inspect),
    ensures
        exists|visits: Seq<WindowVisit>| #[trigger]
            is_scan(windows@, visits) && visits_lead(
                windows@,
                walker,
                out.0,
                walk,
                properties,
                inspect,
                visits,
            ) && (button_view(out.1.button), out.1.released@) == scanned(
                windows@,
                target_pid,
                visits,
            ),
{
    let mut current = walker;
    let mut walk_window = walk;
    let mut inspect_window = inspect;
    let mut found: Vec<PromptCandidate> = Vec::new();
    let mut unneeded: Option<Vec<UiaNode>> = None;
    let ghost mut visits: Seq<WindowVisit> = Seq::empty();
    let ghost mut walkers: Seq<S> = seq![walker];
    let mut i: usize = 0;
    while i < windows.len()
        invariant
            can_scan(windows@, walker, walk, properties, inspect),
            walk_window == walk,
            inspect_window == inspect,
            i <= windows@.len(),
            visits.len() == i,
            is_scan_so_far(visits),
            visits_of(windows@, walkers, walk, properties, inspect, visits),
            walkers.first() == walker,
            walkers.last() == current,
            found@ == matched(windows@, target_pid, visits),
            unneeded == handed(visits, i as int),
        decreases windows@.len() - i,
    {
        let (prompt_hwnd, z_order_rank) = windows[i];
        let ghost before = visits;
        let ghost earlier = unneeded;
        let ghost with = current;
        assert(may_walk(windows@, walker, with, walk, properties, inspect, visits));
        let (next, nodes) = walk_window(current, unneeded, prompt_hwnd);
        current = next;
        assert(call_ensures(walk, (with, earlier, prompt_hwnd), (next, nodes)));
        assert(may_give(windows@, walker, walk, properties, inspect, visits, nodes));
        let ghost before_walkers = walkers;
        proof {
            walkers = walkers.push(next);
        }
        let button = exact_allow_button_with(nodes.as_slice(), properties);
        let ghost replies = choose|replies: Seq<Seq<ButtonReply>>| #[trigger]
            actions::is_transcript(node::rows(nodes@), replies) && actions::replies_of(
                properties,
                node::rows(nodes@),
                replies,
            ) && refusal::outcome_view(button) == actions::sole_action(
                actions::allow_actions(node::rows(nodes@), replies),
            );
        match button {
            Ok(Some(element_ptr)) => {
                assert(may_have_action(
                    windows@,
                    walker,
                    walk,
                    properties,
                    inspect,
                    visits,
                    nodes,
                    replies,
                ));
                let facts = inspect_window(prompt_hwnd);
                proof {
                    visits = visits.push(WindowVisit { nodes, replies, facts });
                    assert(visits.drop_last() =~= before);
                    lemma_visits_push(
                        windows@,
                        before_walkers,
                        walk,
                        properties,
                        inspect,
                        before,
                        next,
                        visits.last(),
                    );
                    lemma_scan_push(windows@, before, visits.last());
                }
                let evidence = native_consent_action_evidence(
                    element_ptr,
                    prompt_hwnd,
                    target_pid,
                    &facts,
                    Some(z_order_rank),
                );
                found.push((evidence, nodes));
                unneeded = None;
            },
            Ok(None) => {
                proof {
                    visits = visits.push(WindowVisit { nodes, replies, facts: arbitrary() });
                    assert(visits.drop_last() =~= before);
                    lemma_visits_push(
                        windows@,
                        before_walkers,
                        walk,
                        properties,
                        inspect,
                        before,
                        next,
                        visits.last(),
                    );
                    lemma_scan_push(windows@, before, visits.last());
                }
                unneeded = Some(nodes);
            },
            Err(refused) => {
                proof {
                    visits = visits.push(WindowVisit { nodes, replies, facts: arbitrary() });
                    assert(visits.drop_last() =~= before);
                    lemma_visits_push(
                        windows@,
                        before_walkers,
                        walk,
                        properties,
                        inspect,
                        before,
                        next,
                        visits.last(),
                    );
                    lemma_scan_push(windows@, before, visits.last());
                    assert(is_scan(windows@, visits));
                }
                let mut released: Vec<Vec<UiaNode>> = vec![nodes];
                assert(released@ =~= pending(visits));
                release_all(&mut released, found);
                return (current, OwnedPromptSelection { button: Err(refused), released });
            },
        }
        i = i + 1;
    }
    assert(is_scan(windows@, visits));
    let mut released: Vec<Vec<UiaNode>> = Vec::new();
    if let Some(nodes) = unneeded {
        released.push(nodes);
    }
    assert(released@ =~= pending(visits));
    (current, settle_owned_prompts(found, released))
}

/// One more visit that was not refused keeps the scan going, and one that was
/// refused ends it.
proof fn lemma_scan_push(windows: Seq<(u64, usize)>, visits: Seq<WindowVisit>, visit: WindowVisit)
    requires
        is_scan_so_far(visits),
        visits.len() < windows.len(),
        actions::is_transcript(node::rows(visit.nodes@), visit.replies),
    ensures
        visit.action() is Ok ==> is_scan_so_far(visits.push(visit)),
        visit.action() is Err ==> is_scan(windows, visits.push(visit)),
{
}

/// One more visit keeps the account of the visits.
proof fn lemma_visits_push<
    S,
    W: FnMut(S, Option<Vec<UiaNode>>, u64) -> (S, Vec<UiaNode>),
    P: FnMut(usize) -> ButtonReply,
    N: FnMut(u64) -> WindowFacts,
>(
    windows: Seq<(u64, usize)>,
    walkers: Seq<S>,
    walk: W,
    ask: P,
    inspect: N,
    visits: Seq<WindowVisit>,
    next: S,
    visit: WindowVisit,
)
    requires
        visits_of(windows, walkers, walk, ask, inspect, visits),
        call_ensures(
            walk,
            (
                walkers.last(),
                handed(visits, visits.len() as int),
                windows[visits.len() as int].0,
            ),
            (next, visit.nodes),
        ),
        actions::replies_of(ask, node::rows(visit.nodes@), visit.replies),
        visit.has_action() ==> call_ensures(
            inspect,
            (windows[visits.len() as int].0,),
            visit.facts,
        ),
    ensures
        visits_of(windows, walkers.push(next), walk, ask, inspect, visits.push(visit)),
{
    let longer = visits.push(visit);
    let with = walkers.push(next);
    assert forall|k: int| 0 <= k < longer.len() implies #[trigger] is_visit_of(
        windows,
        with,
        walk,
        ask,
        inspect,
        longer,
        k,
    ) by {
        if k > 0 {
            assert(longer[k - 1] == visits[k - 1]);
        }
        assert(with[k] == walkers[k]);
        if k < visits.len() {
            assert(longer[k] == visits[k]);
            assert(with[k + 1] == walkers[k + 1]);
            assert(is_visit_of(windows, walkers, walk, ask, inspect, visits, k));
        }
        assert(handed(longer, k) == handed(visits, k));
    }
}

/// The button of a target window, where one was found, and the trees of other
/// windows that are no longer needed and whose elements are to be released.
#[derive(Debug)]
pub struct TargetSelection {
    pub button: Result<Option<ExactAllowButton>, BrowserRefusal>,
    pub released: Vec<Vec<UiaNode>>,
}

/// The contents of a button, a lack of one, or a refusal.
pub open spec fn target_view(r: Result<Option<ExactAllowButton>, BrowserRefusal>) -> Result<
    Option<(usize, Seq<UiaNode>)>,
    RefusalView,
> {
    match r {
        Ok(Some(button)) => Ok(Some((button.element_ptr, button.additional_nodes@))),
        Ok(None) => Ok(None),
        Err(refused) => Err(refused@),
    }
}

/// What is chosen for a target window by the actions of its own tree: nothing
/// where there is none, the action where it is the only one. Where there are
/// several, a scan of the windows that the target owns decides.
pub open spec fn chosen_for_target(
    found: Result<Seq<usize>, RefusalView>,
    scan: (Result<(usize, Seq<UiaNode>), RefusalView>, Seq<Vec<UiaNode>>),
) -> (Result<Option<(usize, Seq<UiaNode>)>, RefusalView>, Seq<Vec<UiaNode>>) {
    match found {
        Err(refused) => (Err(refused), Seq::empty()),
        Ok(elements) => if elements.len() == 0 {
            (Ok(None), Seq::empty())
        } else if actions::all_same(elements) {
            (Ok(Some((elements[0], Seq::empty()))), Seq::empty())
        } else {
            match scan.0 {
                Ok(button) => (Ok(Some(button)), scan.1),
                Err(refused) => (Err(refused), scan.1),
            }
        },
    }
}

/// Whether the tree alone leaves open which of several actions is meant.
pub open spec fn needs_scan(found: Result<Seq<usize>, RefusalView>) -> bool {
    found matches Ok(elements) && !actions::all_same(elements)
}

/// What was seen in choosing a button for a target window: what the elements of
/// its tree answered and, where a scan had to decide, the windows that the target
/// owns and what was seen of them.
pub struct Inquiry {
    pub replies: Seq<Seq<ButtonReply>>,
    pub windows: Vec<(u64, usize)>,
    pub visits: Seq<WindowVisit>,
}

impl Inquiry {
    /// The actions that the tree of the target window shows.
    pub open spec fn actions(self, nodes: Seq<UiaNode>) -> Result<Seq<usize>, RefusalView> {
        actions::allow_actions(node::rows(nodes), self.replies)
    }

    /// Whether the windows that the target owns were scanned.
    pub open spec fn scans(self, nodes: Seq<UiaNode>) -> bool {
        needs_scan(self.actions(nodes))
    }

    /// Whether this was seen of a tree and, where they were scanned, of the
    /// windows that the target owns.
    pub open spec fn is_of(self, nodes: Seq<UiaNode>) -> bool {
        &&& actions::is_transcript(node::rows(nodes), self.replies)
        &&& self.scans(nodes) ==> is_scan(self.windows@, self.visits)
    }

    /// What is chosen by this, and which trees are left to be released.
    pub open spec fn chosen(self, nodes: Seq<UiaNode>, target_pid: u32) -> (
        Result<Option<(usize, Seq<UiaNode>)>, RefusalView>,
        Seq<Vec<UiaNode>>,
    ) {
        chosen_for_target(
            self.actions(nodes),
            scanned(self.windows@, target_pid, self.visits),
        )
    }
}

/// Whether `windows` was listed and `visits` is a scan of it that leads from
/// `walker` to `after`.
pub open spec fn is_scan_by<
    S,
    D: FnOnce() -> Vec<(u64, usize)>,
    W: FnMut(S, Option<Vec<UiaNode>>, u64) -> (S, Vec<UiaNode>),
    P: FnMut(usize) -> ButtonReply,
    N: FnMut(u64) -> WindowFacts,
>(
    owned_windows: D,
    walker: S,
    after: S,
    walk: W,
    ask: P,
    inspect: N,
    windows: Vec<(u64, usize)>,
    visits: Seq<WindowVisit>,
) -> bool {
    &&& call_ensures(owned_windows, (), windows)
    &&& is_scan(windows@, visits)
    &&& visits_lead(windows@, walker, after, walk, ask, inspect, visits)
}

/// Whether an inquiry came from asking the elements of the tree and, where a scan
/// had to decide, from listing and visiting the windows that the target owns. The
/// visits lead from `walker` to `after`; without a scan nothing is walked.
pub open spec fn is_inquiry<
    S,
    D: FnOnce() -> Vec<(u64, usize)>,
    W: FnMut(S, Option<Vec<UiaNode>>, u64) -> (S, Vec<UiaNode>),
    P: FnMut(usize) -> ButtonReply,
    N: FnMut(u64) -> WindowFacts,
>(
    nodes: Seq<UiaNode>,
    owned_windows: D,
    walker: S,
    after: S,
    walk: W,
    ask: P,
    inspect: N,
    inquiry: Inquiry,
) -> bool {
    &&& inquiry.is_of(nodes)
    &&& actions::replies_of(ask, node::rows(nodes), inquiry.replies)
    &&& if inquiry.scans(nodes) {
        is_scan_by(
            owned_windows,
            walker,
            after,
            walk,
            ask,
            inspect,
            inquiry.windows,
            inquiry.visits,
        )
    } else {
        after == walker
    }
}

/// Whether all that choosing a button may do can be done: ask the buttons of the
/// prompts in the tree and, only where these leave several actions, list and scan
/// the windows that the target owns.
pub open spec fn can_inquire<
    S,
    D: FnOnce() -> Vec<(u64, usize)>,
    W: FnMut(S, Option<Vec<UiaNode>>, u64) -> (S, Vec<UiaNode>),
    P: FnMut(usize) -> ButtonReply,
    N: FnMut(u64) -> WindowFacts,
>(nodes: Seq<UiaNode>, owned_windows: D, walker: S, walk: W, ask: P, inspect: N) -> bool {
    &&& actions::can_ask(ask, node::rows(nodes))
    &&& forall|replies: Seq<Seq<ButtonReply>>| #[trigger]
        actions::is_transcript(node::rows(nodes), replies) && actions::replies_of(
            ask,
            node::rows(nodes),
            replies,
        ) && needs_scan(actions::allow_actions(node::rows(nodes), replies)) ==> call_requires(
            owned_windows,
            (),
        )
    &&& forall|windows: Vec<(u64, usize)>| #[trigger]
        call_ensures(owned_windows, (), windows) ==> can_scan(windows@, walker, walk, ask, inspect)
}

/// The button in the topmost of the windows that the target owns.
fn exact_allow_button_by_scan<S, D, W, P, N>(
    target_pid: u32,
    owned_windows: D,
    walker: S,
    walk: W,
    properties: P,
    inspect: N,
) -> (out: (S, TargetSelection)) where
    D: FnOnce() -> Vec<(u64, usize)>,
    W: FnMut(S, Option<Vec<UiaNode>>, u64) -> (S, Vec<UiaNode>),
    P: FnMut(usize) -> Result<(String, bool), BrowserRefusal> + Copy,
    N: FnMut(u64) -> WindowFacts,

    requires
        call_requires(owned_windows, ()),
        forall|windows: Vec<(u64, usize)>| #[trigger]
            call_ensures(owned_windows, (), windows) ==> can_scan(
                windows@,
                walker,
                walk,
                properties,
                inspect,
            ),
    ensures
        exists|windows: Vec<(u64, usize)>, visits: Seq<WindowVisit>| #[trigger]
            is_scan_by(
                owned_windows,
                walker,
                out.0,
                walk,
                properties,
                inspect,
                windows,
                visits,
            ) && out.1.released@ == scanned(windows@, target_pid, visits).1 && target_view(
                out.1.button,
            ) == match scanned(windows@, target_pid, visits).0 {
                Ok(button) => Ok(Some(button)),
                Err(refused) => Err(refused),
            },
{
    let windows = owned_windows();
    let (after, selection) = exact_allow_button_from_owned_prompt_windows(
        windows.as_slice(),
        target_pid,
        walker,
        walk,
        properties,
        inspect,
    );
    let ghost visits = choose|visits: Seq<WindowVisit>| #[trigger]
        is_scan(windows@, visits) && visits_lead(
            windows@,
            walker,
            after,
            walk,
            properties,
            inspect,
            visits,
        ) && (button_view(selection.button), selection.released@) == scanned(
            windows@,
            target_pid,
            visits,
        );
    let button = match selection.button {
        Ok(button) => Ok(Some(button)),
        Err(refused) => Err(refused),
    };
    let out = (after, TargetSelection { button, released: selection.released });
    assert(is_scan_by(
        owned_windows,
        walker,
        out.0,
        walk,
        properties,
        inspect,
        windows,
        visits,
    ));
    out
}

/// The button that grants the request of a target window whose tree is `nodes`.
/// Only where the tree shows several actions, `owned_windows` is asked for the
/// windows that the target owns, and the topmost of these decides. The walker is
/// given back.
pub fn exact_allow_button_for_target<S, D, W, P, N>(
    nodes: &[UiaNode],
    target_pid: u32,
    owned_windows: D,
    walker: S,
    walk: W,
    properties: P,
    inspect: N,
) -> (out: (S, TargetSelection)) where
    D: FnOnce() -> Vec<(u64, usize)>,
    W: FnMut(S, Option<Vec<UiaNode>>, u64) -> (S, Vec<UiaNode>),
    P: FnMut(usize) -> Result<(String, bool), BrowserRefusal> + Copy,
    N: FnMut(u64) -> WindowFacts,

    requires
        can_inquire(nodes@, owned_windows, walker, walk, properties, inspect),
    ensures
        exists|inquiry: Inquiry| #[trigger]
            is_inquiry(
                nodes@,
                owned_windows,
                walker,
                out.0,
                walk,
                properties,
                inspect,
                inquiry,
            ) && (target_view(out.1.button), out.1.released@) == inquiry.chosen(
                nodes@,
                target_pid,
            ),
{
    let structural = structural_allow_actions_with(nodes, properties);
    let ghost replies = choose|replies: Seq<Seq<ButtonReply>>| #[trigger]
        actions::is_transcript(node::rows(nodes@), replies) && actions::replies_of(
            properties,
            node::rows(nodes@),
            replies,
        ) && actions::actions_view(structural) == actions::allow_actions(
            node::rows(nodes@),
            replies,
        );
    // Without a scan any windows and visits serve as the witness of the contract.
    let ghost mut inquiry = Inquiry { replies, windows: arbitrary(), visits: Seq::empty() };
    let out = match structural {
        Err(refused) => (walker, TargetSelection { button: Err(refused), released: Vec::new() }),
        Ok(actions) => match distinct_actions(actions.as_slice()) {
            DistinctActions::Nothing => (
                walker,
                TargetSelection { button: Ok(None), released: Vec::new() },
            ),
            DistinctActions::One(element_ptr) => {
                let found = ExactAllowButton { element_ptr, additional_nodes: Vec::new() };
                (walker, TargetSelection { button: Ok(Some(found)), released: Vec::new() })
            },
            DistinctActions::Several => {
                let out = exact_allow_button_by_scan(
                    target_pid,
                    owned_windows,
                    walker,
                    walk,
                    properties,
                    inspect,
                );
                proof {
                    let (windows, visits) = choose|
                        windows: Vec<(u64, usize)>,
                        visits: Seq<WindowVisit>,
                    | #[trigger]
                        is_scan_by(
                            owned_windows,
                            walker,
                            out.0,
                            walk,
                            properties,
                            inspect,
                            windows,
                            visits,
                        ) && out.1.released@ == scanned(windows@, target_pid, visits).1
                            && target_view(out.1.button) == match scanned(
                            windows@,
                            target_pid,
                            visits,
                        ).0 {
                            Ok(button) => Ok(Some(button)),
                            Err(refused) => Err(refused),
                        };
                    inquiry = Inquiry { replies, windows, visits };
                }
                out
            },
        },
    };
    assert(is_inquiry(
        nodes@,
        owned_windows,
        walker,
        out.0,
        walk,
        properties,
        inspect,
        inquiry,
    ));
    assert((target_view(out.1.button), out.1.released@) == inquiry.chosen(nodes@, target_pid));
    out
}

/// The element to press, if any, the trees that are held until it is pressed,
/// and the trees that are to be released at once.
#[derive(Debug)]
pub struct SettledTrees {
    pub button: Result<Option<usize>, BrowserRefusal>,
    pub held: Vec<Vec<UiaNode>>,
    pub released: Vec<Vec<UiaNode>>,
}

/// Whether `out` is what becomes of the trees: with a button to press, the tree
/// of the target window is held, after the tree that keeps the button's element
/// alive, and without one it is released after all other trees.
pub open spec fn settles(
    selection: TargetSelection,
    tree: Vec<UiaNode>,
    out: SettledTrees,
) -> bool {
    match selection.button {
        Ok(Some(found)) => {
            &&& out.button == Ok::<Option<usize>, BrowserRefusal>(Some(found.element_ptr))
            &&& out.held@ == seq![found.additional_nodes, tree]
            &&& out.released@ == selection.released@
        },
        Ok(None) => {
            &&& out.button == Ok::<Option<usize>, BrowserRefusal>(None)
            &&& out.held@ == Seq::<Vec<UiaNode>>::empty()
            &&& out.released@ == selection.released@.push(tree)
        },
        Err(refused) => {
            &&& out.button == Err::<Option<usize>, BrowserRefusal>(refused)
            &&& out.held@ == Seq::<Vec<UiaNode>>::empty()
            &&& out.released@ == selection.released@.push(tree)
        },
    }
}

/// Settles what becomes of the tree of the target window itself, and of the tree
/// that keeps the button's element alive.
pub fn settle_target_tree(selection: TargetSelection, tree: Vec<UiaNode>) -> (out: SettledTrees)
    ensures
        settles(selection, tree, out),
{
    let mut released = selection.released;
    match selection.button {
        Ok(Some(found)) => SettledTrees {
            button: Ok(Some(found.element_ptr)),
            held: vec![found.additional_nodes, tree],
            released,
        },
        Ok(None) => {
            released.push(tree);
            SettledTrees { button: Ok(None), held: Vec::new(), released }
        },
        Err(refused) => {
            released.push(tree);
            SettledTrees { button: Err(refused), held: Vec::new(), released }
        },
    }
}

/// Settling loses no tree and takes none twice: what is held and what is released
/// are the trees that were to be released already, the tree of the target window
/// and, where there is a button, the tree that comes with it.
pub proof fn lemma_settling_keeps_every_tree(
    selection: TargetSelection,
    tree: Vec<UiaNode>,
    out: SettledTrees,
)
    requires
        settles(selection, tree, out),
    ensures
        (out.held@ + out.released@).to_multiset() == match selection.button {
            Ok(Some(found)) => selection.released@.push(tree).push(
                found.additional_nodes,
            ).to_multiset(),
            _ => selection.released@.push(tree).to_multiset(),
        },
{
    broadcast use vstd::seq_lib::group_to_multiset_ensures;

    vstd::seq_lib::lemma_multiset_commutative(out.held@, out.released@);
    match selection.button {
        Ok(Some(found)) => {
            let none = Seq::<Vec<UiaNode>>::empty();
            assert(out.held@ =~= none.push(found.additional_nodes).push(tree));
            assert((out.held@ + out.released@).to_multiset() =~= selection.released@.push(
                tree,
            ).push(found.additional_nodes).to_multiset());
        },
        _ => {
            assert(out.held@ + out.released@ =~= out.released@);
        },
    }
}

/// The trees in which no action was found.
pub open spec fn unmatched(visits: Seq<WindowVisit>) -> Seq<Vec<UiaNode>>
    decreases visits.len(),
{
    if visits.len() == 0 {
        Seq::empty()
    } else {
        let before = unmatched(visits.drop_last());
        match visits.last().unneeded() {
            Some(nodes) => before.push(nodes),
            None => before,
        }
    }
}

/// The trees that were handed over to be released before a window was walked.
pub open spec fn handed_over(visits: Seq<WindowVisit>) -> Seq<Vec<UiaNode>>
    decreases visits.len(),
{
    if visits.len() == 0 {
        Seq::empty()
    } else {
        let before = handed_over(visits.drop_last());
        match handed(visits, visits.len() - 1) {
            Some(nodes) => before.push(nodes),
            None => before,
        }
    }
}

/// All trees that a scan releases, in order: those that were handed over during
/// the scan and those that are left after it.
pub open spec fn released_in_all(
    windows: Seq<(u64, usize)>,
    target_pid: u32,
    visits: Seq<WindowVisit>,
) -> Seq<Vec<UiaNode>> {
    handed_over(visits) + scanned(windows, target_pid, visits).1
}

/// The trees without an action are those that are handed over and the one that
/// the last visit leaves.
pub proof fn lemma_unmatched_trees_are_handed_over(visits: Seq<WindowVisit>)
    ensures
        handed_over(visits) + pending(visits) == unmatched(visits),
    decreases visits.len(),
{
    if visits.len() > 0 {
        let front = visits.drop_last();
        lemma_unmatched_trees_are_handed_over(front);
        let last = visits.len() - 1;
        if last > 0 {
            assert(visits[last - 1] == front[last - 1]);
        }
        assert(handed(visits, last) == handed(front, last));
        assert(handed_over(visits) =~= handed_over(front) + pending(front));
    }
    assert(handed_over(visits) + pending(visits) =~= unmatched(visits));
}

/// The trees that were walked, in order.
pub open spec fn walked(visits: Seq<WindowVisit>) -> Seq<Vec<UiaNode>> {
    visits.map_values(|visit: WindowVisit| visit.nodes)
}

/// Whether no window is listed twice.
pub open spec fn windows_differ(windows: Seq<(u64, usize)>) -> bool {
    forall|i: int, j: int|
        0 <= i < j < windows.len() ==> (#[trigger] windows[i]).0 != (#[trigger] windows[j]).0
}

/// Whether a candidate is what visit `k` brought.
pub open spec fn comes_from(
    windows: Seq<(u64, usize)>,
    target_pid: u32,
    visits: Seq<WindowVisit>,
    candidate: PromptCandidate,
    k: int,
) -> bool {
    &&& 0 <= k < visits.len()
    &&& visits[k].action() matches Ok(Some(element)) && candidate.0 == native::evidence_for(
        element,
        windows[k].0,
        target_pid,
        visits[k].facts,
        Some(windows[k].1),
    )
    &&& candidate.1 == visits[k].nodes
}

/// Every candidate is what some visit brought, later candidates come from later
/// visits, and no visit that brought an action is left out.
pub(crate) proof fn lemma_matched(windows: Seq<(u64, usize)>, target_pid: u32, visits: Seq<WindowVisit>) -> (
    source: Seq<int>)
    ensures
        source.len() == matched(windows, target_pid, visits).len(),
        forall|i: int|
            0 <= i < source.len() ==> comes_from(
                windows,
                target_pid,
                visits,
                matched(windows, target_pid, visits)[i],
                #[trigger] source[i],
            ),
        forall|i: int, j: int|
            0 <= i < j < source.len() ==> #[trigger] source[i] < #[trigger] source[j],
        forall|k: int|
            0 <= k < visits.len() && (#[trigger] visits[k]).has_action()
                ==> source.contains(k),
    decreases visits.len(),
{
    if visits.len() == 0 {
        Seq::empty()
    } else {
        let front = visits.drop_last();
        let before = lemma_matched(windows, target_pid, front);
        let last = visits.len() - 1;
        let found = matched(windows, target_pid, visits);
        assert forall|i: int| 0 <= i < before.len() implies comes_from(
            windows,
            target_pid,
            visits,
            found[i],
            #[trigger] before[i],
        ) by {
            assert(front[before[i]] == visits[before[i]]);
        }
        let source = match visits.last().action() {
            Ok(Some(_)) => before.push(last),
            _ => before,
        };
        assert forall|k: int|
            0 <= k < visits.len() && (#[trigger] visits[k]).has_action() implies source.contains(k) by {
            if k < last {
                assert(front[k] == visits[k]);
                assert(before.contains(k));
                let i = choose|i: int| 0 <= i < before.len() && before[i] == k;
                assert(source[i] == k);
            } else {
                assert(source.last() == k);
            }
        }
        source
    }
}

proof fn lemma_walked_are_sorted(
    windows: Seq<(u64, usize)>,
    target_pid: u32,
    visits: Seq<WindowVisit>,
)
    ensures
        walked(visits).to_multiset() == unmatched(visits).to_multiset().add(
            trees_of(matched(windows, target_pid, visits)).to_multiset(),
        ),
    decreases visits.len(),
{
    broadcast use vstd::seq_lib::group_to_multiset_ensures;

    if visits.len() == 0 {
        assert(walked(visits) =~= Seq::empty());
        assert(trees_of(matched(windows, target_pid, visits)) =~= Seq::empty());
        lemma_empty_multiset();
        assert(walked(visits).to_multiset() =~= unmatched(visits).to_multiset().add(
            trees_of(matched(windows, target_pid, visits)).to_multiset(),
        ));
    } else {
        let front = visits.drop_last();
        lemma_walked_are_sorted(windows, target_pid, front);
        assert(walked(visits) =~= walked(front).push(visits.last().nodes));
        let before = matched(windows, target_pid, front);
        match visits.last().action() {
            Ok(Some(_)) => {
                assert(trees_of(matched(windows, target_pid, visits)) =~= trees_of(before).push(
                    visits.last().nodes,
                ));
            },
            _ => {},
        }
        assert(walked(visits).to_multiset() =~= unmatched(visits).to_multiset().add(
            trees_of(matched(windows, target_pid, visits)).to_multiset(),
        ));
    }
}

proof fn lemma_empty_multiset()
    ensures
        Seq::<Vec<UiaNode>>::empty().to_multiset() == vstd::multiset::Multiset::<
            Vec<UiaNode>,
        >::empty(),
{
    broadcast use vstd::seq_lib::group_to_multiset_ensures;

    assert(Seq::<Vec<UiaNode>>::empty().to_multiset() =~= vstd::multiset::Multiset::empty());
}

/// The trees that are kept and released are those of the candidates, each once,
/// but for those after a clash, where there are any.
proof fn lemma_sorted_trees_account(found: Seq<PromptCandidate>, selected: usize)
    ensures
        ({
            let sorted = sorted_trees(found, selected);
            let all = trees_of(found).to_multiset();
            &&& sorted.clash ==> sorted.kept is None && sorted.released.to_multiset().subset_of(all)
            &&& !sorted.clash ==> match sorted.kept {
                Some(tree) => all == sorted.released.to_multiset().insert(tree),
                None => all == sorted.released.to_multiset(),
            }
            &&& sorted.clash && !sorted_trees(found.drop_last(), selected).clash ==> all
                == sorted.released.to_multiset()
        }),
    decreases found.len(),
{
    broadcast use vstd::seq_lib::group_to_multiset_ensures;

    if found.len() == 0 {
        assert(trees_of(found) =~= Seq::empty());
    } else {
        let front = found.drop_last();
        lemma_sorted_trees_account(front, selected);
        assert(trees_of(found) =~= trees_of(front).push(found.last().1));
        let sorted = sorted_trees(found, selected);
        let all = trees_of(found).to_multiset();
        if sorted.clash {
            assert(sorted.released.to_multiset().subset_of(all));
            if !sorted_trees(front, selected).clash {
                assert(all =~= sorted.released.to_multiset());
            }
        } else if sorted.kept is Some {
            assert(all =~= sorted.released.to_multiset().insert(sorted.kept->0));
        } else {
            assert(all =~= sorted.released.to_multiset());
        }
    }
}

/// A clash is due to two candidates with the chosen element.
proof fn lemma_clash_needs_two(found: Seq<PromptCandidate>, selected: usize)
    ensures
        sorted_trees(found, selected).kept is Some || sorted_trees(found, selected).clash
            ==> exists|i: int|
            0 <= i < found.len() && (#[trigger] found[i]).0.allow_element_ptr == selected,
        sorted_trees(found, selected).clash ==> exists|i: int, j: int|
            0 <= i < j < found.len() && (#[trigger] found[i]).0.allow_element_ptr == selected && (
            #[trigger] found[j]).0.allow_element_ptr == selected,
        sorted_trees(found, selected).kept matches Some(tree) ==> exists|i: int|
            0 <= i < found.len() && (#[trigger] found[i]).0.allow_element_ptr == selected
                && found[i].1 == tree,
    decreases found.len(),
{
    if found.len() > 0 {
        let front = found.drop_last();
        lemma_clash_needs_two(front, selected);
        let before = sorted_trees(front, selected);
        let last = found.len() - 1;
        if before.clash {
            let (i, j) = choose|i: int, j: int|
                0 <= i < j < front.len() && (#[trigger] front[i]).0.allow_element_ptr == selected
                    && (#[trigger] front[j]).0.allow_element_ptr == selected;
            assert(found[i] == front[i] && found[j] == front[j]);
        } else if before.kept is Some {
            let i = choose|i: int|
                0 <= i < front.len() && (#[trigger] front[i]).0.allow_element_ptr == selected
                    && front[i].1 == before.kept->0;
            assert(found[i] == front[i]);
            assert(found[last] == found.last());
        } else {
            assert(found[last] == found.last());
        }
    }
}

/// Where no window is listed twice, no two candidates have the chosen element.
proof fn lemma_no_clash(
    windows: Seq<(u64, usize)>,
    target_pid: u32,
    visits: Seq<WindowVisit>,
    selected: usize,
)
    requires
        windows_differ(windows),
        visits.len() <= windows.len(),
        owned::chosen_topmost(evidence_of(matched(windows, target_pid, visits))) == Ok::<
            usize,
            RefusalView,
        >(selected),
    ensures
        !sorted_trees(matched(windows, target_pid, visits), selected).clash,
{
    let found = matched(windows, target_pid, visits);
    let evidence = evidence_of(found);
    let source = lemma_matched(windows, target_pid, visits);
    lemma_clash_needs_two(found, selected);
    if sorted_trees(found, selected).clash {
        let (i, j) = choose|i: int, j: int|
            0 <= i < j < found.len() && (#[trigger] found[i]).0.allow_element_ptr == selected && (
            #[trigger] found[j]).0.allow_element_ptr == selected;
        owned::lemma_choice_is_proven(evidence);
        assert(evidence[i] == found[i].0 && evidence[j] == found[j].0);
        assert(found[i].0.prompt_hwnd == found[j].0.prompt_hwnd);
        assert(comes_from(windows, target_pid, visits, found[i], source[i]));
        assert(comes_from(windows, target_pid, visits, found[j], source[j]));
        assert(windows[source[i]].0 != windows[source[j]].0);
    }
}

/// Whether no tree is left behind by a scan, neither kept nor released: there is
/// no candidate after a second one with the chosen element.
pub open spec fn leaves_none_behind(
    windows: Seq<(u64, usize)>,
    target_pid: u32,
    visits: Seq<WindowVisit>,
) -> bool {
    let found = matched(windows, target_pid, visits);
    ||| visits.len() > 0 && visits.last().action() is Err
    ||| (owned::chosen_topmost(evidence_of(found)) matches Ok(selected) ==> !sorted_trees(
        found.drop_last(),
        selected,
    ).clash)
}

/// Where no window is listed twice, no tree is left behind.
pub proof fn lemma_differing_windows_leave_none_behind(
    windows: Seq<(u64, usize)>,
    target_pid: u32,
    visits: Seq<WindowVisit>,
)
    requires
        windows_differ(windows),
        visits.len() <= windows.len(),
    ensures
        leaves_none_behind(windows, target_pid, visits),
{
    let found = matched(windows, target_pid, visits);
    match owned::chosen_topmost(evidence_of(found)) {
        Ok(selected) => {
            lemma_no_clash(windows, target_pid, visits, selected);
            let top = choose|i: int| #[trigger] owned::is_topmost(evidence_of(found), i);
            assert(owned::is_topmost(evidence_of(found), top));
        },
        Err(_) => {},
    }
}

proof fn lemma_released_after_unmatched(
    windows: Seq<(u64, usize)>,
    target_pid: u32,
    visits: Seq<WindowVisit>,
)
    ensures
        ({
            let found = matched(windows, target_pid, visits);
            released_in_all(windows, target_pid, visits) == unmatched(visits) + if visits.len() > 0
                && visits.last().action() is Err {
                trees_of(found)
            } else {
                settled(found).1
            }
        }),
{
    let found = matched(windows, target_pid, visits);
    lemma_unmatched_trees_are_handed_over(visits);
    assert(handed_over(visits) + (pending(visits) + trees_of(found)) =~= (handed_over(visits)
        + pending(visits)) + trees_of(found));
    assert(handed_over(visits) + (pending(visits) + settled(found).1) =~= (handed_over(visits)
        + pending(visits)) + settled(found).1);
}

/// No tree is released twice: what is released was walked, and as often.
pub proof fn lemma_released_once(
    windows: Seq<(u64, usize)>,
    target_pid: u32,
    visits: Seq<WindowVisit>,
)
    ensures
        released_in_all(windows, target_pid, visits).to_multiset().subset_of(
            walked(visits).to_multiset(),
        ),
{
    broadcast use vstd::seq_lib::group_to_multiset_ensures;

    let found = matched(windows, target_pid, visits);
    lemma_released_after_unmatched(windows, target_pid, visits);
    lemma_walked_are_sorted(windows, target_pid, visits);
    vstd::seq_lib::lemma_multiset_commutative(unmatched(visits), trees_of(found));
    vstd::seq_lib::lemma_multiset_commutative(unmatched(visits), settled(found).1);
    match owned::chosen_topmost(evidence_of(found)) {
        Ok(selected) => {
            lemma_sorted_trees_account(found, selected);
        },
        Err(_) => {},
    }
}

/// Every tree that was walked is accounted for, unless the scan leaves some
/// behind: it is released once, but for the one that keeps the chosen element
/// alive.
pub proof fn lemma_every_tree_is_accounted_for(
    windows: Seq<(u64, usize)>,
    target_pid: u32,
    visits: Seq<WindowVisit>,
)
    requires
        leaves_none_behind(windows, target_pid, visits),
    ensures
        ({
            let chosen = scanned(windows, target_pid, visits).0;
            let released = released_in_all(windows, target_pid, visits);
            let all = walked(visits).to_multiset();
            match chosen {
                Ok((_, kept)) => exists|tree: Vec<UiaNode>| #[trigger]
                    released.to_multiset().insert(tree) == all && tree@ == kept,
                Err(_) => released.to_multiset() == all,
            }
        }),
{
    broadcast use vstd::seq_lib::group_to_multiset_ensures;

    let found = matched(windows, target_pid, visits);
    let all = walked(visits).to_multiset();
    let chosen = scanned(windows, target_pid, visits).0;
    let released = released_in_all(windows, target_pid, visits);
    lemma_released_after_unmatched(windows, target_pid, visits);
    lemma_walked_are_sorted(windows, target_pid, visits);
    vstd::seq_lib::lemma_multiset_commutative(unmatched(visits), trees_of(found));
    vstd::seq_lib::lemma_multiset_commutative(unmatched(visits), settled(found).1);
    match owned::chosen_topmost(evidence_of(found)) {
        Ok(selected) => {
            lemma_sorted_trees_account(found, selected);
            let top = choose|i: int| #[trigger] owned::is_topmost(evidence_of(found), i);
            assert(owned::is_topmost(evidence_of(found), top));
            lemma_selected_is_kept(found, selected, top);
            if chosen is Ok {
                let tree = sorted_trees(found, selected).kept->0;
                assert(released.to_multiset().insert(tree) =~= all);
            }
        },
        Err(_) => {},
    }
}

/// Whether visit `k` found `element` as a native button of a prompt in the tree
/// with the rows `kept`, in a window that the target owns and that stands above
/// every other window with an action.
pub open spec fn is_topmost_visit(
    windows: Seq<(u64, usize)>,
    target_pid: u32,
    visits: Seq<WindowVisit>,
    element: usize,
    kept: Seq<UiaNode>,
    k: int,
) -> bool {
    &&& 0 <= k < visits.len()
    &&& visits[k].nodes@ == kept
    &&& visits[k].action() == Ok::<Option<usize>, RefusalView>(Some(element))
    &&& native::is_target_owned(windows[k].0, target_pid, visits[k].facts)
    &&& forall|l: int|
        0 <= l < visits.len() && l != k && (#[trigger] visits[l]).has_action() ==> windows[k].1
            < windows[l].1
}

/// What a scan chooses is a native button of a prompt, found in the tree that is
/// kept, in a window that the target owns and that stands above every other
/// window with an action.
pub proof fn lemma_scan_chooses_topmost(
    windows: Seq<(u64, usize)>,
    target_pid: u32,
    visits: Seq<WindowVisit>,
)
    requires
        is_scan(windows, visits),
        scanned(windows, target_pid, visits).0 is Ok,
    ensures
        ({
            let (element, kept) = scanned(windows, target_pid, visits).0->Ok_0;
            &&& exists|k: int| #[trigger]
                is_topmost_visit(windows, target_pid, visits, element, kept, k)
            &&& holds_prompt_button(kept, element)
        }),
{
    let found = matched(windows, target_pid, visits);
    let evidence = evidence_of(found);
    let source = lemma_matched(windows, target_pid, visits);
    let (element, kept) = scanned(windows, target_pid, visits).0->Ok_0;
    let top = choose|i: int| #[trigger] owned::is_topmost(evidence, i);
    owned::lemma_choice_is_proven(evidence);
    lemma_selected_is_kept(found, element, top);
    lemma_clash_needs_two(found, element);
    let tree = sorted_trees(found, element).kept->0;
    let i = choose|i: int|
        0 <= i < found.len() && (#[trigger] found[i]).0.allow_element_ptr == element && found[i].1
            == tree;
    let k = source[i];
    assert(comes_from(windows, target_pid, visits, found[i], k));
    assert(evidence[i] == found[i].0);
    assert(evidence[i].is_complete());
    native::lemma_complete_evidence_is_target_owned(
        element,
        windows[k].0,
        target_pid,
        visits[k].facts,
        Some(windows[k].1),
    );
    assert(visits[k].action() == Ok::<Option<usize>, RefusalView>(Some(element)));
    lemma_only_topmost_has_element(found, element, top, i);
    assert forall|l: int|
        0 <= l < visits.len() && l != k && (#[trigger] visits[l]).has_action() implies windows[k].1
        < windows[l].1 by {
        assert(source.contains(l));
        let j = choose|j: int| 0 <= j < source.len() && source[j] == l;
        assert(comes_from(windows, target_pid, visits, found[j], source[j]));
        assert(evidence[j] == found[j].0);
    }
    assert(is_topmost_visit(windows, target_pid, visits, element, kept, k));
    actions::lemma_sole_action_is_prompt_button(
        node::rows(visits[k].nodes@),
        visits[k].replies,
        element,
    );
}

/// Where the choice stands, the candidate with the chosen element is the topmost
/// one.
proof fn lemma_only_topmost_has_element(
    found: Seq<PromptCandidate>,
    element: usize,
    top: int,
    i: int,
)
    requires
        owned::chosen_topmost(evidence_of(found)) == Ok::<usize, RefusalView>(element),
        !sorted_trees(found, element).clash,
        owned::is_topmost(evidence_of(found), top),
        0 <= i < found.len(),
        found[i].0.allow_element_ptr == element,
    ensures
        i == top,
{
    let evidence = evidence_of(found);
    owned::lemma_choice_is_proven(evidence);
    assert(evidence[top] == found[top].0);
    if i < top {
        lemma_two_clash(found, element, i, top);
    } else if top < i {
        lemma_two_clash(found, element, top, i);
    }
}

proof fn lemma_two_clash(found: Seq<PromptCandidate>, selected: usize, i: int, j: int)
    requires
        0 <= i < j < found.len(),
        found[i].0.allow_element_ptr == selected,
        found[j].0.allow_element_ptr == selected,
    ensures
        sorted_trees(found, selected).clash,
    decreases found.len(),
{
    let front = found.drop_last();
    if j < found.len() - 1 {
        lemma_two_clash(front, selected, i, j);
    } else {
        lemma_selected_is_kept(front, selected, i);
    }
}

/// Whether an element is a native button of a prompt in a tree.
pub open spec fn holds_prompt_button(tree: Seq<UiaNode>, element: usize) -> bool {
    exists|root: int, row: int| #[trigger]
        actions::is_prompt_button(node::rows(tree), element, root, row)
}

/// For a target window nothing is chosen, and nothing refused, exactly where its
/// tree shows no prompt.
pub proof fn lemma_no_button_only_without_prompt(
    nodes: Seq<UiaNode>,
    replies: Seq<Seq<ButtonReply>>,
    scan: (Result<(usize, Seq<UiaNode>), RefusalView>, Seq<Vec<UiaNode>>),
)
    requires
        actions::is_transcript(node::rows(nodes), replies),
    ensures
        chosen_for_target(actions::allow_actions(node::rows(nodes), replies), scan).0 == Ok::<
            Option<(usize, Seq<UiaNode>)>,
            RefusalView,
        >(None) <==> crate::surface::prompts(node::rows(nodes)).len() == 0,
{
    actions::lemma_no_action_only_without_prompt(node::rows(nodes), replies);
}

/// What is chosen for a target window is a native button of a prompt, in the
/// tree of the window itself or in the tree that is kept with it.
pub proof fn lemma_target_choice_is_prompt_button(
    nodes: Seq<UiaNode>,
    replies: Seq<Seq<ButtonReply>>,
    windows: Seq<(u64, usize)>,
    target_pid: u32,
    visits: Seq<WindowVisit>,
)
    requires
        actions::is_transcript(node::rows(nodes), replies),
        needs_scan(actions::allow_actions(node::rows(nodes), replies)) ==> is_scan(windows, visits),
    ensures
        ({
            let found = actions::allow_actions(node::rows(nodes), replies);
            let chosen = chosen_for_target(found, scanned(windows, target_pid, visits)).0;
            chosen matches Ok(Some((element, kept))) ==> {
                let tree = if needs_scan(found) {
                    kept
                } else {
                    nodes
                };
                holds_prompt_button(tree, element)
            }
        }),
{
    let found = actions::allow_actions(node::rows(nodes), replies);
    let chosen = chosen_for_target(found, scanned(windows, target_pid, visits)).0;
    if chosen is Ok && chosen->Ok_0 is Some {
        if needs_scan(found) {
            lemma_scan_chooses_topmost(windows, target_pid, visits);
        } else {
            actions::lemma_sole_action_is_prompt_button(
                node::rows(nodes),
                replies,
                (found->Ok_0)[0],
            );
        }
    }
}

} // verus!
