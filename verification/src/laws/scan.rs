//! The windows that the target owns: how they are scanned, which of them decides,
//! and what becomes of their trees.

use vstd::prelude::*;

use crate::actions::{self, ButtonReply};
use crate::laws::buttons::is_refused;
use crate::look::Look;
use crate::native::{evidence_for, WindowFacts};
use crate::node::{self, UiaNode};
use crate::owned::chosen_topmost;
use crate::refusal::RefusalView;
use crate::session::EventView;
use crate::surface::prompts;
use crate::target::{
    self, evidence_of, handed, is_scan, matched, scanned, settled, sorted_trees, trees_of, Inquiry,
    PromptCandidate, SettledTrees, TargetSelection, WindowVisit,
};

verus! {

/// What is found in a window is what its tree and the answers of its elements give.
pub proof fn lemma_visit_finds_the_sole_action(visit: WindowVisit)
    ensures
        visit.action() == actions::sole_action(
            actions::allow_actions(node::rows(visit.nodes@), visit.replies),
        ),
        visit.has_action() <==> visit.action() is Ok && visit.action()->Ok_0 is Some,
        visit.unneeded() is Some <==> !visit.has_action(),
        visit.unneeded() matches Some(tree) ==> tree == visit.nodes,
{
}

/// Whether a candidate is window `k`: its tree, and the evidence that the system
/// gave for the action that was found in it.
pub open spec fn is_of_window(
    windows: Seq<(u64, usize)>,
    pid: u32,
    visits: Seq<WindowVisit>,
    candidate: PromptCandidate,
    k: int,
) -> bool {
    &&& 0 <= k < visits.len()
    &&& candidate.1 == visits[k].nodes
    &&& visits[k].action() is Ok
    &&& visits[k].action()->Ok_0 is Some
    &&& candidate.0 == evidence_for(
        visits[k].action()->Ok_0->0,
        windows[k].0,
        pid,
        visits[k].facts,
        Some(windows[k].1),
    )
}

/// The candidates are the windows with an action, all of them, in order.
pub proof fn lemma_candidates_are_the_windows_with_an_action(
    windows: Seq<(u64, usize)>,
    pid: u32,
    visits: Seq<WindowVisit>,
) -> (places: Seq<int>)
    ensures
        places.len() == matched(windows, pid, visits).len(),
        forall|t: int|
            0 <= t < places.len() ==> is_of_window(
                windows,
                pid,
                visits,
                matched(windows, pid, visits)[t],
                #[trigger] places[t],
            ),
        forall|t: int, u: int|
            0 <= t < u < places.len() ==> #[trigger] places[t] < #[trigger] places[u],
        forall|k: int|
            0 <= k < visits.len() && (#[trigger] visits[k]).action() is Ok
                && visits[k].action()->Ok_0 is Some ==> places.contains(k),
{
    let found = matched(windows, pid, visits);
    let places = target::lemma_matched(windows, pid, visits);
    assert forall|t: int| 0 <= t < places.len() implies is_of_window(
        windows,
        pid,
        visits,
        found[t],
        #[trigger] places[t],
    ) by {
        assert(target::comes_from(windows, pid, visits, found[t], places[t]));
    }
    assert forall|k: int|
        0 <= k < visits.len() && (#[trigger] visits[k]).action() is Ok
            && visits[k].action()->Ok_0 is Some implies places.contains(k) by {
        assert(visits[k].has_action());
    }
    places
}

/// Whether candidate `p` has the element.
pub open spec fn has_element(found: Seq<PromptCandidate>, element: usize, p: int) -> bool {
    0 <= p < found.len() && found[p].0.allow_element_ptr == element
}

proof fn lemma_sorted_without(found: Seq<PromptCandidate>, element: usize)
    requires
        forall|i: int| !#[trigger] has_element(found, element, i),
    ensures
        sorted_trees(found, element).kept is None,
        !sorted_trees(found, element).clash,
        sorted_trees(found, element).released == trees_of(found),
    decreases found.len(),
{
    if found.len() > 0 {
        let front = found.drop_last();
        assert forall|i: int| !#[trigger] has_element(front, element, i) by {
            assert(!has_element(found, element, i));
        }
        lemma_sorted_without(front, element);
        assert(!has_element(found, element, found.len() - 1));
        assert(trees_of(found) =~= trees_of(front).push(found.last().1));
    } else {
        assert(trees_of(found) =~= Seq::empty());
    }
}

proof fn lemma_sorted_with_one(found: Seq<PromptCandidate>, element: usize, p: int)
    requires
        has_element(found, element, p),
        forall|i: int| #[trigger] has_element(found, element, i) ==> i == p,
    ensures
        sorted_trees(found, element).kept == Some(found[p].1),
        !sorted_trees(found, element).clash,
        sorted_trees(found, element).released == trees_of(found).remove(p),
    decreases found.len(),
{
    let front = found.drop_last();
    let last = found.len() - 1;
    assert(trees_of(found) =~= trees_of(front).push(found.last().1));
    if p == last {
        assert forall|i: int| !#[trigger] has_element(front, element, i) by {
            if has_element(front, element, i) {
                assert(has_element(found, element, i));
            }
        }
        lemma_sorted_without(front, element);
        assert(trees_of(found).remove(p) =~= trees_of(front));
    } else {
        assert forall|i: int| #[trigger] has_element(front, element, i) implies i == p by {
            assert(has_element(found, element, i));
        }
        assert(has_element(front, element, p));
        lemma_sorted_with_one(front, element, p);
        assert(!has_element(found, element, last));
        assert(trees_of(found).remove(p) =~= trees_of(front).remove(p).push(found.last().1));
    }
}

proof fn lemma_sorted_with_two(found: Seq<PromptCandidate>, element: usize, p: int, q: int)
    requires
        p < q,
        has_element(found, element, p),
        has_element(found, element, q),
        forall|i: int| #[trigger] has_element(found, element, i) && i < q ==> i == p,
    ensures
        sorted_trees(found, element).clash,
        sorted_trees(found, element).released == trees_of(found).take(q).remove(p).push(
            found[q].1,
        ).push(found[p].1),
    decreases found.len(),
{
    let front = found.drop_last();
    let last = found.len() - 1;
    if q == last {
        assert(has_element(front, element, p));
        assert forall|i: int| #[trigger] has_element(front, element, i) implies i == p by {
            assert(has_element(found, element, i));
        }
        lemma_sorted_with_one(front, element, p);
        assert(trees_of(found).take(q) =~= trees_of(front));
    } else {
        assert(has_element(front, element, p) && has_element(front, element, q));
        assert forall|i: int| #[trigger] has_element(front, element, i) && i < q implies i == p by {
            assert(has_element(found, element, i));
        }
        lemma_sorted_with_two(front, element, p, q);
        assert(trees_of(found).take(q) =~= trees_of(front).take(q));
    }
}

/// Where no window decides, the refusal is passed on and every candidate's tree is
/// released, in order.
pub proof fn lemma_undecided_windows_release_all(found: Seq<PromptCandidate>, why: RefusalView)
    requires
        chosen_topmost(evidence_of(found)) == Err::<usize, RefusalView>(why),
    ensures
        settled(found).0 == Err::<(usize, Seq<UiaNode>), RefusalView>(why),
        settled(found).1.len() == found.len(),
        forall|i: int| 0 <= i < found.len() ==> settled(found).1[i] == (#[trigger] found[i]).1,
{
}

/// Where one candidate has the element that was chosen, it is given with its tree,
/// and every other tree is released, in order.
pub proof fn lemma_deciding_window_keeps_its_tree(
    found: Seq<PromptCandidate>,
    element: usize,
    p: int,
)
    requires
        chosen_topmost(evidence_of(found)) == Ok::<usize, RefusalView>(element),
        has_element(found, element, p),
        forall|i: int| #[trigger] has_element(found, element, i) ==> i == p,
    ensures
        settled(found).0 == Ok::<(usize, Seq<UiaNode>), RefusalView>((element, found[p].1@)),
        settled(found).1.len() == found.len() - 1,
        forall|i: int| 0 <= i < p ==> settled(found).1[i] == (#[trigger] found[i]).1,
        forall|i: int| p < i < found.len() ==> settled(found).1[i - 1] == (#[trigger] found[i]).1,
{
    lemma_sorted_with_one(found, element, p);
}

/// Where two candidates have the element that was chosen, this is refused. The trees
/// up to the second one are released, in order, those of the two last.
pub proof fn lemma_element_of_two_windows_is_refused(
    found: Seq<PromptCandidate>,
    element: usize,
    p: int,
    q: int,
)
    requires
        chosen_topmost(evidence_of(found)) == Ok::<usize, RefusalView>(element),
        p < q,
        has_element(found, element, p),
        has_element(found, element, q),
        forall|i: int| #[trigger] has_element(found, element, i) && i < q ==> i == p,
    ensures
        is_refused(
            settled(found).0,
            "multiple native Chromium consent windows shared one UI Automation action identity"@,
        ),
        settled(found).1.len() == q + 1,
        forall|i: int| 0 <= i < p ==> settled(found).1[i] == (#[trigger] found[i]).1,
        forall|i: int| p < i < q ==> settled(found).1[i - 1] == (#[trigger] found[i]).1,
        settled(found).1[q - 1] == found[q].1,
        settled(found).1[q] == found[p].1,
{
    lemma_sorted_with_two(found, element, p, q);
}

/// The evidence and the trees of candidates are those they hold, in order.
pub proof fn lemma_candidates_are_told_by_their_parts(found: Seq<PromptCandidate>)
    ensures
        evidence_of(found).len() == found.len(),
        trees_of(found).len() == found.len(),
        forall|i: int| 0 <= i < found.len() ==> evidence_of(found)[i] == (#[trigger] found[i]).0,
        forall|i: int| 0 <= i < found.len() ==> trees_of(found)[i] == (#[trigger] found[i]).1,
{
}

/// A window that is refused refuses the scan. Its tree is released first, and then
/// that of every window with an action before it. Where none is refused, the windows
/// with an action decide, and the tree of the last window is released before theirs
/// if it has no action.
pub proof fn lemma_scan_is_decided_by(
    windows: Seq<(u64, usize)>,
    pid: u32,
    visits: Seq<WindowVisit>,
)
    ensures
        ({
            let found = matched(windows, pid, visits);
            let (outcome, released) = scanned(windows, pid, visits);
            if visits.len() == 0 {
                outcome == settled(found).0 && released == settled(found).1
            } else {
                match visits.last().action() {
                    Err(why) => {
                        &&& outcome == Err::<(usize, Seq<UiaNode>), RefusalView>(why)
                        &&& released == seq![visits.last().nodes] + trees_of(found)
                    },
                    Ok(None) => {
                        &&& outcome == settled(found).0
                        &&& released == seq![visits.last().nodes] + settled(found).1
                    },
                    Ok(Some(_)) => {
                        &&& outcome == settled(found).0
                        &&& released == settled(found).1
                    },
                }
            }
        }),
{
    let found = matched(windows, pid, visits);
    assert(Seq::<Vec<UiaNode>>::empty() + settled(found).1 =~= settled(found).1);
}

/// The windows are visited in the order in which they are listed, until one is
/// refused or none is left.
pub proof fn lemma_scan_visits_the_windows(
    windows: Seq<(u64, usize)>,
    visits: Seq<WindowVisit>,
)
    requires
        is_scan(windows, visits),
    ensures
        visits.len() <= windows.len(),
        forall|k: int|
            0 <= k < visits.len() ==> actions::is_transcript(
                node::rows((#[trigger] visits[k]).nodes@),
                visits[k].replies,
            ),
        forall|k: int|
            0 <= k < visits.len() && (#[trigger] visits[k]).action() is Err ==> k == visits.len() - 1,
        visits.len() < windows.len() ==> visits.len() > 0 && visits.last().action() is Err,
{
}

/// Before a window is walked, exactly the tree of the window before it is handed
/// over, and only where it has no action.
pub proof fn lemma_handed_over_is(visits: Seq<WindowVisit>, k: int)
    requires
        0 <= k <= visits.len(),
    ensures
        handed(visits, k) is Some <==> k > 0 && !(visits[k - 1].action() is Ok
            && visits[k - 1].action()->Ok_0 is Some),
        handed(visits, k) matches Some(tree) ==> tree == visits[k - 1].nodes,
{
}

/// Each window is walked once, in order, each walk starting where the one before it
/// has ended. The elements of its tree are asked, and the system is asked about it
/// where an action was found.
pub proof fn lemma_each_window_is_walked_once<
    S,
    W: FnMut(S, Option<Vec<UiaNode>>, u64) -> (S, Vec<UiaNode>),
    P: FnMut(usize) -> ButtonReply,
    N: FnMut(u64) -> WindowFacts,
>(
    windows: Seq<(u64, usize)>,
    walker: S,
    after: S,
    walk: W,
    ask: P,
    inspect: N,
    visits: Seq<WindowVisit>,
) -> (walkers: Seq<S>)
    requires
        target::visits_lead(windows, walker, after, walk, ask, inspect, visits),
    ensures
        walkers.len() == visits.len() + 1,
        walkers[0] == walker,
        walkers[visits.len() as int] == after,
        forall|k: int| #![trigger visits[k]]
            0 <= k < visits.len() ==> {
                &&& call_ensures(
                    walk,
                    (walkers[k], handed(visits, k), windows[k].0),
                    (walkers[k + 1], visits[k].nodes),
                )
                &&& actions::replies_of(ask, node::rows(visits[k].nodes@), visits[k].replies)
                &&& visits[k].action() is Ok && visits[k].action()->Ok_0 is Some ==> call_ensures(
                    inspect,
                    (windows[k].0,),
                    visits[k].facts,
                )
            },
{
    let walkers = choose|walkers: Seq<S>| #[trigger]
        target::visits_of(windows, walkers, walk, ask, inspect, visits) && walkers.first()
            == walker && walkers.last() == after;
    assert forall|k: int| #![trigger visits[k]] 0 <= k < visits.len() implies {
        &&& call_ensures(
            walk,
            (walkers[k], handed(visits, k), windows[k].0),
            (walkers[k + 1], visits[k].nodes),
        )
        &&& actions::replies_of(ask, node::rows(visits[k].nodes@), visits[k].replies)
        &&& visits[k].action() is Ok && visits[k].action()->Ok_0 is Some ==> call_ensures(
            inspect,
            (windows[k].0,),
            visits[k].facts,
        )
    } by {
        assert(target::is_visit_of(windows, walkers, walk, ask, inspect, visits, k));
    }
    walkers
}

/// A scan asks nothing that cannot be asked of walks, elements and the system that
/// answer whatever they are asked.
pub proof fn lemma_whatever_answers_can_be_scanned<
    S,
    D: FnOnce() -> Vec<(u64, usize)>,
    W: FnMut(S, Option<Vec<UiaNode>>, u64) -> (S, Vec<UiaNode>),
    P: FnMut(usize) -> ButtonReply,
    N: FnMut(u64) -> WindowFacts,
>(
    nodes: Seq<UiaNode>,
    windows: Seq<(u64, usize)>,
    owned_windows: D,
    walker: S,
    walk: W,
    ask: P,
    inspect: N,
)
    requires
        call_requires(owned_windows, ()),
        forall|s: S, unneeded: Option<Vec<UiaNode>>, window: u64| #[trigger]
            call_requires(walk, (s, unneeded, window)),
        forall|element: usize| #[trigger] call_requires(ask, (element,)),
        forall|window: u64| #[trigger] call_requires(inspect, (window,)),
    ensures
        target::can_scan(windows, walker, walk, ask, inspect),
        target::can_inquire(nodes, owned_windows, walker, walk, ask, inspect),
{
}

/// The tree of the target window decides alone where it is refused, shows no action,
/// or shows one action, however often. Only two different actions are left to a scan,
/// and then the scan decides alone.
pub proof fn lemma_target_is_decided_by(inquiry: Inquiry, nodes: Seq<UiaNode>, pid: u32)
    ensures
        ({
            let (outcome, left) = inquiry.chosen(nodes, pid);
            let scan = scanned(inquiry.windows@, pid, inquiry.visits);
            match actions::allow_actions(node::rows(nodes), inquiry.replies) {
                Err(why) => {
                    &&& outcome == Err::<Option<(usize, Seq<UiaNode>)>, RefusalView>(why)
                    &&& left.len() == 0
                    &&& !inquiry.scans(nodes)
                },
                Ok(found) => {
                    &&& found.len() == 0 ==> {
                        &&& outcome == Ok::<Option<(usize, Seq<UiaNode>)>, RefusalView>(None)
                        &&& left.len() == 0
                        &&& !inquiry.scans(nodes)
                    }
                    &&& found.len() > 0 && (forall|i: int|
                        0 <= i < found.len() ==> #[trigger] found[i] == found[0]) ==> {
                        &&& outcome matches Ok(Some((element, kept))) && element == found[0]
                            && kept.len() == 0
                        &&& left.len() == 0
                        &&& !inquiry.scans(nodes)
                    }
                    &&& forall|i: int|
                        0 <= i < found.len() && #[trigger] found[i] != found[0] ==> {
                            &&& inquiry.scans(nodes)
                            &&& left == scan.1
                            &&& match scan.0 {
                                Ok((element, kept)) => outcome == Ok::<
                                    Option<(usize, Seq<UiaNode>)>,
                                    RefusalView,
                                >(Some((element, kept))),
                                Err(why) => outcome == Err::<
                                    Option<(usize, Seq<UiaNode>)>,
                                    RefusalView,
                                >(why),
                            }
                        }
                },
            }
        }),
{
}

/// An inquiry rests on what the elements of the tree answered and, where it was left
/// to a scan, on a scan of the windows that were listed. Otherwise nothing is walked.
pub proof fn lemma_inquiry_rests_on<
    S,
    D: FnOnce() -> Vec<(u64, usize)>,
    W: FnMut(S, Option<Vec<UiaNode>>, u64) -> (S, Vec<UiaNode>),
    P: FnMut(usize) -> ButtonReply,
    N: FnMut(u64) -> WindowFacts,
>(
    nodes: Seq<UiaNode>,
    owned_windows: D,
    walker: S,
    after: S,
    walk: W,
    ask: P,
    inspect: N,
    inquiry: Inquiry,
)
    requires
        target::is_inquiry(nodes, owned_windows, walker, after, walk, ask, inspect, inquiry),
    ensures
        actions::is_transcript(node::rows(nodes), inquiry.replies),
        actions::replies_of(ask, node::rows(nodes), inquiry.replies),
        inquiry.scans(nodes) ==> {
            &&& call_ensures(owned_windows, (), inquiry.windows)
            &&& is_scan(inquiry.windows@, inquiry.visits)
            &&& target::visits_lead(
                inquiry.windows@,
                walker,
                after,
                walk,
                ask,
                inspect,
                inquiry.visits,
            )
        },
        !inquiry.scans(nodes) ==> after == walker,
{
}

/// What a choice between windows gives, and what a choice for the target gives, is
/// told by its parts.
pub proof fn lemma_choices_are_told_by_their_parts(
    selection: target::OwnedPromptSelection,
    choice: TargetSelection,
)
    ensures
        match selection.button {
            Ok(button) => target::button_view(selection.button) == Ok::<
                (usize, Seq<UiaNode>),
                RefusalView,
            >((button.element_ptr, button.additional_nodes@)),
            Err(why) => target::button_view(selection.button) matches Err(told) && told.code
                == why.code && told.message == why.message@,
        },
        match choice.button {
            Ok(Some(button)) => target::target_view(choice.button) == Ok::<
                Option<(usize, Seq<UiaNode>)>,
                RefusalView,
            >(Some((button.element_ptr, button.additional_nodes@))),
            Ok(None) => target::target_view(choice.button) == Ok::<
                Option<(usize, Seq<UiaNode>)>,
                RefusalView,
            >(None),
            Err(why) => target::target_view(choice.button) matches Err(told) && told.code
                == why.code && told.message == why.message@,
        },
{
}

/// With a button, the tree that comes with it and the tree of the target are held,
/// in this order, and the other trees are released. Without one nothing is held and
/// the tree of the target is released last.
pub proof fn lemma_trees_are_settled(
    selection: TargetSelection,
    tree: Vec<UiaNode>,
    out: SettledTrees,
)
    requires
        target::settles(selection, tree, out),
    ensures
        selection.button matches Ok(Some(found)) ==> {
            &&& out.button matches Ok(Some(element)) && element == found.element_ptr
            &&& out.held@.len() == 2
            &&& out.held@[0] == found.additional_nodes
            &&& out.held@[1] == tree
            &&& out.released@ == selection.released@
        },
        !(selection.button matches Ok(Some(_))) ==> {
            &&& out.held@.len() == 0
            &&& out.released@.len() == selection.released@.len() + 1
            &&& out.released@.last() == tree
            &&& out.released@.drop_last() == selection.released@
            &&& out.button is Ok <==> selection.button is Ok
            &&& out.button matches Ok(found) ==> found is None
            &&& selection.button matches Err(why) ==> out.button == Err::<
                Option<usize>,
                crate::refusal::BrowserRefusal,
            >(why)
        },
{
    if !(selection.button matches Ok(Some(_))) {
        assert(out.released@.drop_last() =~= selection.released@);
    }
}

/// A look tells whether its tree shows a prompt, which element was chosen, and which
/// trees are held and released.
pub proof fn lemma_look_tells(look: Look, pid: u32, event: EventView)
    requires
        look.gives(pid, event),
    ensures
        ({
            let (chosen, left) = look.inquiry.chosen(look.tree@, pid);
            &&& event matches EventView::Inspected { prompt_present, button, held, released } && {
                &&& prompt_present <==> prompts(node::rows(look.tree@)).len() > 0
                &&& chosen matches Ok(Some((element, kept))) ==> {
                    &&& button == Ok::<Option<usize>, RefusalView>(Some(element))
                    &&& held.len() == 2 && held[0]@ == kept && held[1] == look.tree
                    &&& released == left
                }
                &&& !(chosen matches Ok(Some(_))) ==> {
                    &&& held.len() == 0
                    &&& released.len() == left.len() + 1
                    &&& released.last() == look.tree
                    &&& released.drop_last() == left
                }
                &&& chosen matches Ok(None) ==> button == Ok::<Option<usize>, RefusalView>(None)
                &&& chosen matches Err(why) ==> button == Err::<Option<usize>, RefusalView>(why)
            }
            &&& actions::is_transcript(node::rows(look.tree@), look.inquiry.replies)
        }),
{
    let left = look.inquiry.chosen(look.tree@, pid).1;
    assert(left.push(look.tree).drop_last() =~= left);
}

} // verus!
