//! A look at the target window: whether it shows a prompt, which button grants
//! the request, and what becomes of the trees that were walked for it.

use vstd::prelude::*;

use crate::native::WindowFacts;
use crate::node::{self, UiaNode};
use crate::refusal::{BrowserRefusal, RefusalView};
use crate::session::{
    self, ActionView, BrowserConsentRequest, ConsentEvent, ConsentPhase, EventView, SessionView,
};
use crate::surface::{self, native_prompt_surface_present};
use crate::target::{
    self, exact_allow_button_for_target, settle_target_tree, Inquiry, SettledTrees,
    TargetSelection,
};

verus! {

/// A look at the target window: its tree, and what was seen in choosing a button.
pub struct Look {
    pub tree: Vec<UiaNode>,
    pub inquiry: Inquiry,
}

/// The rows of each tree.
pub open spec fn contents(trees: Seq<Vec<UiaNode>>) -> Seq<Seq<UiaNode>> {
    trees.map_values(|tree: Vec<UiaNode>| tree@)
}

impl Look {
    /// Whether the tree shows a prompt.
    pub open spec fn shows_prompt(self) -> bool {
        surface::prompts(node::rows(self.tree@)).len() > 0
    }

    /// What is chosen, and which trees are left to be released but for that of the
    /// target window.
    pub open spec fn chosen(self, target_pid: u32) -> (
        Result<Option<(usize, Seq<UiaNode>)>, RefusalView>,
        Seq<Vec<UiaNode>>,
    ) {
        self.inquiry.chosen(self.tree@, target_pid)
    }

    /// Whether the windows that the target owns were scanned.
    pub open spec fn scans(self) -> bool {
        self.inquiry.scans(self.tree@)
    }

    /// Whether `event` tells what this look brought. With a button to press, the
    /// tree that comes with it and the tree of the target window are held, and
    /// without one the tree of the target window is released last.
    pub open spec fn gives(self, target_pid: u32, event: EventView) -> bool {
        let (chosen, left) = self.chosen(target_pid);
        &&& self.inquiry.is_of(self.tree@)
        &&& event matches EventView::Inspected { prompt_present, button, held, released }
        &&& prompt_present == self.shows_prompt()
        &&& match chosen {
            Ok(Some((element, kept))) => {
                &&& button == Ok::<Option<usize>, RefusalView>(Some(element))
                &&& held.len() == 2
                &&& held[0]@ == kept
                &&& held[1] == self.tree
                &&& released == left
            },
            Ok(None) => {
                &&& button == Ok::<Option<usize>, RefusalView>(None)
                &&& held.len() == 0
                &&& released == left.push(self.tree)
            },
            Err(refused) => {
                &&& button == Err::<Option<usize>, RefusalView>(refused)
                &&& held.len() == 0
                &&& released == left.push(self.tree)
            },
        }
    }

    /// The trees that were handed over to be released during the look.
    pub open spec fn handed_over(self) -> Seq<Vec<UiaNode>> {
        if self.scans() {
            target::handed_over(self.inquiry.visits)
        } else {
            Seq::empty()
        }
    }

    /// The rows of every tree of the look: that of the target window, and those of
    /// the windows that were scanned. Without a scan, a button comes with a tree
    /// that has no rows.
    pub open spec fn trees(self, target_pid: u32) -> Seq<Seq<UiaNode>> {
        if self.scans() {
            contents(target::walked(self.inquiry.visits)).push(self.tree@)
        } else if self.chosen(target_pid).0 matches Ok(Some(_)) {
            seq![Seq::empty(), self.tree@]
        } else {
            seq![self.tree@]
        }
    }

    /// Whether no tree of a scan is left behind, neither held nor released.
    pub open spec fn leaves_none_behind(self, target_pid: u32) -> bool {
        self.scans() ==> target::leaves_none_behind(
            self.inquiry.windows@,
            target_pid,
            self.inquiry.visits,
        )
    }
}

/// Looks for the button that grants the request in a target window whose tree is
/// `tree`, and settles what becomes of the trees. The walker is given back.
pub fn look_for_button<S, D, W, P, N>(
    tree: Vec<UiaNode>,
    target_pid: u32,
    owned_windows: D,
    walker: S,
    walk: W,
    properties: P,
    inspect: N,
) -> (out: (S, ConsentEvent)) where
    D: FnOnce() -> Vec<(u64, usize)>,
    W: FnMut(S, Option<Vec<UiaNode>>, u64) -> (S, Vec<UiaNode>),
    P: FnMut(usize) -> Result<(String, bool), BrowserRefusal> + Copy,
    N: FnMut(u64) -> WindowFacts,

    requires
        target::can_inquire(tree@, owned_windows, walker, walk, properties, inspect),
    ensures
        exists|inquiry: Inquiry| #[trigger]
            target::is_inquiry(
                tree@,
                owned_windows,
                walker,
                out.0,
                walk,
                properties,
                inspect,
                inquiry,
            ) && (Look { tree, inquiry }).gives(target_pid, out.1@),
{
    let prompt_present = native_prompt_surface_present(tree.as_slice());
    let (after, selection) = exact_allow_button_for_target(
        tree.as_slice(),
        target_pid,
        owned_windows,
        walker,
        walk,
        properties,
        inspect,
    );
    let ghost inquiry = choose|inquiry: Inquiry| #[trigger]
        target::is_inquiry(
            tree@,
            owned_windows,
            walker,
            after,
            walk,
            properties,
            inspect,
            inquiry,
        ) && (target::target_view(selection.button), selection.released@) == inquiry.chosen(
            tree@,
            target_pid,
        );
    let trees = settle_target_tree(selection, tree);
    proof {
        lemma_settled_look(Look { tree, inquiry }, target_pid, prompt_present, selection, trees);
    }
    let out = (after, ConsentEvent::Inspected { prompt_present, trees });
    assert(target::is_inquiry(
        tree@,
        owned_windows,
        walker,
        out.0,
        walk,
        properties,
        inspect,
        inquiry,
    ));
    out
}

/// What settling the choice of a look leaves is what the look gives.
proof fn lemma_settled_look(
    look: Look,
    target_pid: u32,
    prompt_present: bool,
    selection: TargetSelection,
    trees: SettledTrees,
)
    requires
        look.inquiry.is_of(look.tree@),
        prompt_present == look.shows_prompt(),
        (target::target_view(selection.button), selection.released@) == look.chosen(target_pid),
        target::settles(selection, look.tree, trees),
    ensures
        look.gives(target_pid, ConsentEvent::Inspected { prompt_present, trees }@),
{
}

/// A look that shows a prompt decides: the button is pressed or the attempt ends.
/// One that shows none neither finds a button nor is refused.
pub proof fn lemma_prompt_decides(
    look: Look,
    target_pid: u32,
    session: SessionView,
    event: EventView,
)
    requires
        look.gives(target_pid, event),
    ensures
        look.shows_prompt() <==> !(event matches EventView::Inspected { button: Ok(None), .. }),
        look.shows_prompt() ==> session.response(event) is Invoke || session.response(
            event,
        ) is Finish,
        look.shows_prompt() ==> session.after(event).phase == ConsentPhase::Invoking
            || session.after(event).phase == ConsentPhase::Finished,
{
    let inquiry = look.inquiry;
    target::lemma_no_button_only_without_prompt(
        look.tree@,
        inquiry.replies,
        target::scanned(inquiry.windows@, target_pid, inquiry.visits),
    );
}

/// Whether every look of an attempt is the one of `looks` at its place.
pub open spec fn made_by(looks: Seq<Look>, target_pid: u32, events: Seq<EventView>) -> bool {
    &&& looks.len() == events.len()
    &&& forall|i: int|
        0 <= i < events.len() && (#[trigger] events[i]) is Inspected ==> looks[i].gives(
            target_pid,
            events[i],
        )
}

/// Whether a prompt has not been seen, or the looking is over.
spec fn looks_only_before_prompt(session: SessionView) -> bool {
    session.saw_prompt ==> session.phase == ConsentPhase::Invoking || session.phase
        == ConsentPhase::Finished
}

proof fn lemma_one_step_after_look(
    look: Look,
    target_pid: u32,
    session: SessionView,
    event: EventView,
)
    requires
        session::expects(session.phase, event),
        looks_only_before_prompt(session),
        event is Inspected ==> look.gives(target_pid, event),
    ensures
        looks_only_before_prompt(session.after(event)),
{
    if event is Inspected {
        lemma_prompt_decides(look, target_pid, session, event);
    }
}

proof fn lemma_no_look_after_prompt(
    request: BrowserConsentRequest,
    looks: Seq<Look>,
    events: Seq<EventView>,
)
    requires
        SessionView::fresh(request).awaits_all(events),
        made_by(looks, request.pid as u32, events),
    ensures
        looks_only_before_prompt(SessionView::fresh(request).after_all(events)),
    decreases events.len(),
{
    if events.len() > 0 {
        let start = SessionView::fresh(request);
        let pid = request.pid as u32;
        let last = events.len() - 1;
        let front = events.drop_last();
        assert(events.take(last) =~= front);
        assert(events[last] == events.last());
        session::lemma_awaits_front(start, events);
        lemma_made_by_prefix(looks, pid, events, last);
        lemma_no_look_after_prompt(request, looks.take(last), front);
        lemma_one_step_after_look(looks[last], pid, start.after_all(front), events[last]);
        session::lemma_last_step(start, events);
    }
}

/// A look that shows a prompt is the last one of an attempt: the button is pressed
/// or the attempt ends. A look that shows none leads to the clock being read, so
/// that an attempt never ends for a prompt that is gone again.
pub proof fn lemma_prompt_is_seen_once(
    request: BrowserConsentRequest,
    looks: Seq<Look>,
    events: Seq<EventView>,
    i: int,
)
    requires
        SessionView::fresh(request).awaits_all(events),
        made_by(looks, request.pid as u32, events),
        0 <= i < events.len(),
        events[i] is Inspected,
    ensures
        ({
            let action = SessionView::fresh(request).after_all(events.take(i)).response(events[i]);
            if looks[i].shows_prompt() {
                &&& action is Invoke || action is Finish
                &&& forall|j: int|
                    i < j < events.len() ==> !((#[trigger] events[j]) is Inspected)
            } else {
                action is ReadClock
            }
        }),
{
    let start = SessionView::fresh(request);
    let before = start.after_all(events.take(i));
    assert(before.phase == ConsentPhase::Inspecting && !before.saw_prompt) by {
        lemma_look_comes_before_prompt(request, looks, events, i);
    }
    lemma_prompt_decides(looks[i], request.pid as u32, before, events[i]);
    if looks[i].shows_prompt() {
        assert(session::shows_prompt(events[i]));
        assert forall|j: int| i < j < events.len() implies !((#[trigger] events[j]) is Inspected) by {
            if events[j] is Inspected {
                lemma_look_comes_before_prompt(request, looks, events, j);
                session::lemma_session_remembers(start, events.take(j));
                assert(session::shows_prompt(events.take(j)[i]));
            }
        }
    }
}

/// No prompt was seen before a look.
proof fn lemma_look_comes_before_prompt(
    request: BrowserConsentRequest,
    looks: Seq<Look>,
    events: Seq<EventView>,
    i: int,
)
    requires
        SessionView::fresh(request).awaits_all(events),
        made_by(looks, request.pid as u32, events),
        0 <= i < events.len(),
        events[i] is Inspected,
    ensures
        SessionView::fresh(request).after_all(events.take(i)).phase == ConsentPhase::Inspecting,
        !SessionView::fresh(request).after_all(events.take(i)).saw_prompt,
{
    let start = SessionView::fresh(request);
    session::lemma_awaited(start, events, i);
    lemma_made_by_prefix(looks, request.pid as u32, events, i);
    session::lemma_awaits_prefix(start, events, i);
    lemma_no_look_after_prompt(request, looks.take(i), events.take(i));
}

proof fn lemma_made_by_prefix(
    looks: Seq<Look>,
    target_pid: u32,
    events: Seq<EventView>,
    count: int,
)
    requires
        made_by(looks, target_pid, events),
        0 <= count <= events.len(),
    ensures
        made_by(looks.take(count), target_pid, events.take(count)),
{
    assert forall|i: int| 0 <= i < count && (
    #[trigger] events.take(count)[i]) is Inspected implies looks.take(count)[i].gives(
        target_pid,
        events.take(count)[i],
    ) by {
        assert(events.take(count)[i] == events[i]);
    }
}

/// Trees that are the same in number and kind have the same rows.
proof fn lemma_same_trees_same_contents(a: Seq<Vec<UiaNode>>, b: Seq<Vec<UiaNode>>)
    requires
        a.to_multiset() == b.to_multiset(),
    ensures
        contents(a).to_multiset() == contents(b).to_multiset(),
    decreases a.len(),
{
    broadcast use vstd::seq_lib::group_to_multiset_ensures;

    assert(a.len() == a.to_multiset().len());
    assert(b.len() == b.to_multiset().len());
    if a.len() == 0 {
        assert(contents(a) =~= contents(b));
    } else {
        let tree = a.last();
        let last = a.len() - 1;
        assert(a[last] == tree);
        assert(a.contains(tree));
        assert(a.to_multiset().count(tree) > 0);
        assert(b.contains(tree));
        let i = choose|i: int| 0 <= i < b.len() && b[i] == tree;
        let rest = a.remove(last);
        assert(rest.to_multiset() == b.remove(i).to_multiset());
        lemma_same_trees_same_contents(rest, b.remove(i));
        assert(contents(rest) =~= contents(a).remove(last));
        assert(contents(b.remove(i)) =~= contents(b).remove(i));
        assert(contents(a) =~= contents(rest).push(tree@));
        assert(contents(b) =~= contents(b.remove(i)).insert(i, tree@));
    }
}

/// Every tree of a look is accounted for, unless the scan leaves some behind: it
/// is handed over during the look, or released or held after it, and once.
pub proof fn lemma_look_accounts_for_every_tree(look: Look, target_pid: u32, event: EventView)
    requires
        look.gives(target_pid, event),
        look.leaves_none_behind(target_pid),
    ensures
        contents(look.handed_over() + session::brought(event)).to_multiset() == look.trees(
            target_pid,
        ).to_multiset(),
{
    broadcast use vstd::seq_lib::group_to_multiset_ensures;

    let (chosen, left) = look.chosen(target_pid);
    let gone = look.handed_over() + left;
    let all = contents(look.handed_over() + session::brought(event));
    if look.scans() {
        let windows = look.inquiry.windows@;
        let visits = look.inquiry.visits;
        let walked = target::walked(visits);
        target::lemma_every_tree_is_accounted_for(windows, target_pid, visits);
        assert(gone == target::released_in_all(windows, target_pid, visits));
        match chosen {
            Ok(Some((_, kept))) => {
                let tree = choose|tree: Vec<UiaNode>| #[trigger]
                    gone.to_multiset().insert(tree) == walked.to_multiset() && tree@ == kept;
                lemma_same_trees_same_contents(gone.push(tree), walked);
                assert(all =~= contents(gone.push(tree)).push(look.tree@));
            },
            _ => {
                lemma_same_trees_same_contents(gone, walked);
                assert(all =~= contents(gone).push(look.tree@));
            },
        }
    } else {
        assert(all =~= look.trees(target_pid));
    }
}

/// The trees that were handed over during the looks of an attempt.
pub open spec fn handed_over_in(looks: Seq<Look>, events: Seq<EventView>) -> Seq<Vec<UiaNode>>
    decreases events.len(),
{
    if events.len() == 0 {
        Seq::empty()
    } else {
        let before = handed_over_in(looks.drop_last(), events.drop_last());
        if events.last() is Inspected {
            before + looks.last().handed_over()
        } else {
            before
        }
    }
}

/// The rows of every tree of the looks of an attempt.
pub open spec fn trees_in(looks: Seq<Look>, target_pid: u32, events: Seq<EventView>) -> Seq<
    Seq<UiaNode>,
>
    decreases events.len(),
{
    if events.len() == 0 {
        Seq::empty()
    } else {
        let before = trees_in(looks.drop_last(), target_pid, events.drop_last());
        if events.last() is Inspected {
            before + looks.last().trees(target_pid)
        } else {
            before
        }
    }
}

/// Whether no look of an attempt leaves a tree behind.
pub open spec fn none_left_behind(
    looks: Seq<Look>,
    target_pid: u32,
    events: Seq<EventView>,
) -> bool {
    forall|i: int|
        0 <= i < events.len() && (#[trigger] events[i]) is Inspected
            ==> looks[i].leaves_none_behind(target_pid)
}

proof fn lemma_looks_account_for_every_tree(
    looks: Seq<Look>,
    target_pid: u32,
    events: Seq<EventView>,
)
    requires
        made_by(looks, target_pid, events),
        none_left_behind(looks, target_pid, events),
    ensures
        contents(handed_over_in(looks, events)).to_multiset().add(
            contents(session::brought_by(events)).to_multiset(),
        ) == trees_in(looks, target_pid, events).to_multiset(),
    decreases events.len(),
{
    broadcast use vstd::seq_lib::group_to_multiset_ensures;

    let given = handed_over_in(looks, events);
    let brought = session::brought_by(events);
    let trees = trees_in(looks, target_pid, events);
    if events.len() == 0 {
        assert(contents(given) =~= trees);
        assert(contents(brought) =~= trees);
        assert(trees.to_multiset() =~= vstd::multiset::Multiset::empty());
        assert(trees.to_multiset().add(trees.to_multiset()) =~= trees.to_multiset());
    } else {
        let last = events.len() - 1;
        let front = events.drop_last();
        let look = looks.last();
        let event = events.last();
        assert(events[last] == event);
        assert(looks.take(last) =~= looks.drop_last());
        assert(events.take(last) =~= front);
        lemma_made_by_prefix(looks, target_pid, events, last);
        assert forall|i: int| 0 <= i < front.len() && (
        #[trigger] front[i]) is Inspected implies looks.drop_last()[i].leaves_none_behind(
            target_pid,
        ) by {
            assert(front[i] == events[i]);
        }
        lemma_looks_account_for_every_tree(looks.drop_last(), target_pid, front);
        let earlier = handed_over_in(looks.drop_last(), front);
        let earlier_brought = session::brought_by(front);
        if event is Inspected {
            let here = look.handed_over();
            let here_brought = session::brought(event);
            lemma_look_accounts_for_every_tree(look, target_pid, event);
            lemma_contents_add(earlier, here);
            lemma_contents_add(earlier_brought, here_brought);
            lemma_contents_add(here, here_brought);
            vstd::seq_lib::lemma_multiset_commutative(
                trees_in(looks.drop_last(), target_pid, front),
                look.trees(target_pid),
            );
            assert(contents(given).to_multiset().add(contents(brought).to_multiset())
                =~= trees.to_multiset());
        } else {
            assert(brought =~= earlier_brought);
        }
    }
}

proof fn lemma_contents_add(a: Seq<Vec<UiaNode>>, b: Seq<Vec<UiaNode>>)
    ensures
        contents(a + b).to_multiset() == contents(a).to_multiset().add(
            contents(b).to_multiset(),
        ),
{
    assert(contents(a + b) =~= contents(a) + contents(b));
    vstd::seq_lib::lemma_multiset_commutative(contents(a), contents(b));
}

/// Every tree that an attempt walks is released once before it ends, however it
/// ends, unless a scan leaves some behind: it is handed over during a look or
/// released after one of the events.
pub proof fn lemma_attempt_releases_every_tree(
    request: BrowserConsentRequest,
    looks: Seq<Look>,
    events: Seq<EventView>,
)
    requires
        SessionView::fresh(request).awaits_all(events),
        SessionView::fresh(request).after_all(events).phase == ConsentPhase::Finished,
        made_by(looks, request.pid as u32, events),
        none_left_behind(looks, request.pid as u32, events),
    ensures
        contents(
            handed_over_in(looks, events) + SessionView::fresh(request).released_by(events),
        ).to_multiset() == trees_in(looks, request.pid as u32, events).to_multiset(),
{
    let released = SessionView::fresh(request).released_by(events);
    session::lemma_every_tree_is_released(request, events);
    lemma_looks_account_for_every_tree(looks, request.pid as u32, events);
    lemma_contents_add(handed_over_in(looks, events), released);
}

/// The tree that holds the element which is pressed outlives the press: after the
/// look the element is pressed, and only then, however that ended, the tree is
/// released.
pub proof fn lemma_pressed_element_is_alive(
    request: BrowserConsentRequest,
    looks: Seq<Look>,
    events: Seq<EventView>,
    i: int,
)
    requires
        SessionView::fresh(request).awaits_all(events),
        made_by(looks, request.pid as u32, events),
        0 <= i < events.len() - 1,
        events[i] matches EventView::Inspected { button: Ok(Some(_)), .. },
    ensures
        events[i] matches EventView::Inspected { button: Ok(Some(element)), released, .. } && {
            let before = SessionView::fresh(request).after_all(events.take(i));
            let pressed = SessionView::fresh(request).after_all(events.take(i + 1));
            &&& before.response(events[i]) == ActionView::Invoke(element)
            &&& before.releases(events[i]) == released
            &&& events[i + 1] is Invoked
            &&& exists|k: int|
                0 <= k < pressed.releases(events[i + 1]).len() && target::holds_prompt_button(
                    (#[trigger] pressed.releases(events[i + 1])[k])@,
                    element,
                )
        },
{
    let pid = request.pid as u32;
    let look = looks[i];
    let inquiry = look.inquiry;
    let pressed = SessionView::fresh(request).after_all(events.take(i + 1));
    session::lemma_pressed_before_released(request, events, i);
    target::lemma_target_choice_is_prompt_button(
        look.tree@,
        inquiry.replies,
        inquiry.windows@,
        pid,
        inquiry.visits,
    );
    let trees = pressed.releases(events[i + 1]);
    match look.chosen(pid).0 {
        Ok(Some((element, _))) => {
            let k: int = if look.scans() {
                0
            } else {
                1
            };
            assert(target::holds_prompt_button(trees[k]@, element));
        },
        _ => {},
    }
}

} // verus!
