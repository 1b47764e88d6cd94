//! Native windows: which are the target's, and which of them decides.

use vstd::prelude::*;

use crate::laws::buttons::is_refused;
use crate::native::{
    self, evidence_for, is_target_owned, is_z_order_walk, owned_with_ranks, WindowFacts,
};
use crate::owned::{self, chosen_topmost, NativeConsentActionEvidence};
use crate::refusal::RefusalView;

verus! {

/// Every live, visible and enabled window of the target process whose owners lead
/// to the target window is the target's, whatever its handle, as long as it has
/// one.
pub proof fn lemma_target_windows_are_owned(handle: u64, pid: u32, facts: WindowFacts)
    requires
        handle != 0,
        facts.is_window,
        facts.owner_pid == Some(pid),
        facts.visible,
        facts.enabled,
        facts.owner_reaches_target,
    ensures
        is_target_owned(handle, pid, facts),
{
}

/// A window is not the target's as soon as one thing is missing.
pub proof fn lemma_other_windows_are_not_owned(handle: u64, pid: u32, facts: WindowFacts)
    requires
        handle == 0 || !facts.is_window || facts.owner_pid is None || facts.owner_pid->0 != pid
            || !facts.visible || !facts.enabled || !facts.owner_reaches_target,
    ensures
        !is_target_owned(handle, pid, facts),
{
}

/// Which handle a window has does not matter, to whether it is the target's or to
/// what is taken as shown of it, as long as it has one. Neither do the element and
/// the rank.
pub proof fn lemma_handles_do_not_matter(
    first: u64,
    second: u64,
    pid: u32,
    facts: WindowFacts,
    elements: (usize, usize),
    ranks: (Option<usize>, Option<usize>),
)
    requires
        first != 0,
        second != 0,
    ensures
        is_target_owned(first, pid, facts) == is_target_owned(second, pid, facts),
        ({
            let a = evidence_for(elements.0, first, pid, facts, ranks.0);
            let b = evidence_for(elements.1, second, pid, facts, ranks.1);
            &&& a.live == b.live
            &&& a.same_pid == b.same_pid
            &&& a.visible == b.visible
            &&& a.enabled == b.enabled
            &&& a.owner_reaches_target == b.owner_reaches_target
        }),
{
}

/// The evidence for an action carries its element, its window and its rank along.
/// Of a live window it shows what the system says, each thing on its own, and of
/// any other nothing.
pub proof fn lemma_evidence_shows_the_facts(
    element: usize,
    handle: u64,
    pid: u32,
    facts: WindowFacts,
    rank: Option<usize>,
)
    ensures
        ({
            let shown = evidence_for(element, handle, pid, facts, rank);
            &&& shown.allow_element_ptr == element
            &&& shown.prompt_hwnd == handle
            &&& shown.z_order_rank == rank
            &&& handle != 0 && facts.is_window ==> {
                &&& shown.live
                &&& shown.same_pid <==> (facts.owner_pid matches Some(owner) && owner == pid)
                &&& shown.visible == facts.visible
                &&& shown.enabled == facts.enabled
                &&& shown.owner_reaches_target == facts.owner_reaches_target
            }
            &&& handle == 0 || !facts.is_window ==> !shown.live && !shown.same_pid && !shown.visible
                && !shown.enabled && !shown.owner_reaches_target
        }),
{
}

/// The windows are looked at from the topmost down, without leaving one out: each
/// is the one that stands below the one before it, and has been asked whether the
/// target owns it. Only after 65536 windows, at the last window, or at one that is
/// said to stand below itself, the looking ends.
pub proof fn lemma_windows_are_looked_at_from_the_top<
    O: FnMut(u64) -> bool,
    N: FnMut(u64) -> u64,
>(top: u64, owned: O, below: N, seen: Seq<(u64, bool)>)
    requires
        is_z_order_walk(top, owned, below, seen),
    ensures
        seen.len() == 0 <==> top == 0,
        seen.len() > 0 ==> seen[0].0 == top,
        seen.len() <= 65536,
        forall|k: int|
            0 <= k < seen.len() ==> (#[trigger] seen[k]).0 != 0 && call_ensures(
                owned,
                (seen[k].0,),
                seen[k].1,
            ),
        forall|k: int|
            0 < k < seen.len() ==> call_ensures(below, (seen[k - 1].0,), (#[trigger] seen[k]).0)
                && seen[k].0 != seen[k - 1].0,
        0 < seen.len() < 65536 ==> call_ensures(below, (seen.last().0,), 0) || call_ensures(
            below,
            (seen.last().0,),
            seen.last().0,
        ),
{
}

/// Listed are the windows that the target owns, all of them and no other, from the
/// topmost down, each with how many windows were seen above it.
pub proof fn lemma_owned_windows_are_listed(seen: Seq<(u64, bool)>)
    requires
        seen.len() <= 65536,
    ensures
        forall|window: u64, rank: usize| #[trigger]
            owned_with_ranks(seen).contains((window, rank)) <==> rank < seen.len()
                && seen[rank as int].0 == window && seen[rank as int].1,
        forall|i: int, j: int|
            0 <= i < j < owned_with_ranks(seen).len() ==> (#[trigger] owned_with_ranks(seen)[i]).1
                < (#[trigger] owned_with_ranks(seen)[j]).1,
{
    let listed = owned_with_ranks(seen);
    native::lemma_owned_with_ranks(seen);
    assert forall|window: u64, rank: usize| #[trigger] listed.contains((window, rank)) implies rank
        < seen.len() && seen[rank as int].0 == window && seen[rank as int].1 by {
        let i = choose|i: int| 0 <= i < listed.len() && listed[i] == (window, rank);
        assert(listed[i] == (window, rank));
    }
    assert forall|window: u64, rank: usize|
        rank < seen.len() && seen[rank as int].0 == window && seen[rank as int].1 implies
        #[trigger] listed.contains((window, rank)) by {
        let k = rank as int;
        assert(seen[k].1);
        assert(k as usize == rank);
    }
}

/// Whether everything is shown of the window of an action that has to be.
pub open spec fn is_shown(action: NativeConsentActionEvidence) -> bool {
    &&& action.live && action.same_pid && action.visible && action.enabled
    &&& action.owner_reaches_target
    &&& action.z_order_rank is Some
    &&& action.prompt_hwnd != 0
}

/// Whether there are several actions and everything is shown of each.
pub open spec fn all_shown(actions: Seq<NativeConsentActionEvidence>) -> bool {
    actions.len() > 1 && forall|i: int|
        0 <= i < actions.len() ==> is_shown(#[trigger] actions[i])
}

/// Whether two actions have one element in two windows.
pub open spec fn is_element_in_two_windows(
    a: NativeConsentActionEvidence,
    b: NativeConsentActionEvidence,
) -> bool {
    a.allow_element_ptr == b.allow_element_ptr && a.prompt_hwnd != b.prompt_hwnd
}

/// Whether two actions have two elements in one window.
pub open spec fn is_window_of_two_elements(
    a: NativeConsentActionEvidence,
    b: NativeConsentActionEvidence,
) -> bool {
    a.prompt_hwnd == b.prompt_hwnd && a.allow_element_ptr != b.allow_element_ptr
}

/// Whether action `i` clashes with a later one.
pub open spec fn clashes(actions: Seq<NativeConsentActionEvidence>, i: int) -> bool {
    exists|j: int|
        i < j < actions.len() && (is_element_in_two_windows(actions[i], #[trigger] actions[j])
            || is_window_of_two_elements(actions[i], actions[j]))
}

/// Whether every other action has a higher rank than action `i`.
pub open spec fn is_above_all(actions: Seq<NativeConsentActionEvidence>, i: int) -> bool {
    &&& 0 <= i < actions.len()
    &&& forall|j: int|
        0 <= j < actions.len() && j != i ==> (#[trigger] actions[j]).z_order_rank->0
            > actions[i].z_order_rank->0
}

/// Of several actions of which everything is shown, none of which clash, the one
/// above all others is chosen.
pub proof fn lemma_topmost_action_is_chosen(actions: Seq<NativeConsentActionEvidence>, i: int)
    requires
        all_shown(actions),
        forall|j: int| 0 <= j < actions.len() ==> !#[trigger] clashes(actions, j),
        is_above_all(actions, i),
    ensures
        chosen_topmost(actions) == Ok::<usize, RefusalView>(actions[i].allow_element_ptr),
{
    lemma_shown_is_proven(actions);
    assert forall|h: int| 0 <= h < actions.len() implies !#[trigger] owned::shares_element(
        actions,
        h,
    ) && !owned::shares_window(actions, h) by {
        lemma_clash_is(actions, h);
        assert(!clashes(actions, h));
    }
    assert forall|h: int| 0 <= h < actions.len() implies !#[trigger] owned::shares_window(
        actions,
        h,
    ) by {
        assert(!owned::shares_element(actions, h));
        lemma_clash_is(actions, h);
        assert(!clashes(actions, h));
    }
    assert(owned::is_topmost(actions, i));
    owned::lemma_topmost_is_unique(
        actions,
        i,
        choose|i: int| #[trigger] owned::is_topmost(actions, i),
    );
}

proof fn lemma_shown_is_proven(actions: Seq<NativeConsentActionEvidence>)
    ensures
        all_shown(actions) == owned::all_proven(actions),
{
    if all_shown(actions) {
        assert forall|i: int| 0 <= i < actions.len() implies (#[trigger] actions[i]).is_complete() by {
            assert(is_shown(actions[i]));
        }
    }
    if owned::all_proven(actions) {
        assert forall|i: int| 0 <= i < actions.len() implies is_shown(#[trigger] actions[i]) by {
            assert(actions[i].is_complete());
        }
    }
}

proof fn lemma_clash_is(actions: Seq<NativeConsentActionEvidence>, i: int)
    ensures
        clashes(actions, i) == (owned::shares_element(actions, i) || owned::shares_window(
            actions,
            i,
        )),
{
    if owned::shares_element(actions, i) {
        let j = choose|j: int|
            i < j < actions.len() && (#[trigger] actions[j]).allow_element_ptr
                == actions[i].allow_element_ptr && actions[j].prompt_hwnd
                != actions[i].prompt_hwnd;
        assert(is_element_in_two_windows(actions[i], actions[j]));
    }
    if owned::shares_window(actions, i) {
        let j = choose|j: int|
            i < j < actions.len() && (#[trigger] actions[j]).prompt_hwnd == actions[i].prompt_hwnd
                && actions[j].allow_element_ptr != actions[i].allow_element_ptr;
        assert(is_window_of_two_elements(actions[i], actions[j]));
    }
    if clashes(actions, i) {
        let j = choose|j: int|
            i < j < actions.len() && (is_element_in_two_windows(actions[i], #[trigger] actions[j])
                || is_window_of_two_elements(actions[i], actions[j]));
    }
}

/// What is chosen is the element of an action above all others, among several of
/// which everything is shown and none clash.
pub proof fn lemma_chosen_action_is_topmost(actions: Seq<NativeConsentActionEvidence>)
    requires
        chosen_topmost(actions) is Ok,
    ensures
        all_shown(actions),
        forall|h: int| 0 <= h < actions.len() ==> !#[trigger] clashes(actions, h),
        exists|i: int| #[trigger]
            is_above_all(actions, i) && chosen_topmost(actions) == Ok::<usize, RefusalView>(
                actions[i].allow_element_ptr,
            ),
{
    lemma_shown_is_proven(actions);
    owned::lemma_choice_is_proven(actions);
    assert forall|h: int| 0 <= h < actions.len() implies !#[trigger] clashes(actions, h) by {
        if clashes(actions, h) {
            let j = choose|j: int|
                h < j < actions.len() && (is_element_in_two_windows(
                    actions[h],
                    #[trigger] actions[j],
                ) || is_window_of_two_elements(actions[h], actions[j]));
            assert(actions[h].allow_element_ptr == actions[j].allow_element_ptr
                <==> actions[h].prompt_hwnd == actions[j].prompt_hwnd);
        }
    }
    let top = choose|i: int| #[trigger] owned::is_topmost(actions, i);
    assert(is_above_all(actions, top));
}

/// Why nothing is chosen is said by the first of these that holds: there is no
/// second action or something is not shown of one, the first action that clashes
/// with a later one has its element in two windows, or else its window has two
/// elements, or no action stands above all others.
pub proof fn lemma_undecided_actions_are_refused(actions: Seq<NativeConsentActionEvidence>)
    ensures
        !all_shown(actions) ==> is_refused(
            chosen_topmost(actions),
            "multiple native Chromium consent actions lacked complete target-owned window proof"@,
        ),
        forall|i: int, j: int|
            all_shown(actions) && 0 <= i < j < actions.len() && (forall|h: int|
                0 <= h < i ==> !#[trigger] clashes(actions, h)) && #[trigger]
                is_element_in_two_windows(actions[i], actions[j]) ==> is_refused(
                chosen_topmost(actions),
                "multiple native Chromium consent windows shared one UI Automation action identity"@,
            ),
        forall|i: int, j: int|
            all_shown(actions) && 0 <= i < j < actions.len() && (forall|h: int|
                0 <= h < i ==> !#[trigger] clashes(actions, h)) && #[trigger]
                is_window_of_two_elements(actions[i], actions[j]) && (forall|l: int|
                i < l < actions.len() ==> !is_element_in_two_windows(
                    actions[i],
                    #[trigger] actions[l],
                )) ==> is_refused(
                chosen_topmost(actions),
                "one native Chromium consent window exposed multiple structural allow actions"@,
            ),
        all_shown(actions) && (forall|h: int|
            0 <= h < actions.len() ==> !#[trigger] clashes(actions, h)) && (forall|i: int|
            !#[trigger] is_above_all(actions, i)) ==> is_refused(
            chosen_topmost(actions),
            "multiple native Chromium consent windows shared the highest proven z-order"@,
        ),
{
    lemma_shown_is_proven(actions);
    assert forall|h: int| #[trigger] clashes(actions, h) == (owned::shares_element(actions, h)
        || owned::shares_window(actions, h)) by {
        lemma_clash_is(actions, h);
    }
    assert forall|i: int, j: int|
        all_shown(actions) && 0 <= i < j < actions.len() && (forall|h: int|
            0 <= h < i ==> !#[trigger] clashes(actions, h)) && #[trigger]
            is_element_in_two_windows(actions[i], actions[j]) implies is_refused(
        chosen_topmost(actions),
        "multiple native Chromium consent windows shared one UI Automation action identity"@,
    ) by {
        assert(owned::shares_element(actions, i));
        assert forall|h: int| 0 <= h < i implies !#[trigger] owned::shares_window(actions, h) by {
            assert(!clashes(actions, h));
        }
    }
    assert forall|i: int, j: int|
        all_shown(actions) && 0 <= i < j < actions.len() && (forall|h: int|
            0 <= h < i ==> !#[trigger] clashes(actions, h)) && #[trigger]
            is_window_of_two_elements(actions[i], actions[j]) && (forall|l: int|
            i < l < actions.len() ==> !is_element_in_two_windows(
                actions[i],
                #[trigger] actions[l],
            )) implies is_refused(
        chosen_topmost(actions),
        "one native Chromium consent window exposed multiple structural allow actions"@,
    ) by {
        assert(owned::shares_window(actions, i));
        assert(!owned::shares_element(actions, i));
        assert forall|m: int| 0 <= m < actions.len() && #[trigger] owned::shares_element(
            actions,
            m,
        ) implies exists|h: int| 0 <= h < m && #[trigger] owned::shares_window(actions, h) by {
            if m < i {
                assert(clashes(actions, m));
            }
            assert(i < m);
        }
    }
    if all_shown(actions) && (forall|h: int|
        0 <= h < actions.len() ==> !#[trigger] clashes(actions, h)) && (forall|i: int|
        !#[trigger] is_above_all(actions, i)) {
        assert forall|h: int| 0 <= h < actions.len() implies !#[trigger] owned::shares_element(
            actions,
            h,
        ) && !owned::shares_window(actions, h) by {
            assert(!clashes(actions, h));
        }
        assert forall|i: int| !#[trigger] owned::is_topmost(actions, i) by {
            assert(!is_above_all(actions, i));
        }
        assert forall|h: int| 0 <= h < actions.len() implies !#[trigger] owned::shares_window(
            actions,
            h,
        ) by {
            assert(!clashes(actions, h));
        }
    }
}

} // verus!
