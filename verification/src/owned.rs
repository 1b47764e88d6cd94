//! Choosing between prompts by the native windows that show them.

use vstd::prelude::*;

use crate::refusal::{self, refusal, BrowserRefusal, BrowserRefusalCode, RefusalView};

verus! {

/// What is known of the native window behind an action that would grant the
/// request.
#[derive(Clone, Copy, Debug, PartialEq, Eq)]
pub struct NativeConsentActionEvidence {
    pub allow_element_ptr: usize,
    pub prompt_hwnd: u64,
    pub same_pid: bool,
    pub live: bool,
    pub visible: bool,
    pub enabled: bool,
    pub owner_reaches_target: bool,
    /// How many windows stand above this one.
    pub z_order_rank: Option<usize>,
}

impl NativeConsentActionEvidence {
    /// Whether the window is shown to be a usable window of the target that has
    /// a place among the windows on the screen.
    pub open spec fn is_complete(self) -> bool {
        &&& self.prompt_hwnd != 0
        &&& self.same_pid
        &&& self.live
        &&& self.visible
        &&& self.enabled
        &&& self.owner_reaches_target
        &&& self.z_order_rank is Some
    }

    fn complete(&self) -> (complete: bool)
        ensures
            complete == self.is_complete(),
    {
        self.prompt_hwnd != 0 && self.same_pid && self.live && self.visible && self.enabled
            && self.owner_reaches_target && self.z_order_rank.is_some()
    }
}

/// Whether there are several actions and the evidence of each is complete.
pub open spec fn all_proven(actions: Seq<NativeConsentActionEvidence>) -> bool {
    &&& actions.len() >= 2
    &&& forall|i: int| 0 <= i < actions.len() ==> (#[trigger] actions[i]).is_complete()
}

/// Whether a later action has the element of action `i` in another window.
pub open spec fn shares_element(actions: Seq<NativeConsentActionEvidence>, i: int) -> bool {
    exists|j: int|
        i < j < actions.len() && (#[trigger] actions[j]).allow_element_ptr
            == actions[i].allow_element_ptr && actions[j].prompt_hwnd != actions[i].prompt_hwnd
}

/// Whether a later action has another element in the window of action `i`.
pub open spec fn shares_window(actions: Seq<NativeConsentActionEvidence>, i: int) -> bool {
    exists|j: int|
        i < j < actions.len() && (#[trigger] actions[j]).prompt_hwnd == actions[i].prompt_hwnd
            && actions[j].allow_element_ptr != actions[i].allow_element_ptr
}

/// Whether action `i` stands above all others.
pub open spec fn is_topmost(actions: Seq<NativeConsentActionEvidence>, i: int) -> bool {
    &&& 0 <= i < actions.len()
    &&& forall|j: int|
        0 <= j < actions.len() && j != i ==> actions[i].z_order_rank->0 < (
        #[trigger] actions[j]).z_order_rank->0
}

/// The element of the action that stands above all others, or why none can be
/// chosen.
pub open spec fn chosen_topmost(actions: Seq<NativeConsentActionEvidence>) -> Result<
    usize,
    RefusalView,
> {
    if !all_proven(actions) {
        Err(
            refusal::wrong_target(
                "multiple native Chromium consent actions lacked complete target-owned window proof"@,
            ),
        )
    } else if exists|i: int|
        0 <= i < actions.len() && #[trigger] shares_element(actions, i) && forall|h: int|
            0 <= h < i ==> !#[trigger] shares_window(actions, h) {
        Err(
            refusal::wrong_target(
                "multiple native Chromium consent windows shared one UI Automation action identity"@,
            ),
        )
    } else if exists|i: int| 0 <= i < actions.len() && #[trigger] shares_window(actions, i) {
        Err(
            refusal::wrong_target(
                "one native Chromium consent window exposed multiple structural allow actions"@,
            ),
        )
    } else if exists|i: int| #[trigger] is_topmost(actions, i) {
        Ok(actions[choose|i: int| #[trigger] is_topmost(actions, i)].allow_element_ptr)
    } else {
        Err(
            refusal::wrong_target(
                "multiple native Chromium consent windows shared the highest proven z-order"@,
            ),
        )
    }
}

fn every_complete(actions: &[NativeConsentActionEvidence]) -> (every: bool)
    ensures
        every == forall|i: int| 0 <= i < actions@.len() ==> (#[trigger] actions@[i]).is_complete(),
{
    let mut i: usize = 0;
    while i < actions.len()
        invariant
            i <= actions@.len(),
            forall|j: int| 0 <= j < i ==> (#[trigger] actions@[j]).is_complete(),
        decreases actions@.len() - i,
    {
        if !actions[i].complete() {
            assert(!actions@[i as int].is_complete());
            return false;
        }
        i = i + 1;
    }
    true
}

/// Whether a later action has the element of action `i` in another window, and
/// whether a later action has another element in the window of action `i`.
fn clashes_of(actions: &[NativeConsentActionEvidence], i: usize) -> (clashes: (bool, bool))
    requires
        i < actions@.len(),
    ensures
        clashes.0 == shares_element(actions@, i as int),
        clashes.1 == shares_window(actions@, i as int),
{
    let count = actions.len();
    let mut element = false;
    let mut window = false;
    let mut j: usize = i + 1;
    while j < count
        invariant
            count == actions@.len(),
            i < j <= count,
            element == exists|h: int|
                i < h < j && (#[trigger] actions@[h]).allow_element_ptr
                    == actions@[i as int].allow_element_ptr && actions@[h].prompt_hwnd
                    != actions@[i as int].prompt_hwnd,
            window == exists|h: int|
                i < h < j && (#[trigger] actions@[h]).prompt_hwnd == actions@[i as int].prompt_hwnd
                    && actions@[h].allow_element_ptr != actions@[i as int].allow_element_ptr,
        decreases actions@.len() - j,
    {
        let same_element = actions[j].allow_element_ptr == actions[i].allow_element_ptr;
        let same_window = actions[j].prompt_hwnd == actions[i].prompt_hwnd;
        let ghost other = actions@[j as int];
        if same_element && !same_window {
            element = true;
        }
        if same_window && !same_element {
            window = true;
        }
        j = j + 1;
    }
    (element, window)
}

/// The element of the action that stands above all others. Every action has to
/// be shown to belong to its own window of the target.
pub fn select_unique_target_owned_topmost(actions: &[NativeConsentActionEvidence]) -> (chosen:
    Result<usize, BrowserRefusal>)
    ensures
        refusal::outcome_view(chosen) == chosen_topmost(actions@),
{
    if actions.len() < 2 || !every_complete(actions) {
        return Err(
            refusal(
                BrowserRefusalCode::BrowserWrongTargetRefused,
                "multiple native Chromium consent actions lacked complete target-owned window proof",
            ),
        );
    }
    let mut i: usize = 0;
    while i < actions.len()
        invariant
            all_proven(actions@),
            i <= actions@.len(),
            forall|h: int| 0 <= h < i ==> !#[trigger] shares_element(actions@, h),
            forall|h: int| 0 <= h < i ==> !#[trigger] shares_window(actions@, h),
        decreases actions@.len() - i,
    {
        let (element, window) = clashes_of(actions, i);
        if element {
            return Err(
                refusal(
                    BrowserRefusalCode::BrowserWrongTargetRefused,
                    "multiple native Chromium consent windows shared one UI Automation action identity",
                ),
            );
        }
        if window {
            return Err(
                refusal(
                    BrowserRefusalCode::BrowserWrongTargetRefused,
                    "one native Chromium consent window exposed multiple structural allow actions",
                ),
            );
        }
        i = i + 1;
    }
    let mut top: usize = 0;
    let mut top_rank: usize = rank_of(&actions[0]);
    let mut tied = false;
    let mut k: usize = 1;
    while k < actions.len()
        invariant
            all_proven(actions@),
            1 <= k <= actions@.len(),
            top < k,
            top_rank == actions@[top as int].z_order_rank->0,
            forall|j: int| 0 <= j < k ==> top_rank <= (#[trigger] actions@[j]).z_order_rank->0,
            tied == exists|j: int|
                0 <= j < k && j != top && (#[trigger] actions@[j]).z_order_rank->0 == top_rank,
        decreases actions@.len() - k,
    {
        let rank = rank_of(&actions[k]);
        let ghost other = actions@[k as int];
        if rank < top_rank {
            top = k;
            top_rank = rank;
            tied = false;
        } else if rank == top_rank {
            tied = true;
        }
        k = k + 1;
    }
    if tied {
        proof {
            let twin = choose|j: int|
                0 <= j < k && j != top && (#[trigger] actions@[j]).z_order_rank->0 == top_rank;
            assert forall|i: int| !#[trigger] is_topmost(actions@, i) by {
                if is_topmost(actions@, i) {
                    if i == twin {
                        assert(actions@[i].z_order_rank->0 < actions@[top as int].z_order_rank->0);
                    } else {
                        assert(actions@[i].z_order_rank->0 < actions@[twin].z_order_rank->0);
                    }
                }
            }
        }
        return Err(
            refusal(
                BrowserRefusalCode::BrowserWrongTargetRefused,
                "multiple native Chromium consent windows shared the highest proven z-order",
            ),
        );
    }
    proof {
        assert(is_topmost(actions@, top as int));
        lemma_topmost_is_unique(actions@, top as int, choose|i: int| #[trigger] is_topmost(actions@, i));
    }
    Ok(actions[top].allow_element_ptr)
}

fn rank_of(action: &NativeConsentActionEvidence) -> (rank: usize)
    requires
        action.z_order_rank is Some,
    ensures
        Some(rank) == action.z_order_rank,
{
    match action.z_order_rank {
        Some(rank) => rank,
        None => 0,
    }
}

/// At most one action stands above all others.
pub proof fn lemma_topmost_is_unique(actions: Seq<NativeConsentActionEvidence>, i: int, j: int)
    requires
        is_topmost(actions, i),
        is_topmost(actions, j),
    ensures
        i == j,
{
    if i != j {
        assert(actions[i].z_order_rank->0 < actions[j].z_order_rank->0);
        assert(actions[j].z_order_rank->0 < actions[i].z_order_rank->0);
    }
}

/// What is chosen is the element of the one action above all others, and every
/// action is shown to belong to a usable window of the target of its own: no
/// element is in two windows and no window has two elements.
pub proof fn lemma_choice_is_proven(actions: Seq<NativeConsentActionEvidence>)
    ensures
        chosen_topmost(actions) is Ok <==> {
            &&& all_proven(actions)
            &&& forall|i: int, j: int|
                0 <= i < actions.len() && 0 <= j < actions.len() ==> ((
                #[trigger] actions[i]).allow_element_ptr == (#[trigger] actions[j]).allow_element_ptr
                    <==> actions[i].prompt_hwnd == actions[j].prompt_hwnd)
            &&& exists|i: int| #[trigger] is_topmost(actions, i)
        },
        forall|i: int| #[trigger]
            is_topmost(actions, i) && chosen_topmost(actions) is Ok ==> chosen_topmost(actions)
                == Ok::<usize, RefusalView>(actions[i].allow_element_ptr),
{
    if chosen_topmost(actions) is Ok {
        assert forall|i: int| 0 <= i < actions.len() implies !#[trigger] shares_window(
            actions,
            i,
        ) && !shares_element(actions, i) by {}
        assert forall|i: int, j: int|
            0 <= i < actions.len() && 0 <= j < actions.len() implies ((
        #[trigger] actions[i]).allow_element_ptr == (#[trigger] actions[j]).allow_element_ptr
            <==> actions[i].prompt_hwnd == actions[j].prompt_hwnd) by {
            assert(!shares_window(actions, i) && !shares_element(actions, i));
            assert(!shares_window(actions, j) && !shares_element(actions, j));
        }
        assert forall|i: int| #[trigger] is_topmost(actions, i) implies chosen_topmost(actions)
            == Ok::<usize, RefusalView>(actions[i].allow_element_ptr) by {
            let top = choose|i: int| #[trigger] is_topmost(actions, i);
            lemma_topmost_is_unique(actions, i, top);
        }
    }
}

/// The actions in another order: first the one at `order[0]`, and so on.
pub open spec fn reordered(
    actions: Seq<NativeConsentActionEvidence>,
    order: Seq<int>,
) -> Seq<NativeConsentActionEvidence> {
    Seq::new(actions.len(), |i: int| actions[order[i]])
}

/// Whether `order` names each of `count` places once.
pub open spec fn is_order(order: Seq<int>, count: nat) -> bool {
    &&& order.len() == count
    &&& order.no_duplicates()
    &&& forall|i: int| 0 <= i < count ==> 0 <= #[trigger] order[i] < count
}

proof fn lemma_order_reaches(order: Seq<int>, count: nat, p: int)
    requires
        is_order(order, count),
        0 <= p < count,
    ensures
        exists|i: int| 0 <= i < count && order[i] == p,
{
    if !(exists|i: int| 0 <= i < count && order[i] == p) {
        let longer = order.push(p);
        assert(longer.no_duplicates()) by {
            assert forall|i: int, j: int|
                0 <= i < longer.len() && 0 <= j < longer.len() && i != j implies longer[i]
                != longer[j] by {}
        }
        longer.unique_seq_to_set();
        vstd::set_lib::lemma_int_range(0, count as int);
        let all = vstd::set_lib::set_int_range(0, count as int);
        assert forall|q: int| longer.to_set().contains(q) implies all.contains(q) by {
            let i = choose|i: int| 0 <= i < longer.len() && longer[i] == q;
            if i < count {
                assert(order[i] == q);
            }
        }
        vstd::set_lib::lemma_len_subset(longer.to_set(), all);
    }
}

proof fn lemma_reordered_choice(
    actions: Seq<NativeConsentActionEvidence>,
    order: Seq<int>,
)
    requires
        is_order(order, actions.len()),
        chosen_topmost(actions) is Ok,
    ensures
        chosen_topmost(reordered(actions, order)) == chosen_topmost(actions),
{
    let other = reordered(actions, order);
    lemma_choice_is_proven(actions);
    lemma_choice_is_proven(other);
    assert forall|i: int| 0 <= i < other.len() implies #[trigger] other[i] == actions[order[i]]
        && 0 <= order[i] < actions.len() by {}
    assert forall|i: int| 0 <= i < other.len() implies (#[trigger] other[i]).is_complete() by {
        assert(actions[order[i]].is_complete());
    }
    assert forall|i: int, j: int|
        0 <= i < other.len() && 0 <= j < other.len() implies ((#[trigger] other[i]).allow_element_ptr
        == (#[trigger] other[j]).allow_element_ptr <==> other[i].prompt_hwnd
        == other[j].prompt_hwnd) by {
        let (x, y) = (actions[order[i]], actions[order[j]]);
        assert(other[i] == x && other[j] == y);
    }
    let top = choose|i: int| #[trigger] is_topmost(actions, i);
    lemma_order_reaches(order, actions.len(), top);
    let place = choose|i: int| 0 <= i < actions.len() && order[i] == top;
    assert(is_topmost(other, place)) by {
        assert forall|j: int| 0 <= j < other.len() && j != place implies other[place].z_order_rank->0
            < (#[trigger] other[j]).z_order_rank->0 by {
            assert(order[j] != order[place]);
            assert(other[j] == actions[order[j]]);
        }
    }
}

/// The order in which the windows were found does not matter to the choice.
pub proof fn lemma_choice_ignores_order(
    actions: Seq<NativeConsentActionEvidence>,
    order: Seq<int>,
)
    requires
        is_order(order, actions.len()),
    ensures
        chosen_topmost(actions) is Ok <==> chosen_topmost(reordered(actions, order)) is Ok,
        chosen_topmost(actions) is Ok ==> chosen_topmost(reordered(actions, order))
            == chosen_topmost(actions),
{
    let other = reordered(actions, order);
    if chosen_topmost(actions) is Ok {
        lemma_reordered_choice(actions, order);
    }
    if chosen_topmost(other) is Ok {
        let back = Seq::new(
            actions.len(),
            |p: int| choose|i: int| 0 <= i < actions.len() && order[i] == p,
        );
        assert forall|p: int| 0 <= p < actions.len() implies 0 <= #[trigger] back[p] < actions.len()
            && order[back[p]] == p by {
            lemma_order_reaches(order, actions.len(), p);
        }
        assert(back.no_duplicates()) by {
            assert forall|p: int, q: int|
                0 <= p < back.len() && 0 <= q < back.len() && p != q implies back[p] != back[q] by {
                assert(order[back[p]] == p && order[back[q]] == q);
            }
        }
        assert(reordered(other, back) =~= actions) by {
            assert forall|p: int| 0 <= p < actions.len() implies reordered(other, back)[p]
                == actions[p] by {
                assert(order[back[p]] == p);
            }
        }
        lemma_reordered_choice(other, back);
    }
}

} // verus!
