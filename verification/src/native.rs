//! Native windows of the target, and how they stack on the screen.

use vstd::prelude::*;

use crate::owned::NativeConsentActionEvidence;

verus! {

/// How many windows are looked at, from the topmost down.
pub const Z_ORDER_LIMIT: usize = 65_536;

/// What the system says of a native window.
#[derive(Clone, Copy, Debug)]
pub struct WindowFacts {
    pub is_window: bool,
    pub owner_pid: Option<u32>,
    pub visible: bool,
    pub enabled: bool,
    /// Whether the window's chain of owners leads to the target window.
    pub owner_reaches_target: bool,
}

/// Whether a window is a live, visible and enabled window of the process
/// `target_pid` whose owners lead to the target window.
pub open spec fn is_target_owned(prompt_hwnd: u64, target_pid: u32, facts: WindowFacts) -> bool {
    &&& prompt_hwnd != 0
    &&& facts.is_window
    &&& facts.owner_pid == Some(target_pid)
    &&& facts.visible
    &&& facts.enabled
    &&& facts.owner_reaches_target
}

fn belongs_to(facts: &WindowFacts, target_pid: u32) -> (belongs: bool)
    ensures
        belongs == (facts.owner_pid == Some(target_pid)),
{
    match facts.owner_pid {
        Some(pid) => pid == target_pid,
        None => false,
    }
}

/// Whether a window is a live, visible and enabled window of the process
/// `target_pid` whose owners lead to the target window.
pub fn native_window_is_exact_target_owned(
    prompt_hwnd: u64,
    target_pid: u32,
    facts: &WindowFacts,
) -> (owned: bool)
    ensures
        owned == is_target_owned(prompt_hwnd, target_pid, *facts),
{
    prompt_hwnd != 0 && facts.is_window && belongs_to(facts, target_pid) && facts.visible
        && facts.enabled && facts.owner_reaches_target
}

/// The evidence for an action in a window: nothing is taken as shown of a
/// window that is not live.
pub open spec fn evidence_for(
    allow_element_ptr: usize,
    prompt_hwnd: u64,
    target_pid: u32,
    facts: WindowFacts,
    z_order_rank: Option<usize>,
) -> NativeConsentActionEvidence {
    let live = prompt_hwnd != 0 && facts.is_window;
    NativeConsentActionEvidence {
        allow_element_ptr,
        prompt_hwnd,
        same_pid: live && facts.owner_pid == Some(target_pid),
        live,
        visible: live && facts.visible,
        enabled: live && facts.enabled,
        owner_reaches_target: live && facts.owner_reaches_target,
        z_order_rank,
    }
}

/// The evidence for an action in a window: nothing is taken as shown of a
/// window that is not live.
pub fn native_consent_action_evidence(
    allow_element_ptr: usize,
    prompt_hwnd: u64,
    target_pid: u32,
    facts: &WindowFacts,
    z_order_rank: Option<usize>,
) -> (evidence: NativeConsentActionEvidence)
    ensures
        evidence == evidence_for(allow_element_ptr, prompt_hwnd, target_pid, *facts, z_order_rank),
{
    let live = prompt_hwnd != 0 && facts.is_window;
    NativeConsentActionEvidence {
        allow_element_ptr,
        prompt_hwnd,
        same_pid: live && belongs_to(facts, target_pid),
        live,
        visible: live && facts.visible,
        enabled: live && facts.enabled,
        owner_reaches_target: live && facts.owner_reaches_target,
        z_order_rank,
    }
}

/// The evidence for an action is complete exactly where its window is one that
/// the target owns and has a place among the windows on the screen.
pub proof fn lemma_complete_evidence_is_target_owned(
    allow_element_ptr: usize,
    prompt_hwnd: u64,
    target_pid: u32,
    facts: WindowFacts,
    z_order_rank: Option<usize>,
)
    ensures
        evidence_for(
            allow_element_ptr,
            prompt_hwnd,
            target_pid,
            facts,
            z_order_rank,
        ).is_complete() <==> is_target_owned(prompt_hwnd, target_pid, facts) && z_order_rank
            is Some,
{
}

/// Whether `seen` holds the windows from `top` down, each with whether it is
/// owned by the target. The walk ends at the limit, at the last window, or at a
/// window that is said to stand below itself.
pub open spec fn is_z_order_walk<O: FnMut(u64) -> bool, N: FnMut(u64) -> u64>(
    top: u64,
    owned: O,
    below: N,
    seen: Seq<(u64, bool)>,
) -> bool {
    &&& seen.len() <= Z_ORDER_LIMIT
    &&& if top == 0 {
        seen.len() == 0
    } else {
        seen.len() > 0 && seen[0].0 == top
    }
    &&& forall|k: int|
        0 <= k < seen.len() ==> (#[trigger] seen[k]).0 != 0 && call_ensures(
            owned,
            (seen[k].0,),
            seen[k].1,
        )
    &&& forall|k: int|
        0 < k < seen.len() ==> (#[trigger] seen[k]).0 != seen[k - 1].0 && call_ensures(
            below,
            (seen[k - 1].0,),
            seen[k].0,
        )
    &&& 0 < seen.len() < Z_ORDER_LIMIT ==> exists|next: u64| #[trigger]
        call_ensures(below, (seen.last().0,), next) && (next == 0 || next == seen.last().0)
}

/// Whether `path` leads from `top` down, each window being the one that is said
/// to stand below the window before it, to a window that is looked at.
pub open spec fn is_descent<N: FnMut(u64) -> u64>(top: u64, below: N, path: Seq<u64>) -> bool {
    &&& 0 < path.len() <= Z_ORDER_LIMIT
    &&& path[0] == top
    &&& forall|k: int| 0 <= k < path.len() ==> #[trigger] path[k] != 0
    &&& forall|k: int|
        0 < k < path.len() ==> #[trigger] path[k] != path[k - 1] && call_ensures(
            below,
            (path[k - 1],),
            path[k],
        )
}

/// The owned windows among those seen, each with how many stand above it.
pub open spec fn owned_with_ranks(seen: Seq<(u64, bool)>) -> Seq<(u64, usize)>
    decreases seen.len(),
{
    if seen.len() == 0 {
        Seq::empty()
    } else {
        let before = owned_with_ranks(seen.drop_last());
        if seen.last().1 {
            before.push((seen.last().0, (seen.len() - 1) as usize))
        } else {
            before
        }
    }
}

/// The windows that the target owns, from the topmost down, each with how many
/// windows stand above it. `top` is the topmost window on the screen,
/// `is_owned` tells whether the target owns a window, and `below` gives the
/// window that stands below another, or 0.
pub fn target_owned_windows_by_z_order<O, N>(top: u64, is_owned: O, below: N) -> (windows: Vec<
    (u64, usize),
>) where O: FnMut(u64) -> bool, N: FnMut(u64) -> u64
    requires
        forall|path: Seq<u64>| #[trigger]
            is_descent(top, below, path) ==> call_requires(is_owned, (path.last(),))
                && call_requires(below, (path.last(),)),
    ensures
        exists|seen: Seq<(u64, bool)>| #[trigger]
            is_z_order_walk(top, is_owned, below, seen) && windows@ == owned_with_ranks(seen),
{
    let mut ask_owned = is_owned;
    let mut ask_below = below;
    let mut windows: Vec<(u64, usize)> = Vec::new();
    let ghost mut seen: Seq<(u64, bool)> = Seq::empty();
    let mut current = top;
    let mut rank: usize = 0;
    if top == 0 {
        assert(is_z_order_walk(top, is_owned, below, seen));
        return windows;
    }
    while rank < Z_ORDER_LIMIT
        invariant
            forall|path: Seq<u64>| #[trigger]
                is_descent(top, below, path) ==> call_requires(ask_owned, (path.last(),))
                    && call_requires(ask_below, (path.last(),)),
            ask_owned == is_owned,
            ask_below == below,
            rank <= Z_ORDER_LIMIT,
            seen.len() == rank,
            top != 0,
            current != 0,
            windows@ == owned_with_ranks(seen),
            if rank == 0 {
                current == top
            } else {
                &&& seen[0].0 == top
                &&& current != seen.last().0
                &&& call_ensures(below, (seen.last().0,), current)
            },
            forall|k: int|
                0 <= k < seen.len() ==> (#[trigger] seen[k]).0 != 0 && call_ensures(
                    is_owned,
                    (seen[k].0,),
                    seen[k].1,
                ),
            forall|k: int|
                0 < k < seen.len() ==> (#[trigger] seen[k]).0 != seen[k - 1].0 && call_ensures(
                    below,
                    (seen[k - 1].0,),
                    seen[k].0,
                ),
        decreases Z_ORDER_LIMIT - rank,
    {
        let ghost path = seen.map_values(|window: (u64, bool)| window.0).push(current);
        assert(is_descent(top, below, path));
        assert(path.last() == current);
        let owned = ask_owned(current);
        let ghost before = seen;
        proof {
            seen = seen.push((current, owned));
            assert(seen.drop_last() =~= before);
        }
        if owned {
            windows.push((current, rank));
        }
        let next = ask_below(current);
        if next == 0 || next == current {
            assert(call_ensures(below, (seen.last().0,), next));
            assert(rank > 0 ==> seen[rank - 1] == before.last());
            assert(is_z_order_walk(top, is_owned, below, seen));
            return windows;
        }
        current = next;
        rank = rank + 1;
    }
    assert(is_z_order_walk(top, is_owned, below, seen));
    windows
}

/// The windows are listed from the topmost down: each is one of those seen, at
/// its rank, and is owned, no owned one is left out, and the ranks grow.
pub proof fn lemma_owned_with_ranks(seen: Seq<(u64, bool)>)
    requires
        seen.len() <= Z_ORDER_LIMIT,
    ensures
        forall|i: int| #![trigger owned_with_ranks(seen)[i]]
            0 <= i < owned_with_ranks(seen).len() ==> {
                let (window, rank) = owned_with_ranks(seen)[i];
                rank < seen.len() && seen[rank as int] == (window, true)
            },
        forall|k: int|
            0 <= k < seen.len() && (#[trigger] seen[k]).1 ==> owned_with_ranks(seen).contains(
                (seen[k].0, k as usize),
            ),
        forall|i: int, j: int|
            0 <= i < j < owned_with_ranks(seen).len() ==> (#[trigger] owned_with_ranks(seen)[i]).1
                < (#[trigger] owned_with_ranks(seen)[j]).1,
    decreases seen.len(),
{
    if seen.len() > 0 {
        let front = seen.drop_last();
        lemma_owned_with_ranks(front);
        let before = owned_with_ranks(front);
        let after = owned_with_ranks(seen);
        assert forall|k: int| 0 <= k < seen.len() && (#[trigger] seen[k]).1 implies after.contains(
            (seen[k].0, k as usize),
        ) by {
            let entry = (seen[k].0, k as usize);
            if k == seen.len() - 1 {
                assert(after.last() == entry);
            } else {
                assert(front[k] == seen[k]);
                assert(before.contains(entry));
                let i = choose|i: int| 0 <= i < before.len() && before[i] == entry;
                assert(after[i] == entry);
            }
        }
        assert forall|i: int| #![trigger after[i]] 0 <= i < after.len() implies {
            let (window, rank) = after[i];
            rank < seen.len() && seen[rank as int] == (window, true)
        } by {
            if i < before.len() {
                assert(after[i] == before[i]);
                let rank = before[i].1;
                assert(front[rank as int] == seen[rank as int]);
            }
        }
        assert forall|i: int, j: int| 0 <= i < j < after.len() implies (#[trigger] after[i]).1 < (
        #[trigger] after[j]).1 by {
            assert(after[i] == before[i]);
            if j < before.len() {
                assert(after[j] == before[j]);
            }
        }
    }
}

} // verus!
