//! Which of three dialog buttons grants the request.
//!
//! Chromium builds the prompt from one separated extra action and the standard
//! pair of buttons. Their labels are localized, and the whole row is mirrored
//! for languages written from right to left, but which two stand close together
//! and which one stands apart does not change.

use vstd::prelude::*;

use crate::node::Rect;
use crate::refusal::{self, refusal, BrowserRefusal, BrowserRefusalCode, RefusalView};

verus! {

/// A dialog button that was found in a prompt.
#[derive(Clone, Copy, Debug, PartialEq, Eq)]
pub struct ConsentButtonCandidate {
    pub element_ptr: usize,
    pub rect: Rect,
    pub has_keyboard_focus: bool,
}

/// The free space between two rectangles of one row, where they do not overlap.
pub open spec fn gap(first: Rect, second: Rect) -> Option<int> {
    if first.1 != second.1 || first.3 != second.3 {
        None
    } else if first.2 <= second.0 {
        Some(second.0 - first.2)
    } else if second.2 <= first.0 {
        Some(first.0 - second.2)
    } else {
        None
    }
}

/// The free space between two rectangles of one row, where they do not overlap.
pub fn edge_gap(first: Rect, second: Rect) -> (space: Option<i64>)
    ensures
        space is Some <==> gap(first, second) is Some,
        space matches Some(x) ==> gap(first, second) == Some(x as int),
{
    let (first_left, first_top, first_right, first_bottom) = first;
    let (second_left, second_top, second_right, second_bottom) = second;
    if first_top != second_top || first_bottom != second_bottom {
        return None;
    }
    if first_right <= second_left {
        Some(second_left as i64 - first_right as i64)
    } else if second_right <= first_left {
        Some(first_left as i64 - second_right as i64)
    } else {
        None
    }
}

/// The width of a rectangle.
pub open spec fn width(rect: Rect) -> int {
    rect.2 - rect.0
}

/// The space from button `i` to button `j`, of buttons that stand in one row.
pub open spec fn space(buttons: Seq<ConsentButtonCandidate>, i: int, j: int) -> int {
    gap(buttons[i].rect, buttons[j].rect)->0
}

/// Whether three buttons stand in one row and no two of them overlap.
pub open spec fn form_row(buttons: Seq<ConsentButtonCandidate>) -> bool {
    &&& gap(buttons[0].rect, buttons[1].rect) is Some
    &&& gap(buttons[0].rect, buttons[2].rect) is Some
    &&& gap(buttons[1].rect, buttons[2].rect) is Some
}

/// Of three buttons the two that stand closer together than any other two, and
/// the third.
pub open spec fn closest_pair(buttons: Seq<ConsentButtonCandidate>) -> Option<(int, int, int)> {
    let a = space(buttons, 0, 1);
    let b = space(buttons, 0, 2);
    let c = space(buttons, 1, 2);
    if a < b && a < c {
        Some((0, 1, 2))
    } else if b < a && b < c {
        Some((0, 2, 1))
    } else if c < a && c < b {
        Some((1, 2, 0))
    } else {
        None
    }
}

/// The smaller of two numbers.
pub open spec fn least(a: int, b: int) -> int {
    if a <= b {
        a
    } else {
        b
    }
}

/// The space that sets the third button apart from the pair.
pub open spec fn extra_space(buttons: Seq<ConsentButtonCandidate>, roles: (int, int, int)) -> int {
    let (i, j, k) = roles;
    least(
        if i < k {
            space(buttons, i, k)
        } else {
            space(buttons, k, i)
        },
        if j < k {
            space(buttons, j, k)
        } else {
            space(buttons, k, j)
        },
    )
}

/// Whether the pair is a standard pair: the space in it is no wider than the
/// wider button, and the third button is at least twice as far away.
pub open spec fn is_standard_pair(
    buttons: Seq<ConsentButtonCandidate>,
    roles: (int, int, int),
) -> bool {
    let (i, j, _) = roles;
    let inner = space(buttons, i, j);
    &&& inner <= width(buttons[i].rect) || inner <= width(buttons[j].rect)
    &&& extra_space(buttons, roles) >= 2 * inner
}

/// The button of the pair that is nearer to the third, and the other one.
pub open spec fn allow_and_cancel(
    buttons: Seq<ConsentButtonCandidate>,
    roles: (int, int, int),
) -> Option<(int, int)> {
    let (i, j, k) = roles;
    if space(buttons, i, k) < space(buttons, j, k) {
        Some((i, j))
    } else if space(buttons, j, k) < space(buttons, i, k) {
        Some((j, i))
    } else {
        None
    }
}

/// Whether two buttons have the keyboard focus.
pub open spec fn several_focused(buttons: Seq<ConsentButtonCandidate>) -> bool {
    exists|i: int, j: int|
        0 <= i < j < buttons.len() && (#[trigger] buttons[i]).has_keyboard_focus && (
        #[trigger] buttons[j]).has_keyboard_focus
}

/// Whether a button other than `cancel` has the keyboard focus.
pub open spec fn focus_contradicts(buttons: Seq<ConsentButtonCandidate>, cancel: int) -> bool {
    exists|i: int|
        0 <= i < buttons.len() && i != cancel && (#[trigger] buttons[i]).has_keyboard_focus
}

/// The button that grants the request, or why there is none: of exactly three
/// buttons in one row, two form a standard pair, and of this pair the button
/// next to the third one grants the request and the other one cancels it. If any
/// button has the focus, it is the latter.
pub open spec fn chosen_allow(buttons: Seq<ConsentButtonCandidate>) -> Result<usize, RefusalView> {
    if buttons.len() != 3 {
        Err(
            refusal::wrong_target(
                "the native Chromium consent prompt did not expose exactly three distinct dialog buttons"@,
            ),
        )
    } else if several_focused(buttons) {
        Err(
            refusal::wrong_target(
                "the native Chromium consent prompt exposed multiple focused dialog buttons"@,
            ),
        )
    } else if !form_row(buttons) {
        Err(
            refusal::wrong_target(
                "the native Chromium consent buttons did not form one exact non-overlapping dialog row"@,
            ),
        )
    } else {
        match closest_pair(buttons) {
            Some(roles) if is_standard_pair(buttons, roles) => match allow_and_cancel(
                buttons,
                roles,
            ) {
                Some((allow, cancel)) => if focus_contradicts(buttons, cancel) {
                    Err(
                        refusal::wrong_target(
                            "the native Chromium consent prompt focus contradicted the structural cancel button"@,
                        ),
                    )
                } else {
                    Ok(buttons[allow].element_ptr)
                },
                None => Err(
                    refusal::wrong_target(
                        "the native Chromium consent prompt had no unique standard button adjacent to the extra action"@,
                    ),
                ),
            },
            _ => Err(
                refusal::wrong_target(
                    "the native Chromium consent prompt had no uniquely separated standard button pair"@,
                ),
            ),
        }
    }
}

fn wrong_target_refused(message: &str) -> (refused: BrowserRefusal)
    ensures
        refused@ == refusal::wrong_target(message@),
{
    refusal(BrowserRefusalCode::BrowserWrongTargetRefused, message)
}

/// The button that grants the request, chosen by where the buttons stand and
/// which of them has the focus, whatever they are labelled.
pub fn select_language_independent_allow(candidates: &[ConsentButtonCandidate]) -> (chosen: Result<
    usize,
    BrowserRefusal,
>)
    ensures
        refusal::outcome_view(chosen) == chosen_allow(candidates@),
{
    if candidates.len() != 3 {
        return Err(
            wrong_target_refused(
                "the native Chromium consent prompt did not expose exactly three distinct dialog buttons",
            ),
        );
    }
    proof {
        let (x, y, z) = (candidates@[0], candidates@[1], candidates@[2]);
        assert(candidates@ =~= seq![x, y, z]);
        lemma_focus_of_three(x, y, z);
    }
    let focus: (bool, bool, bool) = (
        candidates[0].has_keyboard_focus,
        candidates[1].has_keyboard_focus,
        candidates[2].has_keyboard_focus,
    );
    if (focus.0 && focus.1) || (focus.0 && focus.2) || (focus.1 && focus.2) {
        return Err(
            wrong_target_refused(
                "the native Chromium consent prompt exposed multiple focused dialog buttons",
            ),
        );
    }
    let gaps = (
        edge_gap(candidates[0].rect, candidates[1].rect),
        edge_gap(candidates[0].rect, candidates[2].rect),
        edge_gap(candidates[1].rect, candidates[2].rect),
    );
    let (low, middle, high): (i64, i64, i64) = match gaps {
        (Some(a), Some(b), Some(c)) => (a, b, c),
        _ => {
            return Err(
                wrong_target_refused(
                    "the native Chromium consent buttons did not form one exact non-overlapping dialog row",
                ),
            );
        },
    };
    let roles: Option<(usize, usize, usize, i64, i64)> = if low < middle && low < high {
        Some((0, 1, 2, low, if middle <= high { middle } else { high }))
    } else if middle < low && middle < high {
        Some((0, 2, 1, middle, if low <= high { low } else { high }))
    } else if high < low && high < middle {
        Some((1, 2, 0, high, if low <= middle { low } else { middle }))
    } else {
        None
    };
    assert(match roles {
        Some((i, j, k, standard_gap, extra_gap)) => {
            let found = (i as int, j as int, k as int);
            &&& closest_pair(candidates@) == Some(found)
            &&& standard_gap == space(candidates@, i as int, j as int)
            &&& extra_gap == extra_space(candidates@, found)
        },
        None => closest_pair(candidates@) is None,
    });
    let (first, second, extra): (usize, usize, usize) = match roles {
        Some((i, j, k, standard_gap, extra_gap)) => {
            let first_width: i64 = candidates[i].rect.2 as i64 - candidates[i].rect.0 as i64;
            let second_width: i64 = candidates[j].rect.2 as i64 - candidates[j].rect.0 as i64;
            if (standard_gap > first_width && standard_gap > second_width) || extra_gap < 2
                * standard_gap {
                return Err(
                    wrong_target_refused(
                        "the native Chromium consent prompt had no uniquely separated standard button pair",
                    ),
                );
            }
            (i, j, k)
        },
        None => {
            return Err(
                wrong_target_refused(
                    "the native Chromium consent prompt had no uniquely separated standard button pair",
                ),
            );
        },
    };
    let first_to_extra = edge_gap(candidates[first].rect, candidates[extra].rect);
    let second_to_extra = edge_gap(candidates[second].rect, candidates[extra].rect);
    let (allow, cancel): (usize, usize) = match (first_to_extra, second_to_extra) {
        (Some(a), Some(b)) if a < b => (first, second),
        (Some(a), Some(b)) if b < a => (second, first),
        _ => {
            return Err(
                wrong_target_refused(
                    "the native Chromium consent prompt had no unique standard button adjacent to the extra action",
                ),
            );
        },
    };
    if (focus.0 && cancel != 0) || (focus.1 && cancel != 1) || (focus.2 && cancel != 2) {
        return Err(
            wrong_target_refused(
                "the native Chromium consent prompt focus contradicted the structural cancel button",
            ),
        );
    }
    Ok(candidates[allow].element_ptr)
}

/// Whether the left edge of a rectangle is left of its right edge and its top
/// above its bottom.
pub open spec fn is_proper(rect: Rect) -> bool {
    rect.0 < rect.2 && rect.1 < rect.3
}

/// Whether every button has a proper rectangle.
pub open spec fn all_proper(buttons: Seq<ConsentButtonCandidate>) -> bool {
    forall|i: int| 0 <= i < buttons.len() ==> is_proper((#[trigger] buttons[i]).rect)
}

/// Whether `middle` stands in a row between `a` and `b`.
pub open spec fn stands_between(middle: Rect, a: Rect, b: Rect) -> bool {
    &&& middle.1 == a.1 == b.1
    &&& middle.3 == a.3 == b.3
    &&& (a.2 <= middle.0 && middle.2 <= b.0) || (b.2 <= middle.0 && middle.2 <= a.0)
}

/// Whether the buttons `allow`, `cancel` and `extra` are the three, with
/// `allow` between the others and `extra` set apart.
pub open spec fn plays_roles(
    buttons: Seq<ConsentButtonCandidate>,
    allow: int,
    cancel: int,
    extra: int,
) -> bool {
    &&& 0 <= allow < 3 && 0 <= cancel < 3 && 0 <= extra < 3
    &&& allow != cancel && allow != extra && cancel != extra
    &&& stands_between(buttons[allow].rect, buttons[cancel].rect, buttons[extra].rect)
    &&& space(buttons, allow, cancel) < space(buttons, allow, extra)
    &&& 2 * space(buttons, allow, cancel) <= space(buttons, allow, extra)
    &&& !buttons[allow].has_keyboard_focus
    &&& !buttons[extra].has_keyboard_focus
}

/// The button that grants the request is always the middle one of the row,
/// closer to the button that cancels than to the one set apart, and neither it
/// nor the one set apart has the focus.
pub proof fn lemma_allow_is_the_middle_button(buttons: Seq<ConsentButtonCandidate>)
    requires
        all_proper(buttons),
        chosen_allow(buttons) is Ok,
    ensures
        buttons.len() == 3,
        exists|allow: int, cancel: int, extra: int| #[trigger]
            plays_roles(buttons, allow, cancel, extra) && chosen_allow(buttons) == Ok::<
                usize,
                RefusalView,
            >(buttons[allow].element_ptr),
{
    let roles = closest_pair(buttons)->0;
    let (allow, cancel) = allow_and_cancel(buttons, roles)->0;
    assert(is_proper(buttons[0].rect) && is_proper(buttons[1].rect) && is_proper(buttons[2].rect));
    assert(plays_roles(buttons, allow, cancel, roles.2));
}

/// Of three proper rectangles in one row the pair and the one set apart never
/// leave open which button of the pair is next to it.
pub proof fn lemma_adjacent_button_is_unique(buttons: Seq<ConsentButtonCandidate>)
    requires
        all_proper(buttons),
        buttons.len() == 3,
        form_row(buttons),
        closest_pair(buttons) is Some,
    ensures
        allow_and_cancel(buttons, closest_pair(buttons)->0) is Some,
{
    assert(is_proper(buttons[0].rect) && is_proper(buttons[1].rect) && is_proper(buttons[2].rect));
}

/// Whether `b` is the image of `a` in a mirror that takes `x` to `axis - x`.
pub open spec fn is_mirrored(a: Rect, b: Rect, axis: int) -> bool {
    &&& b.0 == axis - a.2
    &&& b.2 == axis - a.0
    &&& b.1 == a.1
    &&& b.3 == a.3
}

/// Whether the buttons of `b` are those of `a` in mirrored places.
pub open spec fn is_mirrored_row(
    a: Seq<ConsentButtonCandidate>,
    b: Seq<ConsentButtonCandidate>,
    axis: int,
) -> bool {
    &&& a.len() == b.len()
    &&& forall|i: int| #![trigger a[i]] #![trigger b[i]]
        0 <= i < a.len() ==> {
            &&& is_mirrored(a[i].rect, b[i].rect, axis)
            &&& b[i].element_ptr == a[i].element_ptr
            &&& b[i].has_keyboard_focus == a[i].has_keyboard_focus
        }
}

/// A mirrored row, as dialogs have it in languages written from right to left,
/// gives the same choice.
pub proof fn lemma_choice_survives_mirroring(
    a: Seq<ConsentButtonCandidate>,
    b: Seq<ConsentButtonCandidate>,
    axis: int,
)
    requires
        all_proper(a),
        is_mirrored_row(a, b, axis),
    ensures
        chosen_allow(a) == chosen_allow(b),
{
    lemma_same_focus(a, b);
    if a.len() == 3 {
        assert(is_proper(a[0].rect) && is_proper(a[1].rect) && is_proper(a[2].rect));
        assert(is_mirrored(a[0].rect, b[0].rect, axis));
        assert(is_mirrored(a[1].rect, b[1].rect, axis));
        assert(is_mirrored(a[2].rect, b[2].rect, axis));
        assert(forall|i: int, j: int|
            0 <= i < 3 && 0 <= j < 3 ==> gap((#[trigger] a[i]).rect, (#[trigger] a[j]).rect) == gap(
                b[i].rect,
                b[j].rect,
            ));
        assert(closest_pair(a) == closest_pair(b));
    }
}

proof fn lemma_same_focus(a: Seq<ConsentButtonCandidate>, b: Seq<ConsentButtonCandidate>)
    requires
        a.len() == b.len(),
        forall|i: int|
            0 <= i < a.len() ==> (#[trigger] a[i]).has_keyboard_focus == b[i].has_keyboard_focus,
    ensures
        several_focused(a) == several_focused(b),
        forall|cancel: int| #[trigger]
            focus_contradicts(a, cancel) == focus_contradicts(b, cancel),
{
    if several_focused(a) {
        let (i, j) = choose|i: int, j: int|
            0 <= i < j < a.len() && (#[trigger] a[i]).has_keyboard_focus && (
            #[trigger] a[j]).has_keyboard_focus;
        assert(b[i].has_keyboard_focus && b[j].has_keyboard_focus);
    }
    if several_focused(b) {
        let (i, j) = choose|i: int, j: int|
            0 <= i < j < b.len() && (#[trigger] b[i]).has_keyboard_focus && (
            #[trigger] b[j]).has_keyboard_focus;
        assert(a[i].has_keyboard_focus && a[j].has_keyboard_focus);
    }
    assert forall|cancel: int| #[trigger]
        focus_contradicts(a, cancel) == focus_contradicts(b, cancel) by {
        if focus_contradicts(a, cancel) {
            let i = choose|i: int|
                0 <= i < a.len() && i != cancel && (#[trigger] a[i]).has_keyboard_focus;
            assert(b[i].has_keyboard_focus);
        }
        if focus_contradicts(b, cancel) {
            let i = choose|i: int|
                0 <= i < b.len() && i != cancel && (#[trigger] b[i]).has_keyboard_focus;
            assert(a[i].has_keyboard_focus);
        }
    }
}

/// The buttons in another order: first the one at `order[0]`, and so on.
pub open spec fn reordered(
    buttons: Seq<ConsentButtonCandidate>,
    order: Seq<int>,
) -> Seq<ConsentButtonCandidate> {
    Seq::new(buttons.len(), |i: int| buttons[order[i]])
}

proof fn lemma_exchange_first_two(
    x: ConsentButtonCandidate,
    y: ConsentButtonCandidate,
    z: ConsentButtonCandidate,
)
    requires
        is_proper(x.rect),
        is_proper(y.rect),
        is_proper(z.rect),
    ensures
        chosen_allow(seq![y, x, z]) == chosen_allow(seq![x, y, z]),
{
    let a = seq![x, y, z];
    let b = seq![y, x, z];
    lemma_focus_of_three(x, y, z);
    lemma_focus_of_three(y, x, z);
    assert(gap(x.rect, y.rect) == gap(y.rect, x.rect));
    assert(gap(x.rect, z.rect) == gap(z.rect, x.rect));
    assert(gap(y.rect, z.rect) == gap(z.rect, y.rect));
    assert(a[0] == x && a[1] == y && a[2] == z);
    assert(b[0] == y && b[1] == x && b[2] == z);
}

proof fn lemma_exchange_last_two(
    x: ConsentButtonCandidate,
    y: ConsentButtonCandidate,
    z: ConsentButtonCandidate,
)
    requires
        is_proper(x.rect),
        is_proper(y.rect),
        is_proper(z.rect),
    ensures
        chosen_allow(seq![x, z, y]) == chosen_allow(seq![x, y, z]),
{
    let a = seq![x, y, z];
    let b = seq![x, z, y];
    lemma_focus_of_three(x, y, z);
    lemma_focus_of_three(x, z, y);
    assert(gap(x.rect, y.rect) == gap(y.rect, x.rect));
    assert(gap(x.rect, z.rect) == gap(z.rect, x.rect));
    assert(gap(y.rect, z.rect) == gap(z.rect, y.rect));
    assert(a[0] == x && a[1] == y && a[2] == z);
    assert(b[0] == x && b[1] == z && b[2] == y);
}

pub(crate) proof fn lemma_focus_of_three(
    x: ConsentButtonCandidate,
    y: ConsentButtonCandidate,
    z: ConsentButtonCandidate,
)
    ensures
        ({
            let a = seq![x, y, z];
            let (f, g, h) = (x.has_keyboard_focus, y.has_keyboard_focus, z.has_keyboard_focus);
            &&& several_focused(a) == (f && g || f && h || g && h)
            &&& focus_contradicts(a, 0) == (g || h)
            &&& focus_contradicts(a, 1) == (f || h)
            &&& focus_contradicts(a, 2) == (f || g)
        }),
{
    let a = seq![x, y, z];
    assert(a[0] == x && a[1] == y && a[2] == z);
}

/// The order in which the buttons were found does not matter.
pub proof fn lemma_choice_ignores_order(buttons: Seq<ConsentButtonCandidate>, order: Seq<int>)
    requires
        all_proper(buttons),
        order.len() == buttons.len(),
        forall|i: int| 0 <= i < order.len() ==> 0 <= #[trigger] order[i] < buttons.len(),
        order.no_duplicates(),
    ensures
        chosen_allow(reordered(buttons, order)) == chosen_allow(buttons),
{
    let other = reordered(buttons, order);
    if buttons.len() == 3 {
        let (x, y, z) = (buttons[0], buttons[1], buttons[2]);
        let (p, q, r) = (order[0], order[1], order[2]);
        assert(is_proper(x.rect) && is_proper(y.rect) && is_proper(z.rect));
        assert(p != q && p != r && q != r);
        assert(0 <= p < 3 && 0 <= q < 3 && 0 <= r < 3);
        assert(buttons =~= seq![x, y, z]);
        assert(other =~= seq![buttons[p], buttons[q], buttons[r]]);
        lemma_exchange_first_two(x, y, z);
        lemma_exchange_last_two(x, y, z);
        lemma_exchange_last_two(y, x, z);
        lemma_exchange_first_two(x, z, y);
        lemma_exchange_first_two(y, z, x);
    }
}

/// The keyboard focus never makes a choice, it only stops one: whatever is
/// chosen is also chosen among the same buttons without any focus.
pub proof fn lemma_focus_only_refuses(
    focused: Seq<ConsentButtonCandidate>,
    unfocused: Seq<ConsentButtonCandidate>,
)
    requires
        focused.len() == unfocused.len(),
        forall|i: int| #![trigger focused[i]] #![trigger unfocused[i]]
            0 <= i < focused.len() ==> {
                &&& unfocused[i].rect == focused[i].rect
                &&& unfocused[i].element_ptr == focused[i].element_ptr
                &&& !unfocused[i].has_keyboard_focus
            },
        chosen_allow(focused) is Ok,
    ensures
        chosen_allow(unfocused) == chosen_allow(focused),
{
    assert(closest_pair(unfocused) == closest_pair(focused));
}

/// Focus on the button that cancels changes nothing, and focus on any other
/// button refuses what is chosen without focus.
pub proof fn lemma_only_cancel_may_have_focus(
    focused: Seq<ConsentButtonCandidate>,
    unfocused: Seq<ConsentButtonCandidate>,
)
    requires
        focused.len() == unfocused.len(),
        forall|i: int| #![trigger focused[i]] #![trigger unfocused[i]]
            0 <= i < focused.len() ==> {
                &&& unfocused[i].rect == focused[i].rect
                &&& unfocused[i].element_ptr == focused[i].element_ptr
                &&& !unfocused[i].has_keyboard_focus
            },
        chosen_allow(unfocused) is Ok,
    ensures
        ({
            let cancel = (allow_and_cancel(unfocused, closest_pair(unfocused)->0)->0).1;
            if focus_contradicts(focused, cancel) {
                chosen_allow(focused) is Err
            } else {
                chosen_allow(focused) == chosen_allow(unfocused)
            }
        }),
{
    assert(closest_pair(unfocused) == closest_pair(focused));
    let cancel = (allow_and_cancel(unfocused, closest_pair(unfocused)->0)->0).1;
    if !focus_contradicts(focused, cancel) {
        assert(!several_focused(focused)) by {
            if several_focused(focused) {
                let (i, j) = choose|i: int, j: int|
                    0 <= i < j < focused.len() && (#[trigger] focused[i]).has_keyboard_focus && (
                    #[trigger] focused[j]).has_keyboard_focus;
                assert(i == cancel && j == cancel);
            }
        }
    }
}

} // verus!
