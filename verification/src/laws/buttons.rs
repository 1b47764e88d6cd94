//! Which of a prompt's buttons grants the request.

use vstd::prelude::*;

use crate::buttons::{
    self, chosen_allow, closest_pair, focus_contradicts, gap, several_focused,
    ConsentButtonCandidate,
};
use crate::node::Rect;
use crate::refusal::{BrowserRefusalCode, RefusalView};

verus! {

/// Whether an outcome is the refusal of a wrong target with the sentence
/// `message`.
pub open spec fn is_refused<T>(outcome: Result<T, RefusalView>, message: Seq<char>) -> bool {
    outcome matches Err(refused) && refused.code == BrowserRefusalCode::BrowserWrongTargetRefused
        && refused.message == message
}

/// There is a space between two rectangles exactly where they have the same top
/// and bottom and one ends before the other starts. The space is what has to be
/// added to the end of the one to reach the start of the other.
pub proof fn lemma_space_between_is(a: Rect, b: Rect)
    ensures
        gap(a, b) is Some <==> a.1 == b.1 && a.3 == b.3 && (a.2 <= b.0 || b.2 <= a.0),
        gap(a, b) matches Some(space) ==> space >= 0 && if a.2 <= b.0 {
            a.2 + space == b.0
        } else {
            b.2 + space == a.0
        },
{
}

/// Moving two rectangles by the same distances keeps the space between them, and so
/// does exchanging two that have a width.
pub proof fn lemma_space_is_relative(a: Rect, b: Rect, c: Rect, d: Rect, right: int, down: int)
    requires
        c.0 == a.0 + right && c.2 == a.2 + right && c.1 == a.1 + down && c.3 == a.3 + down,
        d.0 == b.0 + right && d.2 == b.2 + right && d.1 == b.1 + down && d.3 == b.3 + down,
    ensures
        gap(a, b) == gap(c, d),
        a.0 < a.2 && b.0 < b.2 ==> gap(a, b) == gap(b, a),
{
}

/// Whether three rectangles are laid out as a prompt has its buttons: in one row,
/// `allow` between `cancel` and `extra`, in either direction. The space between
/// `allow` and `cancel` is smaller than the one between `allow` and `extra`, at
/// most half of it, and no wider than the wider one of `allow` and `cancel`.
pub open spec fn is_laid_out(allow: Rect, cancel: Rect, extra: Rect) -> bool {
    &&& allow.1 == cancel.1 && allow.1 == extra.1
    &&& allow.3 == cancel.3 && allow.3 == extra.3
    &&& {
        ||| cancel.2 <= allow.0 && allow.2 <= extra.0 && are_grouped(
            allow,
            cancel,
            allow.0 - cancel.2,
            extra.0 - allow.2,
        )
        ||| extra.2 <= allow.0 && allow.2 <= cancel.0 && are_grouped(
            allow,
            cancel,
            cancel.0 - allow.2,
            allow.0 - extra.2,
        )
    }
}

/// Whether the spaces `inner` and `outer` group two rectangles together.
pub open spec fn are_grouped(allow: Rect, cancel: Rect, inner: int, outer: int) -> bool {
    &&& inner < outer
    &&& inner + inner <= outer
    &&& inner <= allow.2 - allow.0 || inner <= cancel.2 - cancel.0
}

/// Whether the three buttons are laid out with these parts.
pub open spec fn has_parts(
    buttons: Seq<ConsentButtonCandidate>,
    allow: int,
    cancel: int,
    extra: int,
) -> bool {
    &&& buttons.len() == 3
    &&& 0 <= allow < 3 && 0 <= cancel < 3 && 0 <= extra < 3
    &&& allow != cancel && allow != extra && cancel != extra
    &&& is_laid_out(buttons[allow].rect, buttons[cancel].rect, buttons[extra].rect)
}

/// Whether every button has a width and a height.
pub open spec fn all_have_area(buttons: Seq<ConsentButtonCandidate>) -> bool {
    forall|i: int|
        0 <= i < buttons.len() ==> (#[trigger] buttons[i]).rect.0 < buttons[i].rect.2
            && buttons[i].rect.1 < buttons[i].rect.3
}

proof fn lemma_three(buttons: Seq<ConsentButtonCandidate>)
    requires
        buttons.len() == 3,
    ensures
        ({
            let f = buttons[0].has_keyboard_focus;
            let g = buttons[1].has_keyboard_focus;
            let h = buttons[2].has_keyboard_focus;
            &&& several_focused(buttons) == (f && g || f && h || g && h)
            &&& focus_contradicts(buttons, 0) == (g || h)
            &&& focus_contradicts(buttons, 1) == (f || h)
            &&& focus_contradicts(buttons, 2) == (f || g)
        }),
{
    let (x, y, z) = (buttons[0], buttons[1], buttons[2]);
    assert(buttons =~= seq![x, y, z]);
    buttons::lemma_focus_of_three(x, y, z);
}

proof fn lemma_parts_are_roles(
    buttons: Seq<ConsentButtonCandidate>,
    allow: int,
    cancel: int,
    extra: int,
)
    requires
        all_have_area(buttons),
        has_parts(buttons, allow, cancel, extra),
    ensures
        buttons::form_row(buttons),
        closest_pair(buttons) is Some,
        buttons::is_standard_pair(buttons, closest_pair(buttons)->0),
        buttons::allow_and_cancel(buttons, closest_pair(buttons)->0) == Some((allow, cancel)),
{
    let (x, y, z) = (buttons[0].rect, buttons[1].rect, buttons[2].rect);
    assert(x.0 < x.2 && y.0 < y.2 && z.0 < z.2);
}

proof fn lemma_roles_are_parts(buttons: Seq<ConsentButtonCandidate>)
    requires
        all_have_area(buttons),
        buttons.len() == 3,
        buttons::form_row(buttons),
        closest_pair(buttons) is Some,
        buttons::is_standard_pair(buttons, closest_pair(buttons)->0),
    ensures
        ({
            let roles = closest_pair(buttons)->0;
            let (allow, cancel) = buttons::allow_and_cancel(buttons, roles)->0;
            &&& buttons::allow_and_cancel(buttons, roles) is Some
            &&& has_parts(buttons, allow, cancel, roles.2)
        }),
{
    let (x, y, z) = (buttons[0].rect, buttons[1].rect, buttons[2].rect);
    assert(x.0 < x.2 && y.0 < y.2 && z.0 < z.2);
}

/// Three buttons that are laid out as a prompt has them give the one next to the
/// extra action, whatever their labels, widths and places, as long as no button
/// but the one that cancels has the focus.
pub proof fn lemma_laid_out_buttons_give_allow(
    buttons: Seq<ConsentButtonCandidate>,
    allow: int,
    cancel: int,
    extra: int,
)
    requires
        all_have_area(buttons),
        has_parts(buttons, allow, cancel, extra),
    ensures
        !buttons[allow].has_keyboard_focus && !buttons[extra].has_keyboard_focus
            ==> chosen_allow(buttons) == Ok::<usize, RefusalView>(buttons[allow].element_ptr),
        buttons[allow].has_keyboard_focus || buttons[extra].has_keyboard_focus ==> chosen_allow(
            buttons,
        ) is Err,
{
    lemma_three(buttons);
    lemma_parts_are_roles(buttons, allow, cancel, extra);
}

/// A button is chosen exactly where three buttons are laid out as a prompt has
/// them and neither it nor the extra action has the focus.
pub proof fn lemma_choice_is_by_layout(buttons: Seq<ConsentButtonCandidate>, element: usize)
    requires
        all_have_area(buttons),
    ensures
        chosen_allow(buttons) == Ok::<usize, RefusalView>(element) <==> exists|
            allow: int,
            cancel: int,
            extra: int,
        | #[trigger]
            has_parts(buttons, allow, cancel, extra) && buttons[allow].element_ptr == element
                && !buttons[allow].has_keyboard_focus && !buttons[extra].has_keyboard_focus,
{
    if chosen_allow(buttons) == Ok::<usize, RefusalView>(element) {
        lemma_three(buttons);
        lemma_roles_are_parts(buttons);
        let roles = closest_pair(buttons)->0;
        let (allow, cancel) = buttons::allow_and_cancel(buttons, roles)->0;
        assert(has_parts(buttons, allow, cancel, roles.2));
    }
    if exists|allow: int, cancel: int, extra: int| #[trigger]
        has_parts(buttons, allow, cancel, extra) && buttons[allow].element_ptr == element
            && !buttons[allow].has_keyboard_focus && !buttons[extra].has_keyboard_focus {
        let (allow, cancel, extra) = choose|allow: int, cancel: int, extra: int| #[trigger]
            has_parts(buttons, allow, cancel, extra) && buttons[allow].element_ptr == element
                && !buttons[allow].has_keyboard_focus && !buttons[extra].has_keyboard_focus;
        lemma_laid_out_buttons_give_allow(buttons, allow, cancel, extra);
    }
}

/// Whether two of the buttons do not stand side by side in one row.
pub open spec fn some_are_not_side_by_side(buttons: Seq<ConsentButtonCandidate>) -> bool {
    exists|i: int, j: int|
        0 <= i < j < buttons.len() && {
            let (a, b) = ((#[trigger] buttons[i]).rect, (#[trigger] buttons[j]).rect);
            a.1 != b.1 || a.3 != b.3 || (b.0 < a.2 && a.0 < b.2)
        }
}

/// Whether two of the buttons have the focus.
pub open spec fn two_have_focus(buttons: Seq<ConsentButtonCandidate>) -> bool {
    exists|i: int, j: int|
        0 <= i < j < buttons.len() && (#[trigger] buttons[i]).has_keyboard_focus && (
        #[trigger] buttons[j]).has_keyboard_focus
}

/// Why no button is chosen is said by the first of these that holds: there are not
/// three buttons, two have the focus, two do not stand side by side, they are not
/// laid out as a prompt has them, or the focus is not on the one that cancels.
pub proof fn lemma_refusals_name_the_first_reason(buttons: Seq<ConsentButtonCandidate>)
    requires
        all_have_area(buttons),
    ensures
        buttons.len() != 3 ==> is_refused(
            chosen_allow(buttons),
            "the native Chromium consent prompt did not expose exactly three distinct dialog buttons"@,
        ),
        buttons.len() == 3 && two_have_focus(buttons) ==> is_refused(
            chosen_allow(buttons),
            "the native Chromium consent prompt exposed multiple focused dialog buttons"@,
        ),
        buttons.len() == 3 && !two_have_focus(buttons) && some_are_not_side_by_side(buttons)
            ==> is_refused(
            chosen_allow(buttons),
            "the native Chromium consent buttons did not form one exact non-overlapping dialog row"@,
        ),
        buttons.len() == 3 && !two_have_focus(buttons) && !some_are_not_side_by_side(buttons) && !(
        exists|allow: int, cancel: int, extra: int| #[trigger]
            has_parts(buttons, allow, cancel, extra)) ==> is_refused(
            chosen_allow(buttons),
            "the native Chromium consent prompt had no uniquely separated standard button pair"@,
        ),
        forall|allow: int, cancel: int, extra: int|
            !two_have_focus(buttons) && #[trigger] has_parts(buttons, allow, cancel, extra) && (
            buttons[allow].has_keyboard_focus || buttons[extra].has_keyboard_focus) ==> is_refused(
                chosen_allow(buttons),
                "the native Chromium consent prompt focus contradicted the structural cancel button"@,
            ),
{
    if buttons.len() == 3 {
        lemma_three(buttons);
        assert(two_have_focus(buttons) == several_focused(buttons));
        let (x, y, z) = (buttons[0].rect, buttons[1].rect, buttons[2].rect);
        assert(x.0 < x.2 && y.0 < y.2 && z.0 < z.2);
        if some_are_not_side_by_side(buttons) {
            let (i, j) = choose|i: int, j: int|
                0 <= i < j < buttons.len() && {
                    let (a, b) = ((#[trigger] buttons[i]).rect, (#[trigger] buttons[j]).rect);
                    a.1 != b.1 || a.3 != b.3 || (b.0 < a.2 && a.0 < b.2)
                };
            assert(gap(buttons[i].rect, buttons[j].rect) is None);
            assert((i == 0 && j == 1) || (i == 0 && j == 2) || (i == 1 && j == 2));
            assert(!buttons::form_row(buttons));
        } else {
            assert(buttons::form_row(buttons));
            if !(exists|allow: int, cancel: int, extra: int| #[trigger]
                has_parts(buttons, allow, cancel, extra)) {
                if closest_pair(buttons) is Some && buttons::is_standard_pair(
                    buttons,
                    closest_pair(buttons)->0,
                ) {
                    lemma_roles_are_parts(buttons);
                }
            }
        }
        assert forall|allow: int, cancel: int, extra: int|
            !two_have_focus(buttons) && #[trigger] has_parts(buttons, allow, cancel, extra) && (
            buttons[allow].has_keyboard_focus || buttons[extra].has_keyboard_focus) implies
            is_refused(
            chosen_allow(buttons),
            "the native Chromium consent prompt focus contradicted the structural cancel button"@,
        ) by {
            lemma_parts_are_roles(buttons, allow, cancel, extra);
        }
    }
}

/// Whether buttons `i` and `j` stand closer to each other than either to `k`, at
/// most half as far apart, and no further apart than the wider of them is wide.
/// Spaces are taken from the earlier button to the later one.
pub open spec fn are_closest(buttons: Seq<ConsentButtonCandidate>, i: int, j: int, k: int) -> bool {
    &&& buttons.len() == 3
    &&& (i, j, k) == (0int, 1int, 2int) || (i, j, k) == (0int, 2int, 1int) || (i, j, k) == (
        1int,
        2int,
        0int,
    )
    &&& gap(buttons[i].rect, buttons[j].rect) matches Some(inner) && {
        let apart = if k == 2 {
            (gap(buttons[i].rect, buttons[k].rect), gap(buttons[j].rect, buttons[k].rect))
        } else if k == 1 {
            (gap(buttons[i].rect, buttons[k].rect), gap(buttons[k].rect, buttons[j].rect))
        } else {
            (gap(buttons[k].rect, buttons[i].rect), gap(buttons[k].rect, buttons[j].rect))
        };
        &&& apart.0 matches Some(outer) && inner < outer && inner + inner <= outer
        &&& apart.1 matches Some(outer) && inner < outer && inner + inner <= outer
        &&& inner + buttons[i].rect.0 <= buttons[i].rect.2 || inner + buttons[j].rect.0
            <= buttons[j].rect.2
    }
}

/// Whether button `a` stands nearer to button `k` than button `c` does.
pub open spec fn is_nearer(buttons: Seq<ConsentButtonCandidate>, a: int, c: int, k: int) -> bool {
    gap(buttons[a].rect, buttons[k].rect)->0 < gap(buttons[c].rect, buttons[k].rect)->0
}

/// The choice for any three buttons, those without an area included: of the two
/// that are closest, the one that is nearer to the third grants the request, unless
/// it or the third has the focus.
pub proof fn lemma_choice_among_any_three(
    buttons: Seq<ConsentButtonCandidate>,
    i: int,
    j: int,
    k: int,
)
    requires
        are_closest(buttons, i, j, k),
        !two_have_focus(buttons),
    ensures
        is_nearer(buttons, i, j, k) && !buttons[i].has_keyboard_focus
            && !buttons[k].has_keyboard_focus ==> chosen_allow(buttons) == Ok::<usize, RefusalView>(
            buttons[i].element_ptr,
        ),
        is_nearer(buttons, j, i, k) && !buttons[j].has_keyboard_focus
            && !buttons[k].has_keyboard_focus ==> chosen_allow(buttons) == Ok::<usize, RefusalView>(
            buttons[j].element_ptr,
        ),
        !is_nearer(buttons, i, j, k) && !is_nearer(buttons, j, i, k) ==> is_refused(
            chosen_allow(buttons),
            "the native Chromium consent prompt had no unique standard button adjacent to the extra action"@,
        ),
        is_nearer(buttons, i, j, k) && (buttons[i].has_keyboard_focus
            || buttons[k].has_keyboard_focus) ==> is_refused(
            chosen_allow(buttons),
            "the native Chromium consent prompt focus contradicted the structural cancel button"@,
        ),
        is_nearer(buttons, j, i, k) && (buttons[j].has_keyboard_focus
            || buttons[k].has_keyboard_focus) ==> is_refused(
            chosen_allow(buttons),
            "the native Chromium consent prompt focus contradicted the structural cancel button"@,
        ),
{
    lemma_three(buttons);
    assert(two_have_focus(buttons) == several_focused(buttons));
    assert(buttons::form_row(buttons));
    assert(closest_pair(buttons) == Some((i, j, k)));
}

/// Without three buttons of which two are closest, nothing is chosen, whether or
/// not the buttons have an area.
pub proof fn lemma_refusals_for_any_buttons(buttons: Seq<ConsentButtonCandidate>)
    ensures
        buttons.len() != 3 ==> is_refused(
            chosen_allow(buttons),
            "the native Chromium consent prompt did not expose exactly three distinct dialog buttons"@,
        ),
        buttons.len() == 3 && two_have_focus(buttons) ==> is_refused(
            chosen_allow(buttons),
            "the native Chromium consent prompt exposed multiple focused dialog buttons"@,
        ),
        buttons.len() == 3 && !two_have_focus(buttons) && some_are_not_side_by_side(buttons)
            ==> is_refused(
            chosen_allow(buttons),
            "the native Chromium consent buttons did not form one exact non-overlapping dialog row"@,
        ),
        buttons.len() == 3 && !two_have_focus(buttons) && !some_are_not_side_by_side(buttons) && !(
        exists|i: int, j: int, k: int| #[trigger] are_closest(buttons, i, j, k)) ==> is_refused(
            chosen_allow(buttons),
            "the native Chromium consent prompt had no uniquely separated standard button pair"@,
        ),
{
    if buttons.len() == 3 {
        lemma_three(buttons);
        assert(two_have_focus(buttons) == several_focused(buttons));
        if some_are_not_side_by_side(buttons) {
            let (i, j) = choose|i: int, j: int|
                0 <= i < j < buttons.len() && {
                    let (a, b) = ((#[trigger] buttons[i]).rect, (#[trigger] buttons[j]).rect);
                    a.1 != b.1 || a.3 != b.3 || (b.0 < a.2 && a.0 < b.2)
                };
            assert(gap(buttons[i].rect, buttons[j].rect) is None);
            assert((i == 0 && j == 1) || (i == 0 && j == 2) || (i == 1 && j == 2));
        } else {
            let (x, y, z) = (buttons[0].rect, buttons[1].rect, buttons[2].rect);
            assert(buttons::form_row(buttons));
            if closest_pair(buttons) is Some && buttons::is_standard_pair(
                buttons,
                closest_pair(buttons)->0,
            ) {
                let (i, j, k) = closest_pair(buttons)->0;
                assert(are_closest(buttons, i, j, k));
            }
        }
    }
}

} // verus!
