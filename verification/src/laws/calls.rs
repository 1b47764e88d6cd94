//! What the functions of the library give back, told by what they are given.

use vstd::prelude::*;

use crate::actions::{distinct_actions, native_button_properties, DistinctActions};
use crate::buttons::{edge_gap, select_language_independent_allow, ConsentButtonCandidate};
use crate::console::{creation_flags, OwnedConsoleChildRole};
use crate::laws::buttons::{
    all_have_area, has_parts, lemma_choice_is_by_layout, lemma_refusals_name_the_first_reason,
};
use crate::laws::prompts::{
    bears, ends_before, is_pane_prompt, is_window_prompt, lemma_matching_pane_is,
    lemma_prompts_are, lemma_subtree_ends, lemma_title_binding_is, stands_below,
};
use crate::laws::text::{
    are_cases_of_one_letter, is_core, is_decimal_of, lemma_decimal_denotes_its_number,
    lemma_only_the_case_of_letters_is_ignored, lemma_trimming_leaves_the_core,
};
use crate::laws::tree::{lemma_every_live_element_is_released, lemma_title_is_the_name};
use crate::laws::trust::{
    chain_is_as_long_as_the_tree, document_is_above, lemma_trusted_is, lemma_web_content_is,
    reads_document,
};
use crate::laws::windows::{
    all_shown, clashes, is_above_all, lemma_topmost_action_is_chosen,
    lemma_undecided_actions_are_refused,
};
use crate::native::{
    native_consent_action_evidence, native_window_is_exact_target_owned, WindowFacts,
};
use crate::node::{self, elements_to_release, node_name, NodeView, Rect, UiaNode};
use crate::owned::{select_unique_target_owned_topmost, NativeConsentActionEvidence};
use crate::refusal::{refusal, BrowserRefusal, BrowserRefusalCode};
use crate::session::{
    prove_window_owner, BrowserConsentOutcome, BrowserConsentRequest, ConsentAction, ConsentEvent,
    ConsentPhase, ConsentSession, ConsentStep,
};
use crate::surface::{
    self, has_matching_pane_ancestor, has_pane_rooted_title_binding, is_in_web_content,
    is_trusted_prompt_node, native_prompt_surface_present, native_prompt_surfaces, subtree_end,
};
use crate::text::{eq_ignore_ascii_case, joined, same_text, to_decimal, trim, white_space};

verus! {

/// Whether a result is the refusal of a wrong target with the sentence `message`.
pub open spec fn refused_with<T>(result: Result<T, BrowserRefusal>, message: Seq<char>) -> bool {
    result matches Err(refused) && refused.code == BrowserRefusalCode::BrowserWrongTargetRefused
        && refused.message@ == message
}

/// `trim` takes white space off both ends and nothing else.
pub proof fn lemma_trim_gives(s: &str, t: &str)
    requires
        call_ensures(trim, (s,), t),
    ensures
        is_core(s@, t@),
{
    lemma_trimming_leaves_the_core(s@);
}

/// `same_text` and `eq_ignore_ascii_case` compare character by character.
pub proof fn lemma_comparisons_give(a: &str, b: &str, same: bool, alike: bool)
    requires
        call_ensures(same_text, (a, b), same),
        call_ensures(eq_ignore_ascii_case, (a, b), alike),
    ensures
        same <==> a@.len() == b@.len() && forall|i: int|
            0 <= i < a@.len() ==> #[trigger] a@[i] == b@[i],
        alike <==> a@.len() == b@.len() && forall|i: int|
            0 <= i < a@.len() ==> (#[trigger] a@[i]) == b@[i] || are_cases_of_one_letter(
                a@[i],
                b@[i],
            ),
{
    lemma_only_the_case_of_letters_is_ignored(a@, b@);
    if a@.len() == b@.len() && forall|i: int| 0 <= i < a@.len() ==> #[trigger] a@[i] == b@[i] {
        assert(a@ =~= b@);
    }
}

/// `to_decimal` writes a number, and `joined` puts one text behind another.
pub proof fn lemma_texts_are_built(n: u64, digits: String, a: &str, b: &str, both: String)
    requires
        call_ensures(to_decimal, (n,), digits),
        call_ensures(joined, (a, b), both),
    ensures
        is_decimal_of(digits@, n as int),
        both@.len() == a@.len() + b@.len(),
        forall|i: int| 0 <= i < a@.len() ==> #[trigger] both@[i] == a@[i],
        forall|i: int| 0 <= i < b@.len() ==> both@[a@.len() + i] == #[trigger] b@[i],
{
    lemma_decimal_denotes_its_number(n as nat);
}

/// `node_name` gives the name of a node without white space around it, unless
/// nothing is left.
pub proof fn lemma_node_name_gives(node: &UiaNode, name: Option<&str>)
    requires
        call_ensures(node_name, (node,), name),
    ensures
        name is None <==> (node.name matches Some(given) ==> forall|i: int|
            0 <= i < given@.len() ==> white_space(#[trigger] given@[i])),
        name matches Some(title) ==> (node.name matches Some(given) && is_core(given@, title@)
            && title@.len() > 0),
{
    lemma_title_is_the_name(node@);
}

/// `elements_to_release` gives every element of a tree that is not null, in order.
pub proof fn lemma_elements_to_release_gives(nodes: &[UiaNode], elements: Vec<usize>)
    requires
        call_ensures(elements_to_release, (nodes,), elements),
    ensures
        elements@ == nodes@.map_values(|node: UiaNode| node.element_ptr).filter(
            |element: usize| element != 0,
        ),
{
    let rows = node::rows(nodes@);
    lemma_every_live_element_is_released(rows);
    assert(rows.map_values(|row: NodeView| row.element_ptr) =~= nodes@.map_values(
        |node: UiaNode| node.element_ptr,
    ));
}

/// `is_in_web_content` and `is_trusted_prompt_node` go by control types, marks and
/// parents alone.
pub proof fn lemma_trust_checks_give(nodes: &[UiaNode], node: &UiaNode, inside: bool, trusted: bool)
    requires
        call_ensures(is_in_web_content, (nodes, node), inside),
        call_ensures(is_trusted_prompt_node, (nodes, node), trusted),
    ensures
        inside <==> document_is_above(node::rows(nodes@), node@) || chain_is_as_long_as_the_tree(
            node::rows(nodes@),
            node@,
        ),
        trusted <==> !node.in_web_content && !reads_document(node.control_type@) && !inside,
{
    lemma_web_content_is(node::rows(nodes@), node@);
    lemma_trusted_is(node::rows(nodes@), node@);
}

/// `subtree_end` can be asked of every row, and gives where a row first comes up to
/// its depth again.
pub proof fn lemma_subtree_end_gives(nodes: &[UiaNode], root: usize, end: usize)
    requires
        root < nodes@.len(),
    ensures
        call_requires(subtree_end, (nodes, root)),
        call_ensures(subtree_end, (nodes, root), end) ==> ends_before(
            node::rows(nodes@),
            root as int,
            end as int,
        ),
{
    if call_ensures(subtree_end, (nodes, root), end) {
        lemma_subtree_ends(node::rows(nodes@), root as int, end as int);
    }
}

/// `has_matching_pane_ancestor` and `has_pane_rooted_title_binding` can be asked of
/// every row, and look for trusted rows with the title.
pub proof fn lemma_title_checks_give(
    nodes: &[UiaNode],
    row: usize,
    name: &str,
    matching: bool,
    bound: bool,
)
    requires
        row < nodes@.len(),
    ensures
        call_requires(has_matching_pane_ancestor, (nodes, row, name)),
        call_requires(has_pane_rooted_title_binding, (nodes, row, name)),
        call_ensures(has_matching_pane_ancestor, (nodes, row, name), matching) ==> (matching
            <==> exists|pane: int| #[trigger]
            stands_below(node::rows(nodes@), pane, row as int) && bears(
                node::rows(nodes@),
                pane,
                "Pane"@,
                name@,
            )),
        call_ensures(has_pane_rooted_title_binding, (nodes, row, name), bound) ==> (bound <==> {
            let rows = node::rows(nodes@);
            &&& exists|near: int| #[trigger]
                stands_below(rows, row as int, near) && bears(rows, near, "Text"@, name@)
                    && rows[near].depth == rows[row as int].depth + 1
            &&& exists|far: int| #[trigger]
                stands_below(rows, row as int, far) && bears(rows, far, "Text"@, name@)
                    && rows[far].depth >= rows[row as int].depth + 2
            &&& forall|j: int| #[trigger]
                stands_below(rows, row as int, j) ==> !(surface::is_trusted(rows, rows[j])
                    && rows[j].control_type == "Window"@)
        }),
{
    lemma_matching_pane_is(node::rows(nodes@), row as int, name@);
    lemma_title_binding_is(node::rows(nodes@), row as int, name@);
}

/// `native_prompt_surfaces` gives every window prompt and every pane prompt of a
/// tree, each once and in order, with where it ends.
pub proof fn lemma_native_prompt_surfaces_gives(
    nodes: &[UiaNode],
    surfaces: Vec<(usize, usize)>,
    present: bool,
)
    requires
        call_ensures(native_prompt_surfaces, (nodes,), surfaces),
        call_ensures(native_prompt_surface_present, (nodes,), present),
    ensures
        forall|start: usize, end: usize| #[trigger]
            surfaces@.contains((start, end)) <==> {
                let rows = node::rows(nodes@);
                &&& start < rows.len()
                &&& ends_before(rows, start as int, end as int)
                &&& is_window_prompt(rows, start as int) || is_pane_prompt(rows, start as int)
            },
        forall|k: int, l: int|
            0 <= k < l < surfaces@.len() ==> (#[trigger] surfaces@[k]).0 < (
            #[trigger] surfaces@[l]).0,
        present <==> surfaces@.len() > 0,
{
    let rows = node::rows(nodes@);
    let all = surface::prompts(rows);
    let spans = surface::spans(surfaces@);
    lemma_prompts_are(rows);
    assert(spans.len() == surfaces@.len());
    assert forall|k: int| 0 <= k < surfaces@.len() implies spans[k].0 == (
    #[trigger] surfaces@[k]).0 && spans[k].1 == surfaces@[k].1 by {}
    assert forall|start: usize, end: usize| #[trigger] surfaces@.contains((start, end))
        == all.contains((start as int, end as int)) by {
        if surfaces@.contains((start, end)) {
            let k = choose|k: int| 0 <= k < surfaces@.len() && surfaces@[k] == (start, end);
            assert(spans[k] == (start as int, end as int));
        }
        if all.contains((start as int, end as int)) {
            let k = choose|k: int| 0 <= k < all.len() && all[k] == (start as int, end as int);
            assert(surfaces@[k] == (start, end));
        }
    }
    assert forall|k: int, l: int| 0 <= k < l < surfaces@.len() implies (#[trigger] surfaces@[k]).0
        < (#[trigger] surfaces@[l]).0 by {
        assert(all[k].0 < all[l].0);
    }
}

/// `edge_gap` gives the space between two rectangles that stand side by side.
pub proof fn lemma_edge_gap_gives(a: Rect, b: Rect, space: Option<i64>)
    requires
        call_ensures(edge_gap, (a, b), space),
    ensures
        space is Some <==> a.1 == b.1 && a.3 == b.3 && (a.2 <= b.0 || b.2 <= a.0),
        space matches Some(width) ==> width >= 0 && if a.2 <= b.0 {
            a.2 + width == b.0
        } else {
            b.2 + width == a.0
        },
{
}

/// `select_language_independent_allow` gives the middle one of three buttons that are
/// laid out as a prompt has them, and refuses any others.
pub proof fn lemma_select_language_independent_allow_gives(
    buttons: &[ConsentButtonCandidate],
    chosen: Result<usize, BrowserRefusal>,
)
    requires
        call_ensures(select_language_independent_allow, (buttons,), chosen),
        all_have_area(buttons@),
    ensures
        forall|allow: int, cancel: int, extra: int| #[trigger]
            has_parts(buttons@, allow, cancel, extra) ==> if buttons@[allow].has_keyboard_focus
                || buttons@[extra].has_keyboard_focus {
                chosen is Err
            } else {
                chosen == Ok::<usize, BrowserRefusal>(buttons@[allow].element_ptr)
            },
        chosen is Ok ==> exists|allow: int, cancel: int, extra: int| #[trigger]
            has_parts(buttons@, allow, cancel, extra) && !buttons@[allow].has_keyboard_focus
                && !buttons@[extra].has_keyboard_focus,
        chosen matches Err(refused) ==> refused.code
            == BrowserRefusalCode::BrowserWrongTargetRefused,
{
    assert forall|allow: int, cancel: int, extra: int| #[trigger]
        has_parts(buttons@, allow, cancel, extra) implies if buttons@[allow].has_keyboard_focus
        || buttons@[extra].has_keyboard_focus {
        chosen is Err
    } else {
        chosen == Ok::<usize, BrowserRefusal>(buttons@[allow].element_ptr)
    } by {
        crate::laws::buttons::lemma_laid_out_buttons_give_allow(buttons@, allow, cancel, extra);
    }
    if chosen is Ok {
        lemma_choice_is_by_layout(buttons@, chosen->Ok_0);
    }
    lemma_refusals_name_the_first_reason(buttons@);
}

/// `native_button_properties` passes a reading on, and refuses one that failed.
pub proof fn lemma_native_button_properties_gives(
    reading: Result<(String, bool), String>,
    reply: Result<(String, bool), BrowserRefusal>,
)
    requires
        call_ensures(native_button_properties, (reading,), reply),
    ensures
        reading matches Ok((class_name, focused)) ==> reply == Ok::<
            (String, bool),
            BrowserRefusal,
        >((class_name, focused)),
        reading matches Err(why) ==> refused_with(
            reply,
            "could not prove a native Chromium consent button: "@ + why@,
        ),
{
}

/// `distinct_actions` counts different actions.
pub proof fn lemma_distinct_actions_gives(actions: &[usize], distinct: DistinctActions)
    requires
        call_ensures(distinct_actions, (actions,), distinct),
    ensures
        distinct is Nothing <==> actions@.len() == 0,
        distinct matches DistinctActions::One(element) ==> forall|i: int|
            0 <= i < actions@.len() ==> #[trigger] actions@[i] == element,
        distinct is Several <==> exists|i: int, j: int|
            0 <= i < actions@.len() && 0 <= j < actions@.len() && #[trigger] actions@[i]
                != #[trigger] actions@[j],
{
    crate::laws::actions::lemma_sole_action_is(actions@, arbitrary());
}

/// `native_window_is_exact_target_owned` goes by what the system says, and by the
/// handle only as far as there is one.
pub proof fn lemma_native_window_is_exact_target_owned_gives(
    handle: u64,
    pid: u32,
    facts: &WindowFacts,
    owned: bool,
)
    requires
        call_ensures(native_window_is_exact_target_owned, (handle, pid, facts), owned),
    ensures
        handle == 0 || !facts.is_window || facts.owner_pid is None ==> !owned,
        facts.owner_pid matches Some(owner) ==> handle != 0 && facts.is_window ==> owned == (owner
            == pid && facts.visible && facts.enabled && facts.owner_reaches_target),
{
}

/// `native_consent_action_evidence` shows of a live window what the system says, and
/// of any other nothing.
pub proof fn lemma_native_consent_action_evidence_gives(
    element: usize,
    handle: u64,
    pid: u32,
    facts: &WindowFacts,
    rank: Option<usize>,
    shown: NativeConsentActionEvidence,
)
    requires
        call_ensures(native_consent_action_evidence, (element, handle, pid, facts, rank), shown),
    ensures
        shown.allow_element_ptr == element,
        shown.prompt_hwnd == handle,
        shown.z_order_rank == rank,
        shown.live <==> handle != 0 && facts.is_window,
        shown.live ==> (shown.same_pid <==> facts.owner_pid is Some && facts.owner_pid->0 == pid),
        shown.live ==> shown.visible == facts.visible && shown.enabled == facts.enabled
            && shown.owner_reaches_target == facts.owner_reaches_target,
        !shown.live ==> !shown.same_pid && !shown.visible && !shown.enabled
            && !shown.owner_reaches_target,
{
}

/// `select_unique_target_owned_topmost` gives the action above all others, where
/// everything is shown of several and none clash, and refuses otherwise.
pub proof fn lemma_select_unique_target_owned_topmost_gives(
    actions: &[NativeConsentActionEvidence],
    chosen: Result<usize, BrowserRefusal>,
)
    requires
        call_ensures(select_unique_target_owned_topmost, (actions,), chosen),
    ensures
        chosen is Ok ==> all_shown(actions@) && forall|h: int|
            0 <= h < actions@.len() ==> !#[trigger] clashes(actions@, h),
        forall|i: int|
            all_shown(actions@) && (forall|h: int|
                0 <= h < actions@.len() ==> !#[trigger] clashes(actions@, h)) && #[trigger]
                is_above_all(actions@, i) ==> chosen == Ok::<usize, BrowserRefusal>(
                actions@[i].allow_element_ptr,
            ),
        chosen matches Ok(element) ==> exists|i: int| #[trigger]
            is_above_all(actions@, i) && actions@[i].allow_element_ptr == element,
        chosen matches Err(refused) ==> refused.code
            == BrowserRefusalCode::BrowserWrongTargetRefused,
{
    let all = actions@;
    lemma_undecided_actions_are_refused(all);
    assert forall|i: int|
        all_shown(all) && (forall|h: int| 0 <= h < all.len() ==> !#[trigger] clashes(all, h))
            && #[trigger] is_above_all(all, i) implies chosen == Ok::<usize, BrowserRefusal>(
        all[i].allow_element_ptr,
    ) by {
        lemma_topmost_action_is_chosen(all, i);
    }
    if chosen is Ok {
        crate::laws::windows::lemma_chosen_action_is_topmost(all);
    }
}

/// `begin` takes every request whose process has a Windows process id, and asks for
/// the owner of its window.
pub proof fn lemma_begin_gives(
    request: BrowserConsentRequest,
    begun: Result<(ConsentSession, ConsentAction), BrowserRefusal>,
)
    requires
        call_ensures(ConsentSession::begin, (request,), begun),
    ensures
        begun is Ok <==> 0 <= request.pid < 0x1_0000_0000,
        begun matches Ok((session, action)) ==> {
            &&& session.pid == request.pid
            &&& session.window_id == request.window_id
            &&& session.attempt == request.attempt
            &&& !session.saw_prompt
            &&& session.phase == ConsentPhase::Approaching
            &&& session.held@.len() == 0
            &&& action@ == crate::session::ActionView::ProveOwner(request.window_id)
        },
        begun is Err ==> refused_with(
            begun,
            "the approved browser pid is outside the Windows process-id range"@,
        ),
{
}

/// `awaits` knows the one kind of event that the attempt waits for, or the two where
/// it waits for a look, and `prove_window_owner` refuses every other owner.
pub proof fn lemma_checks_of_an_attempt_give(
    session: &ConsentSession,
    event: &ConsentEvent,
    awaited: bool,
    owner: u32,
    pid: u32,
    proved: Result<(), BrowserRefusal>,
)
    requires
        call_ensures(ConsentSession::awaits, (session, event), awaited),
        call_ensures(prove_window_owner, (owner, pid), proved),
    ensures
        awaited <==> match session.phase {
            ConsentPhase::Approaching => *event is Owner,
            ConsentPhase::Starting => *event is ClockStarted,
            ConsentPhase::Proving => *event is Owner,
            ConsentPhase::Inspecting => *event is Inspected || *event is InspectionFailed,
            ConsentPhase::Invoking => *event is Invoked,
            ConsentPhase::Timing => *event is Elapsed,
            ConsentPhase::Waiting => *event is Waited,
            ConsentPhase::Finished => false,
        },
        proved is Ok <==> owner == pid,
        proved matches Err(refused) ==> refused.code == BrowserRefusalCode::BrowserBindingStale
            && refused.message@
            == "the approved browser window changed ownership before consent"@,
{
}

/// Whether a step ends the attempt with a refusal of this kind and with this
/// sentence.
pub open spec fn refuses_with(
    action: ConsentAction,
    code: BrowserRefusalCode,
    message: Seq<char>,
) -> bool {
    action matches ConsentAction::Finish(Err(refused)) && refused.code == code
        && refused.message@ == message
}

/// `step` can take whatever the attempt waits for, and nothing else about the attempt
/// matters to that.
pub proof fn lemma_step_takes_what_is_awaited(session: &mut ConsentSession, event: ConsentEvent)
    requires
        match old(session).phase {
            ConsentPhase::Approaching => event is Owner,
            ConsentPhase::Starting => event is ClockStarted,
            ConsentPhase::Proving => event is Owner,
            ConsentPhase::Inspecting => event is Inspected || event is InspectionFailed,
            ConsentPhase::Invoking => event is Invoked,
            ConsentPhase::Timing => event is Elapsed,
            ConsentPhase::Waiting => event is Waited,
            ConsentPhase::Finished => false,
        },
    ensures
        call_requires(ConsentSession::step, (session, event)),
{
}

/// `step` keeps the request, ends the attempt exactly where it says so, and remembers
/// a prompt once it was seen.
pub proof fn lemma_step_keeps_the_request(
    session: &mut ConsentSession,
    event: ConsentEvent,
    step: ConsentStep,
)
    requires
        call_ensures(ConsentSession::step, (session, event), step),
    ensures
        final(session).window_id == old(session).window_id,
        final(session).pid == old(session).pid,
        final(session).attempt == old(session).attempt,
        final(session).saw_prompt <==> old(session).saw_prompt || (
        event matches ConsentEvent::Inspected { prompt_present, .. } && prompt_present),
        final(session).phase == ConsentPhase::Finished <==> step.action is Finish,
{
}

/// `step` answers the owner, the clock and the wait: another owner ends the attempt,
/// and so does every reading of the clock from four seconds on.
pub proof fn lemma_step_answers_owner_and_clock(
    session: &mut ConsentSession,
    event: ConsentEvent,
    step: ConsentStep,
)
    requires
        call_ensures(ConsentSession::step, (session, event), step),
        event is Owner || event is ClockStarted || event is Waited || event is Elapsed,
    ensures
        step.release@.len() == 0,
        final(session).held@ == old(session).held@,
        event matches ConsentEvent::Owner(owner) ==> if owner != old(session).pid {
            refuses_with(
                step.action,
                BrowserRefusalCode::BrowserBindingStale,
                "the approved browser window changed ownership before consent"@,
            )
        } else if old(session).phase == ConsentPhase::Approaching {
            step.action == ConsentAction::StartClock && final(session).phase
                == ConsentPhase::Starting
        } else {
            step.action == ConsentAction::Inspect(old(session).window_id) && final(session).phase
                == ConsentPhase::Inspecting
        },
        event is ClockStarted || event is Waited ==> step.action == ConsentAction::ProveOwner(
            old(session).window_id,
        ) && final(session).phase == ConsentPhase::Proving,
        event matches ConsentEvent::Elapsed(millis) ==> if millis < 4000 {
            step.action == ConsentAction::Wait(100) && final(session).phase
                == ConsentPhase::Waiting
        } else {
            exists|digits: Seq<char>|
                is_decimal_of(digits, old(session).attempt as int) && #[trigger] refuses_with(
                    step.action,
                    BrowserRefusalCode::BrowserWrongTargetRefused,
                    "no exact Chromium remote-debugging consent prompt appeared for reconnect attempt "@
                        + digits,
                )
        },
{
    let digits = crate::text::decimal(old(session).attempt as nat);
    lemma_decimal_denotes_its_number(old(session).attempt as nat);
    crate::laws::attempt::lemma_actions_are_told_by_their_parts(step.action);
    if event is Elapsed && event->Elapsed_0 >= 4000 {
        assert(refuses_with(
            step.action,
            BrowserRefusalCode::BrowserWrongTargetRefused,
            "no exact Chromium remote-debugging consent prompt appeared for reconnect attempt "@
                + digits,
        ));
    }
}

/// `step` answers a look and a press: a button is pressed with its trees held, and
/// they are released once it was pressed, however that ended. Without a button all
/// trees of the look are released at once.
pub proof fn lemma_step_answers_look_and_press(
    session: &mut ConsentSession,
    event: ConsentEvent,
    step: ConsentStep,
)
    requires
        call_ensures(ConsentSession::step, (session, event), step),
        event is Inspected || event is InspectionFailed || event is Invoked,
    ensures
        event matches ConsentEvent::Inspected { prompt_present, trees } ==> match trees.button {
            Ok(Some(element)) => {
                &&& step.action == ConsentAction::Invoke(element)
                &&& step.release@ == trees.released@
                &&& final(session).phase == ConsentPhase::Invoking
                &&& final(session).held@ == old(session).held@ + trees.held@
            },
            Ok(None) => {
                &&& step.release@ == trees.released@ + trees.held@
                &&& final(session).held@ == old(session).held@
                &&& if old(session).saw_prompt && !prompt_present {
                    refuses_with(
                        step.action,
                        BrowserRefusalCode::BrowserConsentRevoked,
                        "the person dismissed the browser consent prompt"@,
                    )
                } else {
                    step.action == ConsentAction::ReadClock && final(session).phase
                        == ConsentPhase::Timing
                }
            },
            Err(why) => {
                &&& step.release@ == trees.released@ + trees.held@
                &&& final(session).held@ == old(session).held@
                &&& refuses_with(step.action, why.code, why.message@)
            },
        },
        event matches ConsentEvent::InspectionFailed(why) ==> step.release@.len() == 0
            && refuses_with(
            step.action,
            BrowserRefusalCode::BrowserRouteUnavailable,
            "could not inspect the browser consent UI: "@ + why@,
        ),
        event matches ConsentEvent::Invoked(result) ==> {
            &&& step.release@ == old(session).held@
            &&& final(session).held@.len() == 0
            &&& match result {
                Ok(_) => step.action == ConsentAction::Finish(Ok(BrowserConsentOutcome::Accepted)),
                Err(why) => refuses_with(
                    step.action,
                    BrowserRefusalCode::BrowserWrongTargetRefused,
                    "the exact browser consent action failed: "@ + why@,
                ),
            }
        },
{
    crate::laws::attempt::lemma_actions_are_told_by_their_parts(step.action);
}

/// `refusal` and `new` put a refusal together, and whatever a console program is
/// started for, it opens no window.
pub proof fn lemma_small_parts_give(
    code: BrowserRefusalCode,
    message: &str,
    text: String,
    first: BrowserRefusal,
    second: BrowserRefusal,
    role: OwnedConsoleChildRole,
    flags: u32,
)
    requires
        call_ensures(refusal, (code, message), first),
        call_ensures(BrowserRefusal::new, (code, text), second),
        call_ensures(creation_flags, (role,), flags),
    ensures
        first.code == code,
        first.message@ == message@,
        second.code == code,
        second.message@ == text@,
        flags == 0x0800_0000,
{
}

/// What needs no more than a tree, texts, buttons, windows or a request takes any.
pub proof fn lemma_whatever_is_given_is_taken(
    nodes: &[UiaNode],
    node: &UiaNode,
    a: &str,
    b: &str,
    rects: (Rect, Rect),
    buttons: &[ConsentButtonCandidate],
    actions: &[NativeConsentActionEvidence],
    facts: &WindowFacts,
    request: BrowserConsentRequest,
)
    ensures
        call_requires(trim, (a,)),
        call_requires(same_text, (a, b)),
        call_requires(eq_ignore_ascii_case, (a, b)),
        call_requires(node_name, (node,)),
        call_requires(elements_to_release, (nodes,)),
        call_requires(is_in_web_content, (nodes, node)),
        call_requires(is_trusted_prompt_node, (nodes, node)),
        call_requires(native_prompt_surfaces, (nodes,)),
        call_requires(native_prompt_surface_present, (nodes,)),
        call_requires(edge_gap, (rects.0, rects.1)),
        call_requires(select_language_independent_allow, (buttons,)),
        call_requires(select_unique_target_owned_topmost, (actions,)),
        forall|handle: u64, pid: u32| #[trigger]
            call_requires(native_window_is_exact_target_owned, (handle, pid, facts)),
        call_requires(ConsentSession::begin, (request,)),
{
}

} // verus!
