//! An attempt: what is done after each event, and when it ends.

use vstd::prelude::*;

use crate::laws::text::is_decimal_of;
use crate::node::UiaNode;
use crate::refusal::{self, BrowserRefusal, BrowserRefusalCode, RefusalView};
use crate::session::{
    expects, ActionView, BrowserConsentOutcome, BrowserConsentRequest, ConsentAction, ConsentEvent,
    ConsentPhase, ConsentSession, EventView, SessionView,
};
use crate::text::decimal;

verus! {

/// Whether an attempt ends with a refusal of this kind and with this sentence.
pub open spec fn ends_refused(
    session: SessionView,
    event: EventView,
    code: BrowserRefusalCode,
    message: Seq<char>,
) -> bool {
    &&& session.after(event).phase == ConsentPhase::Finished
    &&& session.response(event) matches ActionView::Finish(Err(refused)) && refused.code == code
        && refused.message == message
}

/// An attempt starts with the request: its window, its process, its number, no
/// prompt seen and no tree held, and waits for the owner of the window.
pub proof fn lemma_attempt_starts_with_the_request(request: BrowserConsentRequest)
    requires
        0 <= request.pid <= u32::MAX,
    ensures
        SessionView::fresh(request).pid == request.pid,
        SessionView::fresh(request).window_id == request.window_id,
        SessionView::fresh(request).attempt == request.attempt,
        !SessionView::fresh(request).saw_prompt,
        SessionView::fresh(request).held.len() == 0,
        SessionView::fresh(request).phase == ConsentPhase::Approaching,
{
}

/// Whatever happens, an attempt stays that of its request.
pub proof fn lemma_attempt_stays_that_of_its_request(session: SessionView, event: EventView)
    ensures
        session.after(event).window_id == session.window_id,
        session.after(event).pid == session.pid,
        session.after(event).attempt == session.attempt,
{
}

/// An attempt waits for one kind of event at a time: for the owner twice, before
/// the clock starts and before each look, and for the other kinds once in a round.
pub proof fn lemma_awaited_events(phase: ConsentPhase, event: EventView)
    ensures
        event is Owner ==> (expects(phase, event) <==> phase == ConsentPhase::Approaching || phase
            == ConsentPhase::Proving),
        event is ClockStarted ==> (expects(phase, event) <==> phase == ConsentPhase::Starting),
        event is Inspected ==> (expects(phase, event) <==> phase == ConsentPhase::Inspecting),
        event is InspectionFailed ==> (expects(phase, event) <==> phase
            == ConsentPhase::Inspecting),
        event is Invoked ==> (expects(phase, event) <==> phase == ConsentPhase::Invoking),
        event is Elapsed ==> (expects(phase, event) <==> phase == ConsentPhase::Timing),
        event is Waited ==> (expects(phase, event) <==> phase == ConsentPhase::Waiting),
{
}

/// An owner other than the approved process ends the attempt, whenever the owner is
/// asked for, and the approved process never does: before the clock starts it
/// starts the clock, and later it leads to a look at the window.
pub proof fn lemma_only_the_approved_owner_goes_on(session: SessionView, owner: u32)
    requires
        expects(session.phase, EventView::Owner(owner)),
    ensures
        owner != session.pid ==> ends_refused(
            session,
            EventView::Owner(owner),
            BrowserRefusalCode::BrowserBindingStale,
            "the approved browser window changed ownership before consent"@,
        ),
        owner == session.pid && session.phase == ConsentPhase::Approaching ==> {
            &&& session.response(EventView::Owner(owner)) == ActionView::StartClock
            &&& session.after(EventView::Owner(owner)).phase == ConsentPhase::Starting
        },
        owner == session.pid && session.phase == ConsentPhase::Proving ==> {
            &&& session.response(EventView::Owner(owner)) == ActionView::Inspect(session.window_id)
            &&& session.after(EventView::Owner(owner)).phase == ConsentPhase::Inspecting
        },
{
}

/// Once the clock runs, and after each wait, the owner of the window is asked for.
pub proof fn lemma_owner_is_asked_for_before_each_look(session: SessionView)
    ensures
        session.response(EventView::ClockStarted) == ActionView::ProveOwner(session.window_id),
        session.after(EventView::ClockStarted).phase == ConsentPhase::Proving,
        session.response(EventView::Waited) == ActionView::ProveOwner(session.window_id),
        session.after(EventView::Waited).phase == ConsentPhase::Proving,
{
}

/// The time decides alone: an attempt goes on to wait a tenth of a second as long as
/// less than four seconds are over, and ends from then on, however late the clock
/// is read. The refusal names the number of the attempt.
pub proof fn lemma_time_runs_out_after_four_seconds(session: SessionView, millis: u64)
    ensures
        millis < 4000 ==> {
            &&& session.response(EventView::Elapsed(millis)) == ActionView::Wait(100)
            &&& session.after(EventView::Elapsed(millis)).phase == ConsentPhase::Waiting
        },
        millis >= 4000 ==> exists|digits: Seq<char>|
            is_decimal_of(digits, session.attempt as int) && #[trigger] ends_refused(
                session,
                EventView::Elapsed(millis),
                BrowserRefusalCode::BrowserWrongTargetRefused,
                "no exact Chromium remote-debugging consent prompt appeared for reconnect attempt "@
                    + digits,
            ),
{
    let digits = decimal(session.attempt as nat);
    crate::laws::text::lemma_decimal_denotes_its_number(session.attempt as nat);
    if millis >= 4000 {
        assert(ends_refused(
            session,
            EventView::Elapsed(millis),
            BrowserRefusalCode::BrowserWrongTargetRefused,
            "no exact Chromium remote-debugging consent prompt appeared for reconnect attempt "@
                + digits,
        ));
    }
}

/// Where a reading of the clock ends an attempt, so does every later reading, and it
/// ends the same way.
pub proof fn lemma_late_readings_end_alike(session: SessionView, early: u64, late: u64)
    requires
        early <= late,
        session.response(EventView::Elapsed(early)) is Finish,
    ensures
        session.response(EventView::Elapsed(late)) == session.response(EventView::Elapsed(early)),
        session.after(EventView::Elapsed(late)) == session.after(EventView::Elapsed(early)),
{
}

/// A look that finds a button leads to this button being pressed. One that is
/// refused ends the attempt with that refusal. One that finds nothing leads to the
/// clock, unless a prompt was seen before and is gone.
pub proof fn lemma_look_is_followed_by(
    session: SessionView,
    prompt_present: bool,
    button: Result<Option<usize>, RefusalView>,
    held: Seq<Vec<UiaNode>>,
    released: Seq<Vec<UiaNode>>,
)
    ensures
        ({
            let event = EventView::Inspected { prompt_present, button, held, released };
            let after = session.after(event);
            &&& after.saw_prompt <==> session.saw_prompt || prompt_present
            &&& button matches Ok(Some(element)) ==> {
                &&& session.response(event) == ActionView::Invoke(element)
                &&& after.phase == ConsentPhase::Invoking
                &&& session.releases(event) == released
                &&& after.held == session.held + held
            }
            &&& button matches Err(refused) ==> {
                &&& session.response(event) == ActionView::Finish(Err(refused))
                &&& after.phase == ConsentPhase::Finished
            }
            &&& button == Ok::<Option<usize>, RefusalView>(None) ==> if prompt_present
                || !session.saw_prompt {
                &&& session.response(event) == ActionView::ReadClock
                &&& after.phase == ConsentPhase::Timing
            } else {
                ends_refused(
                    session,
                    event,
                    BrowserRefusalCode::BrowserConsentRevoked,
                    "the person dismissed the browser consent prompt"@,
                )
            }
            &&& !(button matches Ok(Some(_))) ==> {
                &&& session.releases(event) == released + held
                &&& after.held == session.held
            }
        }),
{
}

/// A tree that cannot be walked ends the attempt, and the refusal says why.
pub proof fn lemma_failed_look_ends_the_attempt(session: SessionView, why: Seq<char>)
    ensures
        ends_refused(
            session,
            EventView::InspectionFailed(why),
            BrowserRefusalCode::BrowserRouteUnavailable,
            "could not inspect the browser consent UI: "@ + why,
        ),
{
}

/// A button that was pressed grants the request, and one that could not be pressed
/// refuses it and says why. Either way the attempt ends and every tree that was
/// held is released.
pub proof fn lemma_press_ends_the_attempt(session: SessionView, why: Seq<char>)
    ensures
        session.response(EventView::Invoked(Ok(()))) == ActionView::Finish(
            Ok(BrowserConsentOutcome::Accepted),
        ),
        session.after(EventView::Invoked(Ok(()))).phase == ConsentPhase::Finished,
        ends_refused(
            session,
            EventView::Invoked(Err(why)),
            BrowserRefusalCode::BrowserWrongTargetRefused,
            "the exact browser consent action failed: "@ + why,
        ),
        session.releases(EventView::Invoked(Ok(()))) == session.held,
        session.releases(EventView::Invoked(Err(why))) == session.held,
        session.after(EventView::Invoked(Ok(()))).held.len() == 0,
        session.after(EventView::Invoked(Err(why))).held.len() == 0,
{
}

/// Only a look changes whether a prompt was seen, and only looks and presses move
/// trees.
pub proof fn lemma_other_events_leave_the_rest(session: SessionView, event: EventView)
    requires
        !(event is Inspected),
    ensures
        session.after(event).saw_prompt == session.saw_prompt,
        !(event is Invoked) ==> session.after(event).held == session.held,
        !(event is Invoked) ==> session.releases(event).len() == 0,
{
}

/// A round without a prompt leads back to a look, and keeps the attempt as it was:
/// the clock is read in time, the wait is over, and the owner is the approved one.
pub proof fn lemma_polling_goes_on(session: SessionView, millis: u64)
    requires
        session.phase == ConsentPhase::Timing,
        millis < 4000,
    ensures
        ({
            let waiting = session.after(EventView::Elapsed(millis));
            let proving = waiting.after(EventView::Waited);
            let looking = proving.after(EventView::Owner(session.pid));
            &&& expects(session.phase, EventView::Elapsed(millis))
            &&& expects(waiting.phase, EventView::Waited)
            &&& expects(proving.phase, EventView::Owner(session.pid))
            &&& proving.response(EventView::Owner(session.pid)) == ActionView::Inspect(
                session.window_id,
            )
            &&& looking == (SessionView { phase: ConsentPhase::Inspecting, ..session })
        }),
{
}

/// From its start an attempt on a window of the approved process gets to a look.
pub proof fn lemma_attempt_gets_to_a_look(request: BrowserConsentRequest)
    requires
        0 <= request.pid <= u32::MAX,
    ensures
        ({
            let owner = EventView::Owner(request.pid as u32);
            let start = SessionView::fresh(request);
            let looking = start.after(owner).after(EventView::ClockStarted).after(owner);
            &&& expects(start.phase, owner)
            &&& expects(start.after(owner).phase, EventView::ClockStarted)
            &&& expects(start.after(owner).after(EventView::ClockStarted).phase, owner)
            &&& looking == (SessionView { phase: ConsentPhase::Inspecting, ..start })
        }),
{
}

/// An event is told by what it brings, each part unchanged.
pub proof fn lemma_events_are_told_by_their_parts(event: ConsentEvent)
    ensures
        event matches ConsentEvent::Owner(owner) ==> event@ == EventView::Owner(owner),
        event is ClockStarted ==> event@ == EventView::ClockStarted,
        event matches ConsentEvent::Inspected { prompt_present, trees } ==> (
        event@ matches EventView::Inspected { prompt_present: shown, button, held, released }
            && shown == prompt_present && held == trees.held@ && released == trees.released@
            && match trees.button {
            Ok(found) => button == Ok::<Option<usize>, RefusalView>(found),
            Err(refused) => button matches Err(told) && told.code == refused.code && told.message
                == refused.message@,
        }),
        event matches ConsentEvent::InspectionFailed(why) ==> event@
            == EventView::InspectionFailed(why@),
        event matches ConsentEvent::Invoked(Ok(_)) ==> event@ == EventView::Invoked(Ok(())),
        event matches ConsentEvent::Invoked(Err(why)) ==> event@ == EventView::Invoked(Err(why@)),
        event matches ConsentEvent::Elapsed(millis) ==> event@ == EventView::Elapsed(millis),
        event is Waited ==> event@ == EventView::Waited,
{
}

/// An action is told by what it asks for, each part unchanged.
pub proof fn lemma_actions_are_told_by_their_parts(action: ConsentAction)
    ensures
        action@ matches ActionView::ProveOwner(window) ==> action == ConsentAction::ProveOwner(
            window,
        ),
        action@ is StartClock ==> action == ConsentAction::StartClock,
        action@ matches ActionView::Inspect(window) ==> action == ConsentAction::Inspect(window),
        action@ matches ActionView::Invoke(element) ==> action == ConsentAction::Invoke(element),
        action@ is ReadClock ==> action == ConsentAction::ReadClock,
        action@ matches ActionView::Wait(millis) ==> action == ConsentAction::Wait(millis),
        action@ matches ActionView::Finish(Ok(outcome)) ==> action == ConsentAction::Finish(
            Ok(outcome),
        ),
        action@ matches ActionView::Finish(Err(told)) ==> (action matches ConsentAction::Finish(
            Err(refused),
        ) && refused.code == told.code && refused.message@ == told.message),
{
}

/// A session is told by its fields, each of them unchanged.
pub proof fn lemma_sessions_are_told_by_their_fields(session: ConsentSession)
    ensures
        session@.window_id == session.window_id,
        session@.pid == session.pid,
        session@.attempt == session.attempt,
        session@.saw_prompt == session.saw_prompt,
        session@.phase == session.phase,
        session@.held == session.held@,
{
}

/// A refusal is told by its code and its sentence, and the refusal of a wrong target
/// has the code for it.
pub proof fn lemma_refusals_are_told_by_their_parts(
    refused: BrowserRefusal,
    outcome: Result<usize, BrowserRefusal>,
    message: Seq<char>,
)
    ensures
        refused@.code == refused.code,
        refused@.message == refused.message@,
        refusal::wrong_target(message).code == BrowserRefusalCode::BrowserWrongTargetRefused,
        refusal::wrong_target(message).message == message,
        outcome matches Ok(value) ==> refusal::outcome_view(outcome) == Ok::<usize, RefusalView>(
            value,
        ),
        outcome matches Err(why) ==> (refusal::outcome_view(outcome) matches Err(told) && told.code
            == why.code && told.message == why.message@),
{
}

} // verus!
