//! One attempt to grant a consent request: what is done next, by what the
//! system and the screen have shown so far.

use vstd::prelude::*;

use crate::node::UiaNode;
use crate::refusal::{self, refusal, BrowserRefusal, BrowserRefusalCode, RefusalView};
use crate::target::SettledTrees;
use crate::text::{self, joined, to_decimal};

verus! {

/// How long a prompt is waited for, in milliseconds.
pub const CONSENT_TIMEOUT_MILLIS: u64 = 4_000;

/// How long to wait before the screen is looked at again, in milliseconds.
pub const POLL_INTERVAL_MILLIS: u64 = 100;

/// A request to grant remote debugging in an approved browser window.
#[derive(Clone, Copy, Debug)]
pub struct BrowserConsentRequest {
    pub pid: i64,
    pub window_id: u64,
    /// Which attempt to reconnect this is.
    pub attempt: u64,
}

/// How a request ends that is not refused.
#[derive(Clone, Copy, Debug, PartialEq, Eq, Structural)]
pub enum BrowserConsentOutcome {
    Accepted,
}

/// What an attempt waits for.
#[derive(Clone, Copy, Debug, PartialEq, Eq, Structural)]
pub enum ConsentPhase {
    /// The owner of the window, before the clock runs.
    Approaching,
    /// The start of the clock.
    Starting,
    /// The owner of the window, before the screen is looked at.
    Proving,
    /// What the screen shows.
    Inspecting,
    /// What came of pressing the button.
    Invoking,
    /// The time.
    Timing,
    /// The next look at the screen.
    Waiting,
    /// Nothing: the attempt has ended.
    Finished,
}

/// An attempt to grant a request.
#[derive(Debug)]
pub struct ConsentSession {
    pub window_id: u64,
    pub pid: u32,
    pub attempt: u64,
    /// Whether a prompt has been on the screen.
    pub saw_prompt: bool,
    pub phase: ConsentPhase,
    /// The trees that are held until the button has been pressed.
    pub held: Vec<Vec<UiaNode>>,
}

/// The contents of a `ConsentSession`.
pub struct SessionView {
    pub window_id: u64,
    pub pid: u32,
    pub attempt: u64,
    pub saw_prompt: bool,
    pub phase: ConsentPhase,
    pub held: Seq<Vec<UiaNode>>,
}

impl View for ConsentSession {
    type V = SessionView;

    open spec fn view(&self) -> SessionView {
        SessionView {
            window_id: self.window_id,
            pid: self.pid,
            attempt: self.attempt,
            saw_prompt: self.saw_prompt,
            phase: self.phase,
            held: self.held@,
        }
    }
}

/// What has come of the last action.
#[derive(Debug)]
pub enum ConsentEvent {
    /// The process that owns the window.
    Owner(u32),
    ClockStarted,
    /// Whether the tree of the window shows a prompt, the element that grants
    /// the request, and the trees that were walked for it.
    Inspected { prompt_present: bool, trees: SettledTrees },
    /// Why the tree of the window could not be walked.
    InspectionFailed(String),
    /// What came of pressing the button, or why it could not be pressed.
    Invoked(Result<(), String>),
    /// The milliseconds since the clock was started.
    Elapsed(u64),
    Waited,
}

/// What is to be done.
#[derive(Debug)]
pub enum ConsentAction {
    /// Find out which process owns the window.
    ProveOwner(u64),
    StartClock,
    /// Walk the tree of the window and look for the button.
    Inspect(u64),
    /// Press the button that is this element.
    Invoke(usize),
    ReadClock,
    /// Wait for so many milliseconds.
    Wait(u64),
    /// End the attempt.
    Finish(Result<BrowserConsentOutcome, BrowserRefusal>),
}

/// What is to be done after an event: the trees to be released, in order, and
/// the action that follows.
#[derive(Debug)]
pub struct ConsentStep {
    pub release: Vec<Vec<UiaNode>>,
    pub action: ConsentAction,
}

/// The contents of a `ConsentEvent`.
pub enum EventView {
    Owner(u32),
    ClockStarted,
    Inspected {
        prompt_present: bool,
        button: Result<Option<usize>, RefusalView>,
        held: Seq<Vec<UiaNode>>,
        released: Seq<Vec<UiaNode>>,
    },
    InspectionFailed(Seq<char>),
    Invoked(Result<(), Seq<char>>),
    Elapsed(u64),
    Waited,
}

/// The contents of a `ConsentAction`.
pub enum ActionView {
    ProveOwner(u64),
    StartClock,
    Inspect(u64),
    Invoke(usize),
    ReadClock,
    Wait(u64),
    Finish(Result<BrowserConsentOutcome, RefusalView>),
}

impl View for ConsentEvent {
    type V = EventView;

    open spec fn view(&self) -> EventView {
        match *self {
            ConsentEvent::Owner(owner) => EventView::Owner(owner),
            ConsentEvent::ClockStarted => EventView::ClockStarted,
            ConsentEvent::Inspected { prompt_present, trees } => EventView::Inspected {
                prompt_present,
                button: refusal::outcome_view(trees.button),
                held: trees.held@,
                released: trees.released@,
            },
            ConsentEvent::InspectionFailed(detail) => EventView::InspectionFailed(detail@),
            ConsentEvent::Invoked(result) => EventView::Invoked(
                match result {
                    Ok(done) => Ok(done),
                    Err(detail) => Err(detail@),
                },
            ),
            ConsentEvent::Elapsed(millis) => EventView::Elapsed(millis),
            ConsentEvent::Waited => EventView::Waited,
        }
    }
}

impl View for ConsentAction {
    type V = ActionView;

    open spec fn view(&self) -> ActionView {
        match *self {
            ConsentAction::ProveOwner(window) => ActionView::ProveOwner(window),
            ConsentAction::StartClock => ActionView::StartClock,
            ConsentAction::Inspect(window) => ActionView::Inspect(window),
            ConsentAction::Invoke(element) => ActionView::Invoke(element),
            ConsentAction::ReadClock => ActionView::ReadClock,
            ConsentAction::Wait(millis) => ActionView::Wait(millis),
            ConsentAction::Finish(result) => ActionView::Finish(
                match result {
                    Ok(outcome) => Ok(outcome),
                    Err(refused) => Err(refused@),
                },
            ),
        }
    }
}

/// Whether an event is what an attempt waits for in a phase.
pub open spec fn expects(phase: ConsentPhase, event: EventView) -> bool {
    match phase {
        ConsentPhase::Approaching | ConsentPhase::Proving => event is Owner,
        ConsentPhase::Starting => event is ClockStarted,
        ConsentPhase::Inspecting => event is Inspected || event is InspectionFailed,
        ConsentPhase::Invoking => event is Invoked,
        ConsentPhase::Timing => event is Elapsed,
        ConsentPhase::Waiting => event is Waited,
        ConsentPhase::Finished => false,
    }
}

/// The refusal of a window that has another owner than the approved process.
pub open spec fn stale_binding() -> RefusalView {
    RefusalView {
        code: BrowserRefusalCode::BrowserBindingStale,
        message: "the approved browser window changed ownership before consent"@,
    }
}

/// The refusal where the prompt left the screen without being answered here.
pub open spec fn revoked() -> RefusalView {
    RefusalView {
        code: BrowserRefusalCode::BrowserConsentRevoked,
        message: "the person dismissed the browser consent prompt"@,
    }
}

/// The refusal where no prompt came in time.
pub open spec fn timed_out(attempt: u64) -> RefusalView {
    refusal::wrong_target(
        "no exact Chromium remote-debugging consent prompt appeared for reconnect attempt "@
            + text::decimal(attempt as nat),
    )
}

/// The refusal where the tree of the window could not be walked.
pub open spec fn not_inspected(detail: Seq<char>) -> RefusalView {
    RefusalView {
        code: BrowserRefusalCode::BrowserRouteUnavailable,
        message: "could not inspect the browser consent UI: "@ + detail,
    }
}

/// The refusal where the button could not be pressed.
pub open spec fn not_invoked(detail: Seq<char>) -> RefusalView {
    refusal::wrong_target("the exact browser consent action failed: "@ + detail)
}

impl SessionView {
    /// The trees that are held after an event: those that come with a button,
    /// until it has been pressed.
    pub open spec fn held_after(self, event: EventView) -> Seq<Vec<UiaNode>> {
        match event {
            EventView::Inspected { button: Ok(Some(_)), held, .. } => self.held + held,
            EventView::Invoked(_) => Seq::empty(),
            _ => self.held,
        }
    }

    /// The trees that are released after an event, before the next action: what
    /// a look leaves to be released, and what was held once the button has been
    /// pressed, however that ended.
    pub open spec fn releases(self, event: EventView) -> Seq<Vec<UiaNode>> {
        match event {
            EventView::Inspected { button: Ok(Some(_)), released, .. } => released,
            EventView::Inspected { held, released, .. } => released + held,
            EventView::Invoked(_) => self.held,
            _ => Seq::empty(),
        }
    }

    /// The attempt after an event.
    pub open spec fn after(self, event: EventView) -> SessionView {
        let next = match event {
            EventView::Owner(owner) => if owner != self.pid {
                ConsentPhase::Finished
            } else if self.phase == ConsentPhase::Approaching {
                ConsentPhase::Starting
            } else {
                ConsentPhase::Inspecting
            },
            EventView::ClockStarted => ConsentPhase::Proving,
            EventView::Inspected { prompt_present, button, .. } => match button {
                Ok(Some(_)) => ConsentPhase::Invoking,
                Ok(None) => if self.saw_prompt && !prompt_present {
                    ConsentPhase::Finished
                } else {
                    ConsentPhase::Timing
                },
                Err(_) => ConsentPhase::Finished,
            },
            EventView::InspectionFailed(_) => ConsentPhase::Finished,
            EventView::Invoked(_) => ConsentPhase::Finished,
            EventView::Elapsed(millis) => if millis >= CONSENT_TIMEOUT_MILLIS {
                ConsentPhase::Finished
            } else {
                ConsentPhase::Waiting
            },
            EventView::Waited => ConsentPhase::Proving,
        };
        SessionView {
            saw_prompt: self.saw_prompt || (event matches EventView::Inspected {
                prompt_present,
                ..
            } && prompt_present),
            phase: next,
            held: self.held_after(event),
            ..self
        }
    }

    /// What is done after an event.
    pub open spec fn response(self, event: EventView) -> ActionView {
        match event {
            EventView::Owner(owner) => if owner != self.pid {
                ActionView::Finish(Err(stale_binding()))
            } else if self.phase == ConsentPhase::Approaching {
                ActionView::StartClock
            } else {
                ActionView::Inspect(self.window_id)
            },
            EventView::ClockStarted => ActionView::ProveOwner(self.window_id),
            EventView::Inspected { prompt_present, button, .. } => match button {
                Ok(Some(element)) => ActionView::Invoke(element),
                Ok(None) => if self.saw_prompt && !prompt_present {
                    ActionView::Finish(Err(revoked()))
                } else {
                    ActionView::ReadClock
                },
                Err(refused) => ActionView::Finish(Err(refused)),
            },
            EventView::InspectionFailed(detail) => ActionView::Finish(Err(not_inspected(detail))),
            EventView::Invoked(Ok(_)) => ActionView::Finish(Ok(BrowserConsentOutcome::Accepted)),
            EventView::Invoked(Err(detail)) => ActionView::Finish(Err(not_invoked(detail))),
            EventView::Elapsed(millis) => if millis >= CONSENT_TIMEOUT_MILLIS {
                ActionView::Finish(Err(timed_out(self.attempt)))
            } else {
                ActionView::Wait(POLL_INTERVAL_MILLIS)
            },
            EventView::Waited => ActionView::ProveOwner(self.window_id),
        }
    }

    /// The attempt before its first event.
    pub open spec fn fresh(request: BrowserConsentRequest) -> SessionView {
        SessionView {
            window_id: request.window_id,
            pid: request.pid as u32,
            attempt: request.attempt,
            saw_prompt: false,
            phase: ConsentPhase::Approaching,
            held: Seq::empty(),
        }
    }
}

impl ConsentSession {

    /// Begins an attempt. Its first action is to find out which process owns
    /// the window.
    pub fn begin(request: BrowserConsentRequest) -> (begun: Result<
        (ConsentSession, ConsentAction),
        BrowserRefusal,
    >)
        ensures
            begun is Ok <==> 0 <= request.pid <= u32::MAX,
            begun matches Ok((session, action)) ==> {
                &&& session@ == SessionView::fresh(request)
                &&& session.pid == request.pid
                &&& action@ == ActionView::ProveOwner(request.window_id)
            },
            begun matches Err(refused) ==> refused@ == refusal::wrong_target(
                "the approved browser pid is outside the Windows process-id range"@,
            ),
    {
        if request.pid < 0 || request.pid > u32::MAX as i64 {
            return Err(
                refusal(
                    BrowserRefusalCode::BrowserWrongTargetRefused,
                    "the approved browser pid is outside the Windows process-id range",
                ),
            );
        }
        let session = ConsentSession {
            window_id: request.window_id,
            pid: request.pid as u32,
            attempt: request.attempt,
            saw_prompt: false,
            phase: ConsentPhase::Approaching,
            held: Vec::new(),
        };
        Ok((session, ConsentAction::ProveOwner(request.window_id)))
    }

    /// Whether an event is what the attempt waits for.
    pub fn awaits(&self, event: &ConsentEvent) -> (awaited: bool)
        ensures
            awaited == expects(self.phase, event@),
    {
        match (self.phase, event) {
            (ConsentPhase::Approaching, ConsentEvent::Owner(_)) => true,
            (ConsentPhase::Proving, ConsentEvent::Owner(_)) => true,
            (ConsentPhase::Starting, ConsentEvent::ClockStarted) => true,
            (ConsentPhase::Inspecting, ConsentEvent::Inspected { .. }) => true,
            (ConsentPhase::Inspecting, ConsentEvent::InspectionFailed(_)) => true,
            (ConsentPhase::Invoking, ConsentEvent::Invoked(_)) => true,
            (ConsentPhase::Timing, ConsentEvent::Elapsed(_)) => true,
            (ConsentPhase::Waiting, ConsentEvent::Waited) => true,
            _ => false,
        }
    }

    /// Takes what came of the last action and says what is done next.
    pub fn step(&mut self, event: ConsentEvent) -> (step: ConsentStep)
        requires
            expects(old(self)@.phase, event@),
        ensures
            final(self)@ == old(self)@.after(event@),
            step.release@ == old(self)@.releases(event@),
            step.action@ == old(self)@.response(event@),
    {
        let mut release: Vec<Vec<UiaNode>> = Vec::new();
        let action = match event {
            ConsentEvent::Owner(owner) => match prove_window_owner(owner, self.pid) {
                Ok(()) => {
                    if self.phase == ConsentPhase::Approaching {
                        self.phase = ConsentPhase::Starting;
                        ConsentAction::StartClock
                    } else {
                        self.phase = ConsentPhase::Inspecting;
                        ConsentAction::Inspect(self.window_id)
                    }
                },
                Err(refused) => self.finish(Err(refused)),
            },
            ConsentEvent::ClockStarted | ConsentEvent::Waited => {
                self.phase = ConsentPhase::Proving;
                ConsentAction::ProveOwner(self.window_id)
            },
            ConsentEvent::Inspected { prompt_present, trees } => {
                let mut held = trees.held;
                release = trees.released;
                let dismissed = self.saw_prompt && !prompt_present;
                self.saw_prompt = self.saw_prompt || prompt_present;
                match trees.button {
                    Ok(Some(element)) => {
                        self.held.append(&mut held);
                        self.phase = ConsentPhase::Invoking;
                        ConsentAction::Invoke(element)
                    },
                    Ok(None) => {
                        release.append(&mut held);
                        if dismissed {
                            self.finish(
                                Err(
                                    refusal(
                                        BrowserRefusalCode::BrowserConsentRevoked,
                                        "the person dismissed the browser consent prompt",
                                    ),
                                ),
                            )
                        } else {
                            self.phase = ConsentPhase::Timing;
                            ConsentAction::ReadClock
                        }
                    },
                    Err(refused) => {
                        release.append(&mut held);
                        self.finish(Err(refused))
                    },
                }
            },
            ConsentEvent::InspectionFailed(detail) => self.finish(
                Err(
                    BrowserRefusal::new(
                        BrowserRefusalCode::BrowserRouteUnavailable,
                        joined("could not inspect the browser consent UI: ", detail.as_str()),
                    ),
                ),
            ),
            ConsentEvent::Invoked(result) => {
                release.append(&mut self.held);
                match result {
                    Ok(()) => self.finish(Ok(BrowserConsentOutcome::Accepted)),
                    Err(detail) => self.finish(
                        Err(
                            BrowserRefusal::new(
                                BrowserRefusalCode::BrowserWrongTargetRefused,
                                joined(
                                    "the exact browser consent action failed: ",
                                    detail.as_str(),
                                ),
                            ),
                        ),
                    ),
                }
            },
            ConsentEvent::Elapsed(millis) => {
                if millis >= CONSENT_TIMEOUT_MILLIS {
                    let attempt = to_decimal(self.attempt);
                    self.finish(
                        Err(
                            BrowserRefusal::new(
                                BrowserRefusalCode::BrowserWrongTargetRefused,
                                joined(
                                    "no exact Chromium remote-debugging consent prompt appeared for reconnect attempt ",
                                    attempt.as_str(),
                                ),
                            ),
                        ),
                    )
                } else {
                    self.phase = ConsentPhase::Waiting;
                    ConsentAction::Wait(POLL_INTERVAL_MILLIS)
                }
            },
        };
        ConsentStep { release, action }
    }

    fn finish(&mut self, result: Result<BrowserConsentOutcome, BrowserRefusal>) -> (action:
        ConsentAction)
        ensures
            final(self)@ == (SessionView { phase: ConsentPhase::Finished, ..old(self)@ }),
            action == ConsentAction::Finish(result),
    {
        self.phase = ConsentPhase::Finished;
        ConsentAction::Finish(result)
    }
}

/// Whether the process that owns the approved window is the approved one.
pub fn prove_window_owner(owner: u32, pid: u32) -> (proved: Result<(), BrowserRefusal>)
    ensures
        proved is Ok <==> owner == pid,
        proved matches Err(refused) ==> refused@ == stale_binding(),
{
    if owner != pid {
        return Err(
            refusal(
                BrowserRefusalCode::BrowserBindingStale,
                "the approved browser window changed ownership before consent",
            ),
        );
    }
    Ok(())
}

impl SessionView {
    /// The attempt after a number of events.
    pub open spec fn after_all(self, events: Seq<EventView>) -> SessionView
        decreases events.len(),
    {
        if events.len() == 0 {
            self
        } else {
            self.after_all(events.drop_last()).after(events.last())
        }
    }

    /// Whether each event is what the attempt waits for when it comes.
    pub open spec fn awaits_all(self, events: Seq<EventView>) -> bool {
        forall|i: int|
            0 <= i < events.len() ==> expects(
                self.after_all(events.take(i)).phase,
                #[trigger] events[i],
            )
    }

    /// The trees that are released in the course of a number of events, in order.
    pub open spec fn released_by(self, events: Seq<EventView>) -> Seq<Vec<UiaNode>>
        decreases events.len(),
    {
        if events.len() == 0 {
            Seq::empty()
        } else {
            let front = events.drop_last();
            self.released_by(front) + self.after_all(front).releases(events.last())
        }
    }

    /// What is done after the last of a number of events.
    pub open spec fn last_action(self, events: Seq<EventView>) -> ActionView {
        self.after_all(events.drop_last()).response(events.last())
    }
}

/// Whether an event shows a prompt on the screen.
pub open spec fn shows_prompt(event: EventView) -> bool {
    event matches EventView::Inspected { prompt_present, .. } && prompt_present
}

/// An attempt keeps to its window, its process and its number, and it remembers
/// exactly whether a prompt was ever on the screen.
pub proof fn lemma_session_remembers(session: SessionView, events: Seq<EventView>)
    requires
        !session.saw_prompt,
    ensures
        session.after_all(events).window_id == session.window_id,
        session.after_all(events).pid == session.pid,
        session.after_all(events).attempt == session.attempt,
        session.after_all(events).saw_prompt <==> exists|i: int|
            0 <= i < events.len() && shows_prompt(#[trigger] events[i]),
    decreases events.len(),
{
    if events.len() > 0 {
        let front = events.drop_last();
        lemma_session_remembers(session, front);
        let last = events.len() - 1;
        if session.after_all(front).saw_prompt {
            let i = choose|i: int| 0 <= i < front.len() && shows_prompt(#[trigger] front[i]);
            assert(shows_prompt(events[i]));
        }
        if shows_prompt(events.last()) {
            assert(shows_prompt(events[last]));
        }
        if exists|i: int| 0 <= i < events.len() && shows_prompt(#[trigger] events[i]) {
            let i = choose|i: int| 0 <= i < events.len() && shows_prompt(#[trigger] events[i]);
            if i < last {
                assert(shows_prompt(front[i]));
            }
        }
    }
}

/// What one event leads to: the screen is looked at after the approved owner was
/// shown, a button is pressed after it was found, and pressing ends the attempt.
proof fn lemma_one_step(session: SessionView, event: EventView)
    ensures
        session.after(event).phase == ConsentPhase::Inspecting ==> event == EventView::Owner(
            session.pid,
        ),
        session.after(event).phase == ConsentPhase::Invoking ==> (
        event matches EventView::Inspected { button, .. } && button matches Ok(Some(element))
            && session.response(event) == ActionView::Invoke(element)),
        session.response(event) == ActionView::Finish(Ok(BrowserConsentOutcome::Accepted)) ==> (
        event matches EventView::Invoked(result) && result is Ok),
        event is Invoked ==> session.after(event).phase == ConsentPhase::Finished,
{
}

/// After at least one event an attempt is where the last event led to.
pub(crate) proof fn lemma_last_step(session: SessionView, events: Seq<EventView>)
    requires
        events.len() > 0,
    ensures
        session.after_all(events) == session.after_all(events.drop_last()).after(events.last()),
{
}

/// Where an attempt stands after the first `i` events, it waits for event `i`.
pub(crate) proof fn lemma_awaited(session: SessionView, events: Seq<EventView>, i: int)
    requires
        session.awaits_all(events),
        0 <= i < events.len(),
    ensures
        expects(session.after_all(events.take(i)).phase, events[i]),
{
}

/// After the first `i` events an attempt is where event `i - 1` led to.
proof fn lemma_step_before(session: SessionView, events: Seq<EventView>, i: int)
    requires
        0 < i <= events.len(),
    ensures
        session.after_all(events.take(i)) == session.after_all(events.take(i - 1)).after(
            events[i - 1],
        ),
{
    assert(events.take(i).drop_last() =~= events.take(i - 1));
    assert(events.take(i).last() == events[i - 1]);
    lemma_last_step(session, events.take(i));
}

/// The screen is looked at only right after the window was shown to belong to
/// the approved process.
pub proof fn lemma_owner_is_proved_before_inspection(
    request: BrowserConsentRequest,
    events: Seq<EventView>,
    i: int,
)
    requires
        SessionView::fresh(request).awaits_all(events),
        0 <= i < events.len(),
        events[i] is Inspected || events[i] is InspectionFailed,
    ensures
        i > 0,
        events[i - 1] == EventView::Owner(SessionView::fresh(request).pid),
{
    let session = SessionView::fresh(request);
    lemma_awaited(session, events, i);
    assert(session.after_all(events.take(i)).phase == ConsentPhase::Inspecting);
    if i == 0 {
        assert(session.after_all(events.take(0)) == session);
    } else {
        let before = session.after_all(events.take(i - 1));
        lemma_step_before(session, events, i);
        lemma_one_step(before, events[i - 1]);
        lemma_session_remembers(session, events.take(i - 1));
    }
}

/// A request is accepted only after exactly the element was pressed that the
/// last look at the screen had found, with the window shown to belong to the
/// approved process right before that look.
pub proof fn lemma_accepted_only_after_pressing(
    request: BrowserConsentRequest,
    events: Seq<EventView>,
)
    requires
        SessionView::fresh(request).awaits_all(events),
        events.len() > 0,
        SessionView::fresh(request).last_action(events) == ActionView::Finish(
            Ok(BrowserConsentOutcome::Accepted),
        ),
    ensures
        events.len() >= 3,
        events.last() matches EventView::Invoked(result) && result is Ok,
        events[events.len() - 2] matches EventView::Inspected { button, .. } && button matches Ok(
            Some(element),
        ) && SessionView::fresh(request).last_action(events.drop_last()) == ActionView::Invoke(
            element,
        ),
        events[events.len() - 3] == EventView::Owner(SessionView::fresh(request).pid),
{
    let session = SessionView::fresh(request);
    let last = events.len() - 1;
    let front = events.drop_last();
    assert(front =~= events.take(last));
    let pressed = session.after_all(front);
    lemma_one_step(pressed, events.last());
    assert(events[last] is Invoked);
    lemma_awaited(session, events, last);
    assert(pressed.phase == ConsentPhase::Invoking);
    if last == 0 {
        assert(session.after_all(events.take(0)) == session);
    } else {
        let found = session.after_all(events.take(last - 1));
        assert(front.drop_last() =~= events.take(last - 1));
        assert(front.last() == events[last - 1]);
        lemma_step_before(session, events, last);
        lemma_one_step(found, events[last - 1]);
        lemma_owner_is_proved_before_inspection(request, events, last - 1);
    }
}

/// The trees that an event brings: those that a look leaves, first the ones that
/// are to be released and then the ones that are held.
pub open spec fn brought(event: EventView) -> Seq<Vec<UiaNode>> {
    match event {
        EventView::Inspected { held, released, .. } => released + held,
        _ => Seq::empty(),
    }
}

/// The trees that a number of events bring, in order.
pub open spec fn brought_by(events: Seq<EventView>) -> Seq<Vec<UiaNode>>
    decreases events.len(),
{
    if events.len() == 0 {
        Seq::empty()
    } else {
        brought_by(events.drop_last()) + brought(events.last())
    }
}

pub(crate) proof fn lemma_awaits_front(session: SessionView, events: Seq<EventView>)
    requires
        session.awaits_all(events),
        events.len() > 0,
    ensures
        session.awaits_all(events.drop_last()),
        expects(session.after_all(events.drop_last()).phase, events.last()),
{
    let front = events.drop_last();
    let last = events.len() - 1;
    assert(events.take(last) =~= front);
    lemma_awaited(session, events, last);
    assert forall|i: int| 0 <= i < front.len() implies expects(
        session.after_all(front.take(i)).phase,
        #[trigger] front[i],
    ) by {
        assert(front.take(i) =~= events.take(i));
        lemma_awaited(session, events, i);
    }
}

/// What one event does to the trees: what was held and what it brings is
/// released or held after it, in this order, and trees are held only until the
/// button has been pressed.
proof fn lemma_one_step_keeps_trees(session: SessionView, event: EventView)
    requires
        expects(session.phase, event),
        session.held.len() > 0 ==> session.phase == ConsentPhase::Invoking,
    ensures
        session.releases(event) + session.after(event).held == session.held + brought(event),
        session.after(event).held.len() > 0 ==> session.after(event).phase
            == ConsentPhase::Invoking,
{
    assert(session.releases(event) + session.after(event).held =~= session.held + brought(event));
}

/// Every tree that the looks of an attempt bring is released once, in the order
/// in which they are brought, but for those that are held until the button has
/// been pressed. None is held by an attempt that has ended.
pub proof fn lemma_every_tree_is_released(request: BrowserConsentRequest, events: Seq<EventView>)
    requires
        SessionView::fresh(request).awaits_all(events),
    ensures
        ({
            let session = SessionView::fresh(request).after_all(events);
            &&& SessionView::fresh(request).released_by(events) + session.held == brought_by(events)
            &&& session.held.len() > 0 ==> session.phase == ConsentPhase::Invoking
            &&& session.phase == ConsentPhase::Finished ==> SessionView::fresh(request).released_by(
                events,
            ) == brought_by(events)
        }),
    decreases events.len(),
{
    let start = SessionView::fresh(request);
    let session = start.after_all(events);
    if events.len() > 0 {
        let front = events.drop_last();
        let event = events.last();
        let before = start.after_all(front);
        lemma_awaits_front(start, events);
        lemma_every_tree_is_released(request, front);
        lemma_one_step_keeps_trees(before, event);
        lemma_last_step(start, events);
        let so_far = start.released_by(front);
        assert(start.released_by(events) + session.held =~= so_far + (before.releases(event)
            + session.held));
        assert(so_far + (before.held + brought(event)) =~= (so_far + before.held) + brought(event));
    } else {
        assert(start.released_by(events) + session.held =~= brought_by(events));
    }
    if session.phase == ConsentPhase::Finished {
        assert(start.released_by(events) + session.held =~= start.released_by(events));
    }
}

/// The button is pressed first: after a look that found one, the action is to
/// press it and none of the trees that come with it is released. They are
/// released right after the press, however it ended, and the attempt ends.
pub proof fn lemma_pressed_before_released(
    request: BrowserConsentRequest,
    events: Seq<EventView>,
    i: int,
)
    requires
        SessionView::fresh(request).awaits_all(events),
        0 <= i < events.len() - 1,
        events[i] matches EventView::Inspected { button: Ok(Some(_)), .. },
    ensures
        events[i] matches EventView::Inspected { button: Ok(Some(element)), held, released, .. } && {
            let before = SessionView::fresh(request).after_all(events.take(i));
            let pressed = SessionView::fresh(request).after_all(events.take(i + 1));
            &&& before.response(events[i]) == ActionView::Invoke(element)
            &&& before.releases(events[i]) == released
            &&& events[i + 1] is Invoked
            &&& pressed.releases(events[i + 1]) == held
            &&& pressed.response(events[i + 1]) is Finish
        },
{
    let start = SessionView::fresh(request);
    let before = start.after_all(events.take(i));
    lemma_awaits_prefix(start, events, i);
    lemma_every_tree_is_released(request, events.take(i));
    lemma_awaited(start, events, i);
    lemma_step_before(start, events, i + 1);
    lemma_awaited(start, events, i + 1);
    assert(before.phase == ConsentPhase::Inspecting);
    assert(before.held.len() == 0);
    let held = events[i]->held;
    assert(before.held + held =~= held);
}

pub(crate) proof fn lemma_awaits_prefix(session: SessionView, events: Seq<EventView>, count: int)
    requires
        session.awaits_all(events),
        0 <= count <= events.len(),
    ensures
        session.awaits_all(events.take(count)),
{
    let prefix = events.take(count);
    assert forall|i: int| 0 <= i < prefix.len() implies expects(
        session.after_all(prefix.take(i)).phase,
        #[trigger] prefix[i],
    ) by {
        assert(prefix.take(i) =~= events.take(i));
        lemma_awaited(session, events, i);
    }
}

/// With no button in sight, the request is refused as revoked exactly where the
/// prompt has left the screen after it had been there.
pub proof fn lemma_revoked_only_after_prompt(
    request: BrowserConsentRequest,
    events: Seq<EventView>,
)
    requires
        events.len() > 0,
        events.last() matches EventView::Inspected { button, .. } && button == Ok::<
            Option<usize>,
            RefusalView,
        >(None),
    ensures
        SessionView::fresh(request).last_action(events) == ActionView::Finish(Err(revoked()))
            <==> !shows_prompt(events.last()) && exists|i: int|
            0 <= i < events.len() && shows_prompt(#[trigger] events[i]),
{
    let session = SessionView::fresh(request);
    let front = events.drop_last();
    let before = session.after_all(front);
    assert(!shows_prompt(events.last()) ==> (before.saw_prompt <==> exists|i: int|
        0 <= i < events.len() && shows_prompt(#[trigger] events[i]))) by {
        lemma_session_remembers(session, front);
        if before.saw_prompt {
            let i = choose|i: int| 0 <= i < front.len() && shows_prompt(#[trigger] front[i]);
            assert(shows_prompt(events[i]));
        }
        if exists|i: int| 0 <= i < events.len() && shows_prompt(#[trigger] events[i]) {
            let i = choose|i: int| 0 <= i < events.len() && shows_prompt(#[trigger] events[i]);
            if i < events.len() - 1 {
                assert(shows_prompt(front[i]));
            }
        }
    }
    assert(before.response(events.last()) is Finish <==> before.saw_prompt && !shows_prompt(
        events.last(),
    ));
}

/// An attempt ends exactly with the action that says so, and takes no event
/// after that.
pub proof fn lemma_finish_is_final(session: SessionView, event: EventView, later: EventView)
    requires
        expects(session.phase, event),
    ensures
        session.response(event) is Finish <==> session.after(event).phase == ConsentPhase::Finished,
        session.response(event) is Finish ==> !expects(session.after(event).phase, later),
{
}

/// A button is pressed at most once in an attempt: what came of pressing it is
/// the last event.
pub proof fn lemma_pressed_at_most_once(
    request: BrowserConsentRequest,
    events: Seq<EventView>,
    i: int,
)
    requires
        SessionView::fresh(request).awaits_all(events),
        0 <= i < events.len(),
        events[i] is Invoked,
    ensures
        i == events.len() - 1,
{
    let session = SessionView::fresh(request);
    if i + 1 < events.len() {
        let before = session.after_all(events.take(i));
        lemma_step_before(session, events, i + 1);
        lemma_one_step(before, events[i]);
        lemma_awaited(session, events, i + 1);
        assert(session.after_all(events.take(i + 1)).phase == ConsentPhase::Finished);
    }
}

/// Until an attempt ends, what it does next always brings an event that it waits
/// for: the owner after asking for it, what the screen shows after looking, and
/// so on.
pub proof fn lemma_action_brings_awaited_event(
    session: SessionView,
    event: EventView,
    next: EventView,
)
    requires
        expects(session.phase, event),
        answers_action(session.response(event), next),
    ensures
        expects(session.after(event).phase, next),
{
}

/// Whether an event is what comes of an action.
pub open spec fn answers_action(action: ActionView, event: EventView) -> bool {
    match action {
        ActionView::ProveOwner(_) => event is Owner,
        ActionView::StartClock => event is ClockStarted,
        ActionView::Inspect(_) => event is Inspected || event is InspectionFailed,
        ActionView::Invoke(_) => event is Invoked,
        ActionView::ReadClock => event is Elapsed,
        ActionView::Wait(_) => event is Waited,
        ActionView::Finish(_) => false,
    }
}

} // verus!
