//! An attempt to grant a request, from its first action to its end.

use browser_consent_ui::console::{
    creation_flags, OwnedConsoleChildRole, CREATE_NO_WINDOW_FLAG,
};
use browser_consent_ui::node::UiaNode;
use browser_consent_ui::refusal::{refusal, BrowserRefusal, BrowserRefusalCode};
use browser_consent_ui::session::{
    prove_window_owner, BrowserConsentOutcome, BrowserConsentRequest, ConsentAction, ConsentEvent,
    ConsentPhase, ConsentSession, CONSENT_TIMEOUT_MILLIS, POLL_INTERVAL_MILLIS,
};
use browser_consent_ui::target::SettledTrees;

fn request(pid: i64) -> BrowserConsentRequest {
    BrowserConsentRequest { pid, window_id: 77, attempt: 12 }
}

/// An attempt that is about to look at the screen.
fn looking() -> ConsentSession {
    let (mut session, action) = ConsentSession::begin(request(5)).unwrap();
    assert!(matches!(action, ConsentAction::ProveOwner(77)));
    assert!(matches!(advance(&mut session, ConsentEvent::Owner(5)), ConsentAction::StartClock));
    assert!(matches!(
        advance(&mut session, ConsentEvent::ClockStarted),
        ConsentAction::ProveOwner(77)
    ));
    assert!(matches!(advance(&mut session, ConsentEvent::Owner(5)), ConsentAction::Inspect(77)));
    session
}

fn advance(session: &mut ConsentSession, event: ConsentEvent) -> ConsentAction {
    assert!(session.awaits(&event));
    session.step(event).action
}

/// A tree of one row with a live element.
fn tree(element_ptr: usize) -> Vec<UiaNode> {
    vec![UiaNode {
        element_index: None,
        control_type: "Button".to_owned(),
        name: None,
        actions: Vec::new(),
        element_ptr,
        rect: None,
        depth: 0,
        parent_element_index: None,
        in_web_content: false,
    }]
}

fn elements(trees: &[Vec<UiaNode>]) -> Vec<usize> {
    trees.iter().flatten().map(|node| node.element_ptr).collect()
}

fn inspected(
    prompt_present: bool,
    button: Result<Option<usize>, BrowserRefusal>,
    held: &[usize],
    released: &[usize],
) -> ConsentEvent {
    ConsentEvent::Inspected {
        prompt_present,
        trees: SettledTrees {
            button,
            held: held.iter().map(|element| tree(*element)).collect(),
            released: released.iter().map(|element| tree(*element)).collect(),
        },
    }
}

fn seen(prompt_present: bool, element: Option<usize>) -> ConsentEvent {
    inspected(prompt_present, Ok(element), &[], &[])
}

fn refused(action: ConsentAction) -> (BrowserRefusalCode, String) {
    match action {
        ConsentAction::Finish(Err(refused)) => (refused.code, refused.message),
        other => panic!("not refused: {other:?}"),
    }
}

#[test]
fn the_pid_has_to_be_a_process_id() {
    for pid in [-1, i64::MIN, i64::from(u32::MAX) + 1, i64::MAX] {
        let refused = ConsentSession::begin(request(pid)).unwrap_err();
        assert_eq!(refused.code, BrowserRefusalCode::BrowserWrongTargetRefused);
        assert_eq!(
            refused.message,
            "the approved browser pid is outside the Windows process-id range"
        );
    }
    for pid in [0, i64::from(u32::MAX)] {
        let (session, _) = ConsentSession::begin(request(pid)).unwrap();
        assert_eq!(i64::from(session.pid), pid);
        assert!(!session.saw_prompt);
    }
}

#[test]
fn the_window_has_to_belong_to_the_approved_process() {
    assert!(prove_window_owner(5, 5).is_ok());
    let expected = "the approved browser window changed ownership before consent";
    let stale = prove_window_owner(6, 5).unwrap_err();
    assert_eq!(stale.code, BrowserRefusalCode::BrowserBindingStale);
    assert_eq!(stale.message, expected);
    let (mut session, _) = ConsentSession::begin(request(5)).unwrap();
    assert_eq!(
        refused(advance(&mut session, ConsentEvent::Owner(0))),
        (BrowserRefusalCode::BrowserBindingStale, expected.to_owned())
    );
    let mut later = looking();
    advance(&mut later, seen(true, None));
    advance(&mut later, ConsentEvent::Elapsed(0));
    advance(&mut later, ConsentEvent::Waited);
    assert_eq!(
        refused(advance(&mut later, ConsentEvent::Owner(6))).0,
        BrowserRefusalCode::BrowserBindingStale
    );
}

#[test]
fn the_button_is_pressed_and_the_request_accepted() {
    let mut session = looking();
    assert!(matches!(advance(&mut session, seen(true, Some(12))), ConsentAction::Invoke(12)));
    assert!(matches!(
        advance(&mut session, ConsentEvent::Invoked(Ok(()))),
        ConsentAction::Finish(Ok(BrowserConsentOutcome::Accepted))
    ));
    assert_eq!(session.phase, ConsentPhase::Finished);
    for event in [
        ConsentEvent::Owner(5),
        ConsentEvent::ClockStarted,
        seen(true, Some(12)),
        ConsentEvent::InspectionFailed(String::new()),
        ConsentEvent::Invoked(Ok(())),
        ConsentEvent::Elapsed(0),
        ConsentEvent::Waited,
    ] {
        assert!(!session.awaits(&event));
    }
}

#[test]
fn a_button_that_cannot_be_pressed_refuses() {
    let mut session = looking();
    advance(&mut session, seen(true, Some(12)));
    assert_eq!(
        refused(advance(&mut session, ConsentEvent::Invoked(Err("busy".to_owned())))),
        (
            BrowserRefusalCode::BrowserWrongTargetRefused,
            "the exact browser consent action failed: busy".to_owned()
        )
    );
}

#[test]
fn trees_are_held_until_the_button_was_pressed() {
    for result in [Ok(()), Err("busy".to_owned())] {
        let mut session = looking();
        let step = session.step(inspected(true, Ok(Some(12)), &[11, 12], &[21, 22]));
        assert!(matches!(step.action, ConsentAction::Invoke(12)));
        assert_eq!(elements(&step.release), vec![21, 22]);
        assert_eq!(elements(&session.held), vec![11, 12]);
        let step = session.step(ConsentEvent::Invoked(result));
        assert!(matches!(step.action, ConsentAction::Finish(_)));
        assert_eq!(elements(&step.release), vec![11, 12]);
        assert!(session.held.is_empty());
    }
}

#[test]
fn without_a_button_every_tree_is_released_at_once() {
    let unclear = refusal(BrowserRefusalCode::BrowserWrongTargetRefused, "unclear");
    for button in [Ok(None), Err(unclear)] {
        let mut session = looking();
        let step = session.step(inspected(false, button, &[11], &[21, 22]));
        assert_eq!(elements(&step.release), vec![21, 22, 11]);
        assert!(session.held.is_empty());
    }
    let mut session = looking();
    session.step(seen(false, None));
    let step = session.step(ConsentEvent::Elapsed(0));
    assert!(step.release.is_empty());
}

#[test]
fn every_tree_of_an_attempt_is_released_once() {
    let mut session = looking();
    let mut released = Vec::new();
    for event in [
        inspected(false, Ok(None), &[], &[1, 2]),
        ConsentEvent::Elapsed(0),
        ConsentEvent::Waited,
        ConsentEvent::Owner(5),
        inspected(true, Ok(Some(5)), &[4, 5], &[3]),
        ConsentEvent::Invoked(Err("busy".to_owned())),
    ] {
        assert!(session.awaits(&event));
        released.extend(elements(&session.step(event).release));
    }
    assert_eq!(session.phase, ConsentPhase::Finished);
    assert_eq!(released, vec![1, 2, 3, 4, 5]);
}

#[test]
fn a_tree_that_cannot_be_walked_refuses() {
    let mut session = looking();
    assert_eq!(
        refused(advance(&mut session, ConsentEvent::InspectionFailed("panic".to_owned()))),
        (
            BrowserRefusalCode::BrowserRouteUnavailable,
            "could not inspect the browser consent UI: panic".to_owned()
        )
    );
}

#[test]
fn a_refusal_of_the_matcher_is_passed_on() {
    let mut session = looking();
    let unclear = refusal(BrowserRefusalCode::BrowserWrongTargetRefused, "unclear");
    let event = inspected(true, Err(unclear), &[], &[]);
    assert_eq!(
        refused(advance(&mut session, event)),
        (BrowserRefusalCode::BrowserWrongTargetRefused, "unclear".to_owned())
    );
}

#[test]
fn a_prompt_that_leaves_the_screen_was_dismissed() {
    let mut session = looking();
    for prompt_present in [false, true] {
        assert!(matches!(
            advance(&mut session, seen(prompt_present, None)),
            ConsentAction::ReadClock
        ));
        assert!(matches!(
            advance(&mut session, ConsentEvent::Elapsed(CONSENT_TIMEOUT_MILLIS - 1)),
            ConsentAction::Wait(POLL_INTERVAL_MILLIS)
        ));
        assert!(matches!(
            advance(&mut session, ConsentEvent::Waited),
            ConsentAction::ProveOwner(77)
        ));
        assert!(matches!(
            advance(&mut session, ConsentEvent::Owner(5)),
            ConsentAction::Inspect(77)
        ));
    }
    assert_eq!(
        refused(advance(&mut session, seen(false, None))),
        (
            BrowserRefusalCode::BrowserConsentRevoked,
            "the person dismissed the browser consent prompt".to_owned()
        )
    );
}

#[test]
fn a_prompt_is_waited_for_four_seconds() {
    assert_eq!(CONSENT_TIMEOUT_MILLIS, 4_000);
    assert_eq!(POLL_INTERVAL_MILLIS, 100);
    let mut session = looking();
    advance(&mut session, seen(false, None));
    assert_eq!(
        refused(advance(&mut session, ConsentEvent::Elapsed(4_000))),
        (
            BrowserRefusalCode::BrowserWrongTargetRefused,
            "no exact Chromium remote-debugging consent prompt appeared for reconnect attempt 12"
                .to_owned()
        )
    );
}

#[test]
fn every_owned_console_child_role_opens_no_window() {
    assert_eq!(CREATE_NO_WINDOW_FLAG, 0x0800_0000);
    for role in [
        OwnedConsoleChildRole::BrowserProcessTreeCleanup,
        OwnedConsoleChildRole::PathProbe,
        OwnedConsoleChildRole::Installer,
        OwnedConsoleChildRole::RecordingFfmpeg,
        OwnedConsoleChildRole::RecordingFfprobe,
    ] {
        assert_eq!(creation_flags(role), 0x0800_0000);
    }
}
