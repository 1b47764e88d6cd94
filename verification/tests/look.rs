//! A look at the target window, and what an attempt makes of it.

use browser_consent_ui::actions::CHROMIUM_DIALOG_BUTTON_CLASS;
use browser_consent_ui::look::look_for_button;
use browser_consent_ui::native::WindowFacts;
use browser_consent_ui::node::UiaNode;
use browser_consent_ui::refusal::{refusal, BrowserRefusal, BrowserRefusalCode};
use browser_consent_ui::session::{
    BrowserConsentRequest, ConsentAction, ConsentEvent, ConsentSession,
};
use browser_consent_ui::target::SettledTrees;

fn node(control_type: &str, name: &str, depth: usize) -> UiaNode {
    UiaNode {
        element_index: None,
        control_type: control_type.to_owned(),
        name: Some(name.to_owned()),
        actions: Vec::new(),
        element_ptr: 0,
        rect: None,
        depth,
        parent_element_index: None,
        in_web_content: false,
    }
}

fn button(element_ptr: usize, left: i32, right: i32) -> UiaNode {
    let mut node = node("Button", "label", 8);
    node.actions = vec!["invoke".to_owned()];
    node.element_ptr = element_ptr;
    node.rect = Some((left, 10, right, 40));
    node
}

fn prompt(title: &str, base: usize) -> Vec<UiaNode> {
    vec![
        node("Pane", title, 2),
        node("Window", title, 3),
        node("Text", title, 7),
        button(base + 1, 0, 100),
        button(base + 2, 300, 380),
        button(base + 3, 390, 470),
    ]
}

fn two_prompts() -> Vec<UiaNode> {
    let mut tree = prompt("a", 0);
    tree.extend(prompt("b", 10));
    tree
}

fn plain(element_ptr: usize) -> Vec<UiaNode> {
    vec![node("Pane", "plain", 1), button(element_ptr, 0, 100)]
}

fn dialog_button(_element: usize) -> Result<(String, bool), BrowserRefusal> {
    Ok((CHROMIUM_DIALOG_BUTTON_CLASS.to_owned(), false))
}

fn no_answer(_element: usize) -> Result<(String, bool), BrowserRefusal> {
    Err(refusal(BrowserRefusalCode::BrowserRouteUnavailable, "no answer"))
}

fn usable_window(_window: u64) -> WindowFacts {
    WindowFacts {
        is_window: true,
        owner_pid: Some(7),
        visible: true,
        enabled: true,
        owner_reaches_target: true,
    }
}

/// The elements of a tree that are to be released.
fn elements(tree: &[UiaNode]) -> Vec<usize> {
    tree.iter().map(|node| node.element_ptr).filter(|element| *element != 0).collect()
}

fn all_elements(trees: &[Vec<UiaNode>]) -> Vec<usize> {
    trees.iter().flat_map(|tree| elements(tree)).collect()
}

/// Looks at a target whose owned windows show what `shown` gives, and tells which
/// elements were handed over during the look.
fn look(
    tree: Vec<UiaNode>,
    windows: &[(u64, usize)],
    shown: fn(u64) -> Vec<UiaNode>,
    ask: fn(usize) -> Result<(String, bool), BrowserRefusal>,
) -> (Vec<usize>, bool, SettledTrees) {
    let (handed_over, event) = look_for_button(
        tree,
        7,
        || windows.to_vec(),
        Vec::new(),
        |mut handed_over: Vec<usize>, unneeded: Option<Vec<UiaNode>>, window| {
            handed_over.extend(all_elements(unneeded.as_slice()));
            (handed_over, shown(window))
        },
        ask,
        usable_window,
    );
    match event {
        ConsentEvent::Inspected { prompt_present, trees } => (handed_over, prompt_present, trees),
        other => panic!("not a look: {other:?}"),
    }
}

fn no_window(window: u64) -> Vec<UiaNode> {
    panic!("window {window} was walked")
}

/// What the attempt does after a look, and what is released before that.
fn after(prompt_present: bool, trees: SettledTrees) -> (ConsentAction, Vec<usize>, ConsentSession) {
    let request = BrowserConsentRequest { pid: 7, window_id: 77, attempt: 1 };
    let (mut session, _) = ConsentSession::begin(request).unwrap();
    for event in [ConsentEvent::Owner(7), ConsentEvent::ClockStarted, ConsentEvent::Owner(7)] {
        session.step(event);
    }
    let step = session.step(ConsentEvent::Inspected { prompt_present, trees });
    (step.action, all_elements(&step.release), session)
}

#[test]
fn a_look_without_a_prompt_leads_to_the_clock() {
    let (handed_over, prompt_present, trees) = look(plain(9), &[], no_window, dialog_button);
    assert!(handed_over.is_empty());
    assert!(!prompt_present);
    assert!(matches!(trees.button, Ok(None)));
    assert!(trees.held.is_empty());
    assert_eq!(all_elements(&trees.released), vec![9]);
    let (action, released, _) = after(prompt_present, trees);
    assert!(matches!(action, ConsentAction::ReadClock));
    assert_eq!(released, vec![9]);
}

#[test]
fn a_look_with_one_prompt_leads_to_its_button() {
    let (handed_over, prompt_present, trees) =
        look(prompt("a", 0), &[(31, 0)], no_window, dialog_button);
    assert!(handed_over.is_empty());
    assert!(prompt_present);
    assert!(matches!(trees.button, Ok(Some(2))));
    assert_eq!(trees.held.len(), 2);
    assert!(trees.held[0].is_empty());
    assert_eq!(elements(&trees.held[1]), vec![1, 2, 3]);
    assert!(trees.released.is_empty());
    let (action, released, mut session) = after(prompt_present, trees);
    assert!(matches!(action, ConsentAction::Invoke(2)));
    assert!(released.is_empty());
    let step = session.step(ConsentEvent::Invoked(Ok(())));
    assert_eq!(all_elements(&step.release), vec![1, 2, 3]);
}

#[test]
fn a_look_that_is_refused_ends_the_attempt() {
    let (_, prompt_present, trees) = look(prompt("a", 0), &[], no_window, no_answer);
    assert!(prompt_present);
    assert!(matches!(&trees.button, Err(refused) if refused.message == "no answer"));
    assert!(trees.held.is_empty());
    let (action, released, session) = after(prompt_present, trees);
    assert!(matches!(action, ConsentAction::Finish(Err(_))));
    assert_eq!(released, vec![1, 2, 3]);
    assert!(session.held.is_empty());
}

#[test]
fn every_tree_of_a_look_is_released_once() {
    fn shown(window: u64) -> Vec<UiaNode> {
        match window {
            31 | 34 => plain(window as usize),
            _ => prompt("c", window as usize * 10),
        }
    }
    let windows = [(31, 0), (32, 3), (33, 1), (34, 4)];
    let (handed_over, prompt_present, trees) =
        look(two_prompts(), &windows, shown, dialog_button);
    assert_eq!(handed_over, vec![31]);
    assert!(prompt_present);
    assert!(matches!(trees.button, Ok(Some(332))));
    assert_eq!(elements(&trees.held[0]), vec![331, 332, 333]);
    assert_eq!(elements(&trees.held[1]), vec![1, 2, 3, 11, 12, 13]);
    assert_eq!(all_elements(&trees.released), vec![34, 321, 322, 323]);
    let (action, released, mut session) = after(prompt_present, trees);
    assert!(matches!(action, ConsentAction::Invoke(332)));
    assert_eq!(released, vec![34, 321, 322, 323]);
    let step = session.step(ConsentEvent::Invoked(Err("busy".to_owned())));
    assert!(matches!(step.action, ConsentAction::Finish(Err(_))));
    assert_eq!(all_elements(&step.release), vec![331, 332, 333, 1, 2, 3, 11, 12, 13]);
}

#[test]
fn a_scan_that_is_refused_holds_nothing() {
    fn shown(window: u64) -> Vec<UiaNode> {
        let mut tree = prompt("c", window as usize * 10);
        if window == 32 {
            tree.pop();
        }
        tree
    }
    let (handed_over, prompt_present, trees) =
        look(two_prompts(), &[(31, 0), (32, 1), (33, 2)], shown, dialog_button);
    assert!(handed_over.is_empty());
    assert!(trees.button.is_err());
    let (action, released, _) = after(prompt_present, trees);
    assert!(matches!(action, ConsentAction::Finish(Err(_))));
    assert_eq!(released, vec![321, 322, 311, 312, 313, 1, 2, 3, 11, 12, 13]);
}
