//! Which button grants the request, and which window decides.

use std::cell::RefCell;

use browser_consent_ui::actions::{
    distinct_actions, exact_allow_button_with, native_button_properties,
    structural_allow_actions_with, DistinctActions, CHROMIUM_DIALOG_BUTTON_CLASS,
};
use browser_consent_ui::buttons::{
    edge_gap, select_language_independent_allow, ConsentButtonCandidate,
};
use browser_consent_ui::native::{
    native_consent_action_evidence, native_window_is_exact_target_owned,
    target_owned_windows_by_z_order, WindowFacts, Z_ORDER_LIMIT,
};
use browser_consent_ui::node::UiaNode;
use browser_consent_ui::owned::{select_unique_target_owned_topmost, NativeConsentActionEvidence};
use browser_consent_ui::refusal::{refusal, BrowserRefusal, BrowserRefusalCode};
use browser_consent_ui::target::{
    exact_allow_button_for_target, exact_allow_button_from_owned_prompt_windows,
    settle_owned_prompts, settle_target_tree, ExactAllowButton, TargetSelection,
};

type Rect = (i32, i32, i32, i32);

fn candidate(element_ptr: usize, left: i32, right: i32, focus: bool) -> ConsentButtonCandidate {
    ConsentButtonCandidate {
        element_ptr,
        rect: (left, 10, right, 40),
        has_keyboard_focus: focus,
    }
}

fn standard_row() -> Vec<ConsentButtonCandidate> {
    vec![
        candidate(1, 0, 100, false),
        candidate(2, 300, 380, false),
        candidate(3, 390, 470, false),
    ]
}

fn message(result: Result<usize, BrowserRefusal>) -> String {
    let refused = result.unwrap_err();
    assert_eq!(refused.code, BrowserRefusalCode::BrowserWrongTargetRefused);
    refused.message
}

fn node(control_type: &str, name: &str, depth: usize) -> UiaNode {
    UiaNode {
        element_index: None,
        control_type: control_type.to_owned(),
        name: Some(name.to_owned()),
        actions: Vec::new(),
        element_ptr: 0,
        rect: None,
        depth,
        parent_element_index: None,
        in_web_content: false,
    }
}

fn button(element_ptr: usize, rect: Rect) -> UiaNode {
    let mut node = node("Button", "label", 8);
    node.actions = vec!["focus".to_owned(), "invoke".to_owned()];
    node.element_ptr = element_ptr;
    node.rect = Some(rect);
    node
}

fn prompt(title: &str, base: usize) -> Vec<UiaNode> {
    vec![
        node("Pane", title, 2),
        node("Window", title, 3),
        node("Text", title, 7),
        button(base + 1, (0, 10, 100, 40)),
        button(base + 2, (300, 10, 380, 40)),
        button(base + 3, (390, 10, 470, 40)),
    ]
}

fn dialog_button(_element: usize) -> Result<(String, bool), BrowserRefusal> {
    Ok((CHROMIUM_DIALOG_BUTTON_CLASS.to_owned(), false))
}

fn usable_window(pid: u32) -> WindowFacts {
    WindowFacts {
        is_window: true,
        owner_pid: Some(pid),
        visible: true,
        enabled: true,
        owner_reaches_target: true,
    }
}

fn proven(allow_element_ptr: usize, prompt_hwnd: u64, rank: usize) -> NativeConsentActionEvidence {
    native_consent_action_evidence(
        allow_element_ptr,
        prompt_hwnd,
        7,
        &usable_window(7),
        Some(rank),
    )
}

fn pointers(trees: &[Vec<UiaNode>]) -> Vec<usize> {
    trees
        .iter()
        .map(|tree| tree.iter().map(|row| row.element_ptr).max().unwrap_or(0))
        .collect()
}

#[test]
fn edge_gaps_are_exact() {
    assert_eq!(edge_gap((0, 0, 10, 5), (15, 0, 20, 5)), Some(5));
    assert_eq!(edge_gap((15, 0, 20, 5), (0, 0, 10, 5)), Some(5));
    assert_eq!(edge_gap((0, 0, 10, 5), (10, 0, 20, 5)), Some(0));
    assert_eq!(edge_gap((0, 0, 11, 5), (10, 0, 20, 5)), None);
    assert_eq!(edge_gap((0, 1, 10, 5), (15, 0, 20, 5)), None);
    assert_eq!(edge_gap((0, 0, 10, 6), (15, 0, 20, 5)), None);
    assert_eq!(
        edge_gap((0, 0, i32::MIN, 5), (i32::MAX, 0, i32::MAX, 5)),
        Some(i64::from(u32::MAX))
    );
}

#[test]
fn the_button_next_to_the_extra_action_grants() {
    assert_eq!(select_language_independent_allow(&standard_row()).unwrap(), 2);
}

#[test]
fn a_prompt_needs_exactly_three_buttons() {
    let expected =
        "the native Chromium consent prompt did not expose exactly three distinct dialog buttons";
    assert_eq!(message(select_language_independent_allow(&standard_row()[..2])), expected);
    let mut four = standard_row();
    four.push(candidate(4, 600, 700, false));
    assert_eq!(message(select_language_independent_allow(&four)), expected);
    assert_eq!(message(select_language_independent_allow(&[])), expected);
}

#[test]
fn several_focused_buttons_are_refused() {
    let mut row = standard_row();
    row[0].has_keyboard_focus = true;
    row[2].has_keyboard_focus = true;
    assert_eq!(
        message(select_language_independent_allow(&row)),
        "the native Chromium consent prompt exposed multiple focused dialog buttons"
    );
}

#[test]
fn buttons_have_to_form_one_row() {
    let expected =
        "the native Chromium consent buttons did not form one exact non-overlapping dialog row";
    let mut shifted = standard_row();
    shifted[1].rect.1 = 11;
    assert_eq!(message(select_language_independent_allow(&shifted)), expected);
    let mut overlapping = standard_row();
    overlapping[2].rect.0 = 370;
    assert_eq!(message(select_language_independent_allow(&overlapping)), expected);
}

#[test]
fn the_standard_pair_has_to_be_clear() {
    let expected =
        "the native Chromium consent prompt had no uniquely separated standard button pair";
    let equidistant = [
        candidate(1, 0, 100, false),
        candidate(2, 110, 200, false),
        candidate(3, 210, 300, false),
    ];
    assert_eq!(message(select_language_independent_allow(&equidistant)), expected);
    let mut nearly_twice = standard_row();
    nearly_twice[0].rect.2 = 281;
    assert_eq!(message(select_language_independent_allow(&nearly_twice)), expected);
    nearly_twice[0].rect.2 = 280;
    assert_eq!(select_language_independent_allow(&nearly_twice).unwrap(), 2);
    let mut far_apart = standard_row();
    far_apart[1].rect = (300, 10, 305, 40);
    far_apart[2].rect = (311, 10, 316, 40);
    assert_eq!(message(select_language_independent_allow(&far_apart)), expected);
    far_apart[2].rect = (311, 10, 317, 40);
    assert_eq!(select_language_independent_allow(&far_apart).unwrap(), 2);
}

#[test]
fn degenerate_buttons_leave_the_adjacent_one_open() {
    // Buttons without any width, two of them in one place: each of these is as
    // far from the third as the other.
    let row = [
        ConsentButtonCandidate { element_ptr: 1, rect: (0, 0, 0, 5), has_keyboard_focus: false },
        ConsentButtonCandidate { element_ptr: 2, rect: (0, 0, 0, 5), has_keyboard_focus: false },
        ConsentButtonCandidate { element_ptr: 3, rect: (9, 0, 9, 5), has_keyboard_focus: false },
    ];
    assert_eq!(
        message(select_language_independent_allow(&row)),
        "the native Chromium consent prompt had no unique standard button adjacent to the extra action"
    );
}

#[test]
fn focus_may_only_be_on_cancel() {
    for (focused, expected) in [(0, None), (1, None), (2, Some(2))] {
        let mut row = standard_row();
        row[focused].has_keyboard_focus = true;
        let chosen = select_language_independent_allow(&row);
        match expected {
            Some(element) => assert_eq!(chosen.unwrap(), element),
            None => assert_eq!(
                message(chosen),
                "the native Chromium consent prompt focus contradicted the structural cancel button"
            ),
        }
    }
}

#[test]
fn neither_order_nor_direction_changes_the_choice() {
    let row = standard_row();
    for order in [[0, 1, 2], [0, 2, 1], [1, 0, 2], [1, 2, 0], [2, 0, 1], [2, 1, 0]] {
        let shuffled: Vec<_> = order.iter().map(|i| row[*i]).collect();
        assert_eq!(select_language_independent_allow(&shuffled).unwrap(), 2);
        let mirrored: Vec<_> = shuffled
            .iter()
            .map(|c| candidate(c.element_ptr, 1000 - c.rect.2, 1000 - c.rect.0, false))
            .collect();
        assert_eq!(select_language_independent_allow(&mirrored).unwrap(), 2);
    }
}

#[test]
fn actions_are_counted_once() {
    assert!(matches!(distinct_actions(&[]), DistinctActions::Nothing));
    assert!(matches!(distinct_actions(&[4]), DistinctActions::One(4)));
    assert!(matches!(distinct_actions(&[4, 4, 4]), DistinctActions::One(4)));
    assert!(matches!(distinct_actions(&[4, 5, 4]), DistinctActions::Several));
}

#[test]
fn each_prompt_gives_one_action_in_order() {
    let mut nodes = prompt("first", 20);
    nodes.extend(prompt("second", 10));
    nodes.extend(prompt("third", 20));
    assert_eq!(
        structural_allow_actions_with(&nodes, dialog_button).unwrap(),
        vec![22, 12, 22]
    );
    let refused = exact_allow_button_with(&nodes, dialog_button).unwrap_err();
    assert_eq!(
        refused.message,
        "multiple bound native Chromium consent prompts exposed structural allow actions"
    );
}

#[test]
fn only_live_pressable_native_buttons_are_asked() {
    let mut nodes = prompt("title", 0);
    let mut dead = button(0, (1, 1, 2, 2));
    dead.element_ptr = 0;
    let mut placeless = button(50, (1, 1, 2, 2));
    placeless.rect = None;
    let mut inert = button(51, (1, 1, 2, 2));
    inert.actions = vec!["focus".to_owned()];
    let mut web = button(52, (1, 1, 2, 2));
    web.in_web_content = true;
    let mut link = button(53, (1, 1, 2, 2));
    link.control_type = "Hyperlink".to_owned();
    nodes.extend([dead, placeless, inert, web, link]);
    let asked = RefCell::new(Vec::new());
    let chosen = exact_allow_button_with(&nodes, |element| {
        asked.borrow_mut().push(element);
        dialog_button(element)
    });
    assert_eq!(chosen.unwrap(), Some(2));
    assert_eq!(asked.into_inner(), vec![1, 2, 3]);
}

#[test]
fn buttons_without_an_area_do_not_count() {
    let mut nodes = prompt("title", 0);
    nodes.push(button(60, (500, 10, 500, 40)));
    nodes.push(button(61, (600, 40, 700, 40)));
    assert_eq!(exact_allow_button_with(&nodes, dialog_button).unwrap(), Some(2));
}

#[test]
fn an_element_that_cannot_be_asked_refuses_the_prompt() {
    let nodes = prompt("title", 0);
    let asked = RefCell::new(Vec::new());
    let refused = exact_allow_button_with(&nodes, |element| {
        asked.borrow_mut().push(element);
        if element == 2 {
            native_button_properties(Err("gone".to_owned()))
        } else {
            dialog_button(element)
        }
    })
    .unwrap_err();
    assert_eq!(refused.code, BrowserRefusalCode::BrowserWrongTargetRefused);
    assert_eq!(refused.message, "could not prove a native Chromium consent button: gone");
    assert_eq!(asked.into_inner(), vec![1, 2]);
    assert_eq!(
        native_button_properties(Ok(("C".to_owned(), true))).unwrap(),
        ("C".to_owned(), true)
    );
}

#[test]
fn renamed_prompts_give_the_same_button() {
    let mut nodes = prompt("title", 0);
    for row in nodes.iter_mut() {
        row.name = match row.control_type.as_str() {
            "Button" => None,
            _ => Some(" 許可 ".to_owned()),
        };
    }
    assert_eq!(exact_allow_button_with(&nodes, dialog_button).unwrap(), Some(2));
}

#[test]
fn mirrored_trees_give_the_same_button() {
    let mut nodes = prompt("title", 0);
    for row in nodes.iter_mut() {
        row.rect = row.rect.map(|(left, top, right, bottom)| (-right, top, -left, bottom));
    }
    assert_eq!(exact_allow_button_with(&nodes, dialog_button).unwrap(), Some(2));
}

#[test]
fn a_window_has_to_meet_every_condition() {
    assert!(native_window_is_exact_target_owned(9, 7, &usable_window(7)));
    assert!(!native_window_is_exact_target_owned(0, 7, &usable_window(7)));
    assert!(!native_window_is_exact_target_owned(9, 8, &usable_window(7)));
    for broken in 0..5 {
        let mut facts = usable_window(7);
        match broken {
            0 => facts.is_window = false,
            1 => facts.owner_pid = None,
            2 => facts.visible = false,
            3 => facts.enabled = false,
            _ => facts.owner_reaches_target = false,
        }
        assert!(!native_window_is_exact_target_owned(9, 7, &facts));
        let evidence = native_consent_action_evidence(1, 9, 7, &facts, Some(0));
        let rest = proven(2, 10, 1);
        assert_eq!(
            message(select_unique_target_owned_topmost(&[evidence, rest])),
            "multiple native Chromium consent actions lacked complete target-owned window proof"
        );
    }
}

#[test]
fn nothing_is_shown_of_a_dead_window() {
    let mut facts = usable_window(7);
    facts.is_window = false;
    assert_eq!(
        native_consent_action_evidence(1, 9, 7, &facts, Some(3)),
        NativeConsentActionEvidence {
            allow_element_ptr: 1,
            prompt_hwnd: 9,
            same_pid: false,
            live: false,
            visible: false,
            enabled: false,
            owner_reaches_target: false,
            z_order_rank: Some(3),
        }
    );
}

#[test]
fn owned_windows_are_listed_from_the_top_with_their_ranks() {
    let below = |window: u64| if window > 1 { window - 1 } else { 0 };
    assert_eq!(
        target_owned_windows_by_z_order(5, |window| window % 2 == 1, below),
        vec![(5, 0), (3, 2), (1, 4)]
    );
    assert!(target_owned_windows_by_z_order(0, |_| true, below).is_empty());
    assert_eq!(target_owned_windows_by_z_order(4, |_| true, |window| window), vec![(4, 0)]);
    let endless = target_owned_windows_by_z_order(
        1,
        |window| window == 2,
        |window| if window == 1 { 2 } else { 1 },
    );
    assert_eq!(endless.len(), Z_ORDER_LIMIT / 2);
    assert_eq!(endless.last(), Some(&(2, Z_ORDER_LIMIT - 1)));
}

#[test]
fn a_single_action_is_no_choice_between_windows() {
    assert_eq!(
        message(select_unique_target_owned_topmost(&[proven(1, 9, 0)])),
        "multiple native Chromium consent actions lacked complete target-owned window proof"
    );
    assert_eq!(
        message(select_unique_target_owned_topmost(&[proven(1, 0, 0), proven(2, 9, 1)])),
        "multiple native Chromium consent actions lacked complete target-owned window proof"
    );
}

#[test]
fn the_first_clash_between_windows_is_named() {
    let element = "multiple native Chromium consent windows shared one UI Automation action identity";
    let window = "one native Chromium consent window exposed multiple structural allow actions";
    let order = "multiple native Chromium consent windows shared the highest proven z-order";
    assert_eq!(
        message(select_unique_target_owned_topmost(&[proven(1, 9, 0), proven(1, 8, 1)])),
        element
    );
    assert_eq!(
        message(select_unique_target_owned_topmost(&[proven(1, 9, 0), proven(2, 9, 1)])),
        window
    );
    assert_eq!(
        message(select_unique_target_owned_topmost(&[
            proven(1, 9, 0),
            proven(2, 9, 1),
            proven(1, 8, 2)
        ])),
        element
    );
    assert_eq!(
        message(select_unique_target_owned_topmost(&[
            proven(3, 9, 0),
            proven(2, 9, 1),
            proven(2, 8, 2)
        ])),
        window
    );
    assert_eq!(
        message(select_unique_target_owned_topmost(&[proven(1, 9, 4), proven(2, 8, 4)])),
        order
    );
    assert_eq!(
        message(select_unique_target_owned_topmost(&[proven(1, 9, 4), proven(1, 9, 4)])),
        order
    );
}

#[test]
fn the_order_of_the_windows_does_not_matter() {
    let actions = [proven(1, 9, 6), proven(2, 8, 4), proven(3, 7, 5)];
    for order in [[0, 1, 2], [0, 2, 1], [1, 0, 2], [1, 2, 0], [2, 0, 1], [2, 1, 0]] {
        let shuffled: Vec<_> = order.iter().map(|i| actions[*i]).collect();
        assert_eq!(select_unique_target_owned_topmost(&shuffled).unwrap(), 2);
    }
}

#[test]
fn a_scan_keeps_the_topmost_tree_and_releases_the_others() {
    let (_, selection) = exact_allow_button_from_owned_prompt_windows(
        &[(31, 6), (32, 2), (33, 4)],
        7,
        (),
        |(), _, window| match window {
            31 => ((), prompt("a", 100)),
            32 => ((), prompt("b", 200)),
            _ => ((), vec![node("Pane", "plain", 1), button(300, (0, 0, 1, 1))]),
        },
        dialog_button,
        |_| usable_window(7),
    );
    let chosen = selection.button.unwrap();
    assert_eq!(chosen.element_ptr, 202);
    assert_eq!(pointers(&[chosen.additional_nodes]), vec![203]);
    assert_eq!(pointers(&selection.released), vec![300, 103]);
}

#[test]
fn a_refused_window_ends_the_scan_and_releases_everything() {
    let (walked, selection) = exact_allow_button_from_owned_prompt_windows(
        &[(31, 0), (32, 1), (33, 2)],
        7,
        Vec::new(),
        |mut walked, _, window| {
            walked.push(window);
            let mut tree = prompt("a", 100 * (window as usize - 30));
            if window == 32 {
                tree.pop();
            }
            (walked, tree)
        },
        dialog_button,
        |_| usable_window(7),
    );
    assert_eq!(
        selection.button.unwrap_err().message,
        "the native Chromium consent prompt did not expose exactly three distinct dialog buttons"
    );
    assert_eq!(pointers(&selection.released), vec![202, 103]);
    assert_eq!(walked, vec![31, 32]);
}

#[test]
fn an_undecided_scan_releases_everything() {
    let (_, selection) = exact_allow_button_from_owned_prompt_windows(
        &[(31, 0)],
        7,
        (),
        |(), _, _| ((), prompt("a", 100)),
        dialog_button,
        |_| usable_window(7),
    );
    assert_eq!(
        selection.button.unwrap_err().message,
        "multiple native Chromium consent actions lacked complete target-owned window proof"
    );
    assert_eq!(pointers(&selection.released), vec![103]);
}

#[test]
fn a_window_that_is_listed_twice_is_refused() {
    let found = vec![
        (proven(2, 9, 0), prompt("a", 10)),
        (proven(5, 8, 3), prompt("b", 20)),
        (proven(2, 9, 1), prompt("c", 30)),
        (proven(6, 7, 4), prompt("d", 40)),
    ];
    let selection = settle_owned_prompts(found, vec![prompt("e", 50)]);
    assert_eq!(
        selection.button.unwrap_err().message,
        "multiple native Chromium consent windows shared one UI Automation action identity"
    );
    assert_eq!(pointers(&selection.released), vec![53, 23, 33, 13]);
}

#[test]
fn the_windows_are_looked_at_only_when_the_tree_is_ambiguous() {
    let unasked = || -> Vec<(u64, usize)> { panic!("the tree was clear") };
    let (_, clear) = exact_allow_button_for_target(
        &prompt("a", 0),
        7,
        unasked,
        (),
        |(), _, _| ((), Vec::new()),
        dialog_button,
        |_| usable_window(7),
    );
    let chosen = clear.button.unwrap().unwrap();
    assert_eq!(chosen.element_ptr, 2);
    assert!(chosen.additional_nodes.is_empty());
    assert!(clear.released.is_empty());
    let (_, empty) = exact_allow_button_for_target(
        &[],
        7,
        unasked,
        (),
        |(), _, _| ((), Vec::new()),
        dialog_button,
        |_| usable_window(7),
    );
    assert!(empty.button.unwrap().is_none());
    let (_, failing) = exact_allow_button_for_target(
        &prompt("a", 0),
        7,
        unasked,
        (),
        |(), _, _| ((), Vec::new()),
        |_| Err(refusal(BrowserRefusalCode::BrowserRouteUnavailable, "no answer")),
        |_| usable_window(7),
    );
    let refused = failing.button.unwrap_err();
    assert_eq!(refused.code, BrowserRefusalCode::BrowserRouteUnavailable);
    assert_eq!(refused.message, "no answer");
}

#[test]
fn an_ambiguous_tree_is_settled_by_the_windows() {
    let mut nodes = prompt("a", 0);
    nodes.extend(prompt("b", 10));
    let (_, selection) = exact_allow_button_for_target(
        &nodes,
        7,
        || vec![(31, 3), (32, 1)],
        (),
        |(), _, window| ((), prompt("c", window as usize * 10)),
        dialog_button,
        |_| usable_window(7),
    );
    let chosen = selection.button.unwrap().unwrap();
    assert_eq!(chosen.element_ptr, 322);
    assert_eq!(pointers(&[chosen.additional_nodes]), vec![323]);
    assert_eq!(pointers(&selection.released), vec![313]);
    let (_, stranger) = exact_allow_button_for_target(
        &nodes,
        7,
        || vec![(31, 3), (32, 1)],
        (),
        |(), _, window| ((), prompt("c", window as usize * 10)),
        dialog_button,
        |window| usable_window(if window == 31 { 7 } else { 8 }),
    );
    assert_eq!(
        stranger.button.unwrap_err().message,
        "multiple native Chromium consent actions lacked complete target-owned window proof"
    );
    assert_eq!(pointers(&stranger.released), vec![313, 323]);
}

#[test]
fn a_tree_without_a_prompt_is_released_before_the_next_window_is_walked() {
    let log = RefCell::new(Vec::new());
    let (walks, selection) = exact_allow_button_from_owned_prompt_windows(
        &[(31, 0), (32, 1), (33, 2), (34, 3)],
        7,
        0,
        |walks, unneeded: Option<Vec<UiaNode>>, window| {
            if let Some(tree) = unneeded {
                log.borrow_mut().push(format!("release {:?}", pointers(&[tree])));
            }
            log.borrow_mut().push(format!("walk {window}"));
            match window {
                31 | 34 => (walks + 1, vec![button(window as usize, (0, 0, 1, 1))]),
                _ => (walks + 1, prompt("a", window as usize * 10)),
            }
        },
        dialog_button,
        |window| {
            log.borrow_mut().push(format!("inspect {window}"));
            usable_window(7)
        },
    );
    assert_eq!(walks, 4);
    assert_eq!(selection.button.unwrap().element_ptr, 322);
    assert_eq!(pointers(&selection.released), vec![34, 333]);
    assert_eq!(
        log.into_inner(),
        vec![
            "walk 31",
            "release [31]",
            "walk 32",
            "inspect 32",
            "walk 33",
            "inspect 33",
            "walk 34",
        ]
    );
}

#[test]
fn the_tree_of_the_target_is_held_only_for_a_button() {
    let settled = settle_target_tree(
        TargetSelection {
            button: Ok(Some(ExactAllowButton {
                element_ptr: 22,
                additional_nodes: prompt("a", 20),
            })),
            released: vec![prompt("b", 30)],
        },
        prompt("c", 40),
    );
    assert_eq!(settled.button.unwrap(), Some(22));
    assert_eq!(pointers(&settled.held), vec![23, 43]);
    assert_eq!(pointers(&settled.released), vec![33]);

    let settled = settle_target_tree(
        TargetSelection { button: Ok(None), released: Vec::new() },
        prompt("c", 40),
    );
    assert_eq!(settled.button.unwrap(), None);
    assert!(settled.held.is_empty());
    assert_eq!(pointers(&settled.released), vec![43]);

    let settled = settle_target_tree(
        TargetSelection {
            button: Err(refusal(BrowserRefusalCode::BrowserWrongTargetRefused, "unclear")),
            released: vec![prompt("b", 30)],
        },
        prompt("c", 40),
    );
    assert_eq!(settled.button.unwrap_err().message, "unclear");
    assert!(settled.held.is_empty());
    assert_eq!(pointers(&settled.released), vec![33, 43]);
}

#[test]
fn what_a_page_shows_does_not_matter() {
    let mut page = node("Document", "page", 4);
    page.element_index = Some(90);
    let mut nodes = prompt("title", 0);
    nodes.insert(3, page);
    for (place, (text, element)) in [("title", 91), ("x", 92), ("y", 93)].iter().enumerate() {
        let mut row = button(*element, (0, place as i32, 1, place as i32 + 1));
        row.parent_element_index = Some(90);
        row.name = Some((*text).to_owned());
        nodes.insert(4 + place, row);
    }
    let asked = RefCell::new(Vec::new());
    let mut other = nodes.clone();
    for row in other.iter_mut().filter(|row| row.parent_element_index.is_some()) {
        row.name = Some("title".to_owned());
        row.control_type = "Window".to_owned();
        row.element_ptr = 0;
        row.rect = None;
        row.actions.clear();
    }
    for tree in [&nodes, &other] {
        let chosen = exact_allow_button_with(tree, |element| {
            asked.borrow_mut().push(element);
            dialog_button(element)
        });
        assert_eq!(chosen.unwrap(), Some(2));
    }
    assert_eq!(asked.into_inner(), vec![1, 2, 3, 1, 2, 3]);
}
