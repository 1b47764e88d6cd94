//! The consent button is found in prompts of every language and layout, and
//! nowhere else.

use browser_consent_ui::actions::{exact_allow_button_with, CHROMIUM_DIALOG_BUTTON_CLASS};
use browser_consent_ui::node::UiaNode;
use browser_consent_ui::owned::{select_unique_target_owned_topmost, NativeConsentActionEvidence};
use browser_consent_ui::refusal::{BrowserRefusal, BrowserRefusalCode};

fn node(control_type: &str, name: &str, actions: &[&str]) -> UiaNode {
    UiaNode {
        element_index: None,
        control_type: control_type.to_owned(),
        name: Some(name.to_owned()),
        actions: actions.iter().map(|value| (*value).to_owned()).collect(),
        element_ptr: 0,
        rect: None,
        depth: 0,
        parent_element_index: None,
        in_web_content: false,
    }
}

fn dialog_node(control_type: &str, name: &str, depth: usize) -> UiaNode {
    let mut node = node(control_type, name, &[]);
    node.depth = depth;
    node
}

fn button(name: &str, element_ptr: usize, rect: (i32, i32, i32, i32)) -> UiaNode {
    let mut node = node("Button", name, &["invoke"]);
    node.element_index = Some(element_ptr);
    node.element_ptr = element_ptr;
    node.rect = Some(rect);
    node.depth = 8;
    node
}

fn prompt(title: &str, labels: [&str; 3]) -> Vec<UiaNode> {
    vec![
        dialog_node("Pane", title, 2),
        dialog_node("Window", title, 3),
        dialog_node("Text", title, 7),
        button(labels[0], 11, (-6066, 343, -5886, 399)),
        button(labels[1], 12, (-5657, 343, -5560, 399)),
        button(labels[2], 13, (-5549, 343, -5452, 399)),
    ]
}

fn pane_rooted_prompt(title: &str, labels: [&str; 3]) -> Vec<UiaNode> {
    vec![
        dialog_node("Pane", title, 2),
        dialog_node("Text", title, 3),
        dialog_node("Text", title, 7),
        dialog_node("Text", "opaque explanatory surface", 10),
        button(labels[0], 11, (282, 293, 419, 325)),
        button(labels[1], 12, (574, 293, 629, 325)),
        button(labels[2], 13, (637, 293, 698, 325)),
    ]
}

fn properties(element_ptr: usize) -> Result<(String, bool), BrowserRefusal> {
    Ok((CHROMIUM_DIALOG_BUTTON_CLASS.to_owned(), element_ptr == 13))
}

fn native_action(
    allow_element_ptr: usize,
    prompt_hwnd: u64,
    z_order_rank: Option<usize>,
) -> NativeConsentActionEvidence {
    NativeConsentActionEvidence {
        allow_element_ptr,
        prompt_hwnd,
        same_pid: true,
        live: true,
        visible: true,
        enabled: true,
        owner_reaches_target: true,
        z_order_rank,
    }
}

#[test]
fn matcher_is_language_independent_across_localized_native_dialogs() {
    for (title, labels) in [
        (
            "リモート デバッグを許可しますか？",
            ["設定でオフ", "許可", "キャンセル"],
        ),
        (
            "Remote-Debugging zulassen?",
            ["In Einstellungen deaktivieren", "Zulassen", "Abbrechen"],
        ),
        (
            "Autoriser le débogage à distance ?",
            ["Désactiver", "Autoriser", "Annuler"],
        ),
        (
            "هل تريد السماح بتصحيح الأخطاء عن بُعد؟",
            ["تعطيل", "سماح", "إلغاء"],
        ),
    ] {
        assert_eq!(
            exact_allow_button_with(&prompt(title, labels), properties).unwrap(),
            Some(12)
        );
    }
}

#[test]
fn matcher_supports_pane_rooted_native_edge_prompt() {
    assert_eq!(
        exact_allow_button_with(
            &pane_rooted_prompt(
                "¿Permitir la depuración remota?",
                ["Desactivar", "Permitir", "Cancelar"],
            ),
            properties,
        )
        .unwrap(),
        Some(12)
    );
}

#[test]
fn pane_rooted_prompt_requires_both_title_bindings_and_no_nested_window() {
    let mut missing_direct = pane_rooted_prompt("opaque title", ["A", "B", "C"]);
    missing_direct[1].name = Some("different direct title".to_owned());
    assert_eq!(
        exact_allow_button_with(&missing_direct, properties).unwrap(),
        None
    );

    let mut missing_nested = pane_rooted_prompt("opaque title", ["A", "B", "C"]);
    missing_nested[2].name = Some("different nested title".to_owned());
    assert_eq!(
        exact_allow_button_with(&missing_nested, properties).unwrap(),
        None
    );

    let mut nested_window = pane_rooted_prompt("opaque title", ["A", "B", "C"]);
    nested_window.insert(2, dialog_node("Window", "unrelated native window", 3));
    assert_eq!(
        exact_allow_button_with(&nested_window, properties).unwrap(),
        None
    );

    let mut browser_root = pane_rooted_prompt("opaque title", ["A", "B", "C"]);
    browser_root[0].depth = 1;
    assert_eq!(
        exact_allow_button_with(&browser_root, properties).unwrap(),
        None
    );
}

#[test]
fn matcher_deduplicates_repeated_native_prompt_surfaces_by_exact_action() {
    let mut nodes = pane_rooted_prompt("first opaque title", ["A", "B", "C"]);
    nodes.extend(pane_rooted_prompt("first opaque title", ["A", "B", "C"]));

    assert_eq!(
        exact_allow_button_with(&nodes, properties).unwrap(),
        Some(12)
    );
}

#[test]
fn matcher_refuses_multiple_distinct_pane_rooted_native_prompts() {
    let mut nodes = pane_rooted_prompt("first opaque title", ["A", "B", "C"]);
    let mut second = pane_rooted_prompt("second opaque title", ["D", "E", "F"]);
    for node in second.iter_mut().filter(|node| node.element_ptr != 0) {
        node.element_ptr += 100;
        node.element_index = Some(node.element_ptr);
    }
    nodes.extend(second);

    assert_eq!(
        exact_allow_button_with(&nodes, properties)
            .unwrap_err()
            .code,
        BrowserRefusalCode::BrowserWrongTargetRefused
    );
}

#[test]
fn matcher_selects_the_unique_topmost_target_owned_native_prompt() {
    let actions = [
        native_action(112, 12787906, Some(4)),
        native_action(212, 860798, Some(5)),
    ];

    assert_eq!(select_unique_target_owned_topmost(&actions).unwrap(), 112);
}

#[test]
fn matcher_refuses_incomplete_or_non_target_native_prompt_proof() {
    let mut missing_z_order = [
        native_action(112, 12787906, None),
        native_action(212, 860798, Some(5)),
    ];
    assert_eq!(
        select_unique_target_owned_topmost(&missing_z_order)
            .unwrap_err()
            .code,
        BrowserRefusalCode::BrowserWrongTargetRefused
    );

    missing_z_order[0].z_order_rank = Some(4);
    missing_z_order[0].owner_reaches_target = false;
    assert_eq!(
        select_unique_target_owned_topmost(&missing_z_order)
            .unwrap_err()
            .code,
        BrowserRefusalCode::BrowserWrongTargetRefused
    );
}

#[test]
fn matcher_refuses_multiple_allow_actions_for_one_native_prompt_window() {
    let actions = [
        native_action(112, 12787906, Some(4)),
        native_action(212, 12787906, Some(4)),
    ];
    assert_eq!(
        select_unique_target_owned_topmost(&actions)
            .unwrap_err()
            .code,
        BrowserRefusalCode::BrowserWrongTargetRefused
    );
}

#[test]
fn matcher_refuses_one_uia_action_identity_shared_by_multiple_native_windows() {
    let actions = [
        native_action(112, 12787906, Some(4)),
        native_action(112, 860798, Some(5)),
    ];
    assert_eq!(
        select_unique_target_owned_topmost(&actions)
            .unwrap_err()
            .code,
        BrowserRefusalCode::BrowserWrongTargetRefused
    );
}

#[test]
fn matcher_treats_nonempty_unicode_names_as_opaque_data() {
    for (title, labels) in [
        ("e\u{301}", ["é", "E\u{301}", "ë"]),
        ("हिन्दी", ["ไทย", "עברית", "فارسی"]),
        ("日本語", ["한국어", "简体中文", "繁體中文"]),
        ("\u{2067}العربية\u{2069}", ["\u{2066}A\u{2069}", "👩🏽‍💻", "𐐷"]),
        ("Հայերեն", ["ქართული", "አማርኛ", "বাংলা"]),
        ("A\u{200d}B", ["無", "⠿", "✅"]),
    ] {
        assert_eq!(
            exact_allow_button_with(&prompt(title, labels), properties).unwrap(),
            Some(12)
        );
    }
}

#[test]
fn matcher_refuses_when_accessible_names_cannot_bind_the_native_surface() {
    let mut nodes = prompt("placeholder", ["A", "B", "C"]);
    for node in &mut nodes {
        node.name = None;
    }

    assert_eq!(exact_allow_button_with(&nodes, properties).unwrap(), None);
}

#[test]
fn matcher_deduplicates_repeated_uia_walk_rows_by_exact_geometry() {
    let mut nodes = prompt("任何语言", ["A", "B", "C"]);
    let mut duplicate = nodes[4].clone();
    duplicate.element_ptr = 99;
    nodes.push(duplicate);
    assert_eq!(
        exact_allow_button_with(&nodes, properties).unwrap(),
        Some(12)
    );
}

#[test]
fn matcher_is_direction_independent_for_rtl_dialog_layouts() {
    let mut nodes = prompt(
        "هل تريد السماح بتصحيح الأخطاء عن بُعد؟",
        ["تعطيل", "سماح", "إلغاء"],
    );
    nodes[3].rect = Some((600, 343, 780, 399));
    nodes[4].rect = Some((299, 343, 396, 399));
    nodes[5].rect = Some((191, 343, 288, 399));
    assert_eq!(
        exact_allow_button_with(&nodes, properties).unwrap(),
        Some(12)
    );
}

#[test]
fn matcher_does_not_require_focus_when_the_browser_is_inactive() {
    let nodes = prompt(
        "¿Permitir la depuración remota?",
        ["Desactivar", "Permitir", "Cancelar"],
    );
    assert_eq!(
        exact_allow_button_with(&nodes, |_| {
            Ok((CHROMIUM_DIALOG_BUTTON_CLASS.to_owned(), false))
        })
        .unwrap(),
        Some(12)
    );
}

#[test]
fn matcher_refuses_ambiguous_focus_or_button_geometry() {
    let nodes = prompt("Qualsiasi lingua", ["A", "B", "C"]);
    assert_eq!(
        exact_allow_button_with(&nodes, |element_ptr| {
            Ok((CHROMIUM_DIALOG_BUTTON_CLASS.to_owned(), element_ptr >= 12))
        })
        .unwrap_err()
        .code,
        BrowserRefusalCode::BrowserWrongTargetRefused
    );

    let mut equidistant = nodes;
    equidistant[3].rect = Some((-5700, 343, -5560, 399));
    assert_eq!(
        exact_allow_button_with(&equidistant, properties)
            .unwrap_err()
            .code,
        BrowserRefusalCode::BrowserWrongTargetRefused
    );
}

#[test]
fn matcher_ignores_a_spoofed_prompt_inside_web_content() {
    let mut nodes = prompt("Permitir depuração remota?", ["A", "B", "C"]);
    for child in &mut nodes {
        child.in_web_content = true;
    }
    assert_eq!(exact_allow_button_with(&nodes, properties).unwrap(), None);
}

#[test]
fn matcher_refuses_chromium_buttons_outside_the_bound_prompt_subtree() {
    let title = "opaque consent surface";
    let nodes = vec![
        dialog_node("Pane", title, 2),
        dialog_node("Window", title, 3),
        dialog_node("Text", title, 7),
        dialog_node("Pane", "unrelated native sibling", 2),
        button("A", 11, (-6066, 343, -5886, 399)),
        button("B", 12, (-5657, 343, -5560, 399)),
        button("C", 13, (-5549, 343, -5452, 399)),
    ];

    assert_eq!(
        exact_allow_button_with(&nodes, properties)
            .unwrap_err()
            .code,
        BrowserRefusalCode::BrowserWrongTargetRefused
    );
}

#[test]
fn matcher_requires_the_matching_pane_to_be_a_window_ancestor() {
    let title = "opaque consent surface";
    let nodes = vec![
        dialog_node("Pane", title, 2),
        dialog_node("Pane", "different native container", 2),
        dialog_node("Window", title, 3),
        dialog_node("Text", title, 7),
        button("A", 11, (-6066, 343, -5886, 399)),
        button("B", 12, (-5657, 343, -5560, 399)),
        button("C", 13, (-5549, 343, -5452, 399)),
    ];

    assert_eq!(exact_allow_button_with(&nodes, properties).unwrap(), None);
}

#[test]
fn matcher_requires_the_native_prompt_surface_and_chromium_button_class() {
    let mut nodes = prompt("원격 디버깅을 허용하시겠습니까?", ["A", "B", "C"]);
    nodes[0].name = Some("different native pane".to_owned());
    assert_eq!(exact_allow_button_with(&nodes, properties).unwrap(), None);

    let nodes = prompt("원격 디버깅을 허용하시겠습니까?", ["A", "B", "C"]);
    assert_eq!(
        exact_allow_button_with(&nodes, |element_ptr| {
            Ok((
                if element_ptr == 12 {
                    "RendererButton"
                } else {
                    CHROMIUM_DIALOG_BUTTON_CLASS
                }
                .to_owned(),
                element_ptr == 13,
            ))
        })
        .unwrap_err()
        .code,
        BrowserRefusalCode::BrowserWrongTargetRefused
    );
}
