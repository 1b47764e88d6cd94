//! Text, rows of a tree, and where prompts stand in it.

use browser_consent_ui::node::{elements_to_release, node_name, UiaNode};
use browser_consent_ui::surface::{
    has_matching_pane_ancestor, has_pane_rooted_title_binding, is_in_web_content,
    is_trusted_prompt_node, native_prompt_surface_present, native_prompt_surfaces, subtree_end,
};
use browser_consent_ui::text::{eq_ignore_ascii_case, joined, same_text, to_decimal, trim};

fn row(control_type: &str, name: Option<&str>, depth: usize) -> UiaNode {
    UiaNode {
        element_index: None,
        control_type: control_type.to_owned(),
        name: name.map(|text| text.to_owned()),
        actions: Vec::new(),
        element_ptr: 0,
        rect: None,
        depth,
        parent_element_index: None,
        in_web_content: false,
    }
}

fn linked(control_type: &str, index: usize, parent: Option<usize>) -> UiaNode {
    let mut node = row(control_type, None, 1);
    node.element_index = Some(index);
    node.parent_element_index = parent;
    node
}

#[test]
fn trim_agrees_with_std_on_every_character() {
    for code in 0..=0x10ffffu32 {
        if let Some(c) = char::from_u32(code) {
            let padded = format!("{c}x{c}");
            assert_eq!(trim(&padded), padded.trim());
        }
    }
    for text in ["", " ", "\u{3000}\t\n", " a b ", "a\u{a0}", "\u{85}a", "a", "\u{200b}a "] {
        assert_eq!(trim(text), text.trim());
    }
}

#[test]
fn case_is_ignored_for_ascii_letters_only() {
    assert!(eq_ignore_ascii_case("DOCUMENT", "Document"));
    assert!(eq_ignore_ascii_case("document", "Document"));
    assert!(!eq_ignore_ascii_case("Documents", "Document"));
    assert!(!eq_ignore_ascii_case("Document", "Documen"));
    assert!(!eq_ignore_ascii_case("É", "é"));
    assert!(!eq_ignore_ascii_case("[", "{"));
    assert!(!eq_ignore_ascii_case("@", "`"));
    assert!(eq_ignore_ascii_case("", ""));
    // The Kelvin sign is no ASCII letter.
    assert!(!eq_ignore_ascii_case("\u{212a}", "k"));
}

#[test]
fn text_is_compared_and_built_exactly() {
    assert!(same_text("é", "é"));
    assert!(!same_text("e\u{301}", "é"));
    assert!(!same_text("Pane", "pane"));
    assert!(!same_text("Pane", "Pan"));
    assert_eq!(joined("a", "bé"), "abé");
    for number in [0u64, 7, 9, 10, 19, 100, 65_536, u32::MAX as u64, u64::MAX] {
        assert_eq!(to_decimal(number), number.to_string());
    }
}

#[test]
fn names_are_trimmed_and_blank_names_are_none() {
    assert_eq!(node_name(&row("Pane", Some(" \u{3000}title\n"), 0)), Some("title"));
    assert_eq!(node_name(&row("Pane", Some(" \t"), 0)), None);
    assert_eq!(node_name(&row("Pane", Some(""), 0)), None);
    assert_eq!(node_name(&row("Pane", None, 0)), None);
}

#[test]
fn only_live_elements_are_released() {
    let mut nodes = vec![row("Pane", None, 0), row("Text", None, 1), row("Button", None, 1)];
    nodes[0].element_ptr = 5;
    nodes[2].element_ptr = 5;
    assert_eq!(elements_to_release(&nodes), vec![5, 5]);
    assert!(elements_to_release(&[]).is_empty());
}

#[test]
fn a_subtree_ends_at_the_first_row_that_is_not_deeper() {
    let nodes = vec![
        row("Pane", None, 1),
        row("Text", None, 3),
        row("Text", None, 2),
        row("Pane", None, 1),
        row("Text", None, 2),
    ];
    assert_eq!(subtree_end(&nodes, 0), 3);
    assert_eq!(subtree_end(&nodes, 1), 2);
    assert_eq!(subtree_end(&nodes, 3), 5);
    assert_eq!(subtree_end(&nodes, 4), 5);
}

#[test]
fn parent_links_decide_what_is_web_content() {
    let nodes = vec![
        linked("Window", 1, None),
        linked("dOCUMENT", 2, Some(1)),
        linked("Group", 3, Some(2)),
        linked("Button", 4, Some(3)),
        linked("Button", 5, Some(1)),
        linked("Button", 6, Some(77)),
    ];
    assert!(is_in_web_content(&nodes, &nodes[3]));
    assert!(is_in_web_content(&nodes, &nodes[2]));
    assert!(!is_in_web_content(&nodes, &nodes[1]));
    assert!(!is_in_web_content(&nodes, &nodes[4]));
    assert!(!is_in_web_content(&nodes, &nodes[5]));
    assert!(!is_trusted_prompt_node(&nodes, &nodes[1]));
    assert!(!is_trusted_prompt_node(&nodes, &nodes[3]));
    assert!(is_trusted_prompt_node(&nodes, &nodes[4]));
}

#[test]
fn parent_links_in_a_circle_count_as_web_content() {
    let nodes = vec![linked("Pane", 1, Some(2)), linked("Pane", 2, Some(1))];
    assert!(is_in_web_content(&nodes, &nodes[0]));
    assert!(!is_trusted_prompt_node(&nodes, &nodes[0]));
    let own_parent = vec![linked("Pane", 1, Some(1))];
    assert!(is_in_web_content(&own_parent, &own_parent[0]));
    // Without any rows there is nothing that could end the links.
    assert!(is_in_web_content(&[], &row("Pane", None, 0)));
}

#[test]
fn of_rows_with_one_number_the_first_is_the_parent() {
    let nodes = vec![
        linked("Pane", 1, None),
        linked("Document", 1, None),
        linked("Button", 2, Some(1)),
    ];
    assert!(!is_in_web_content(&nodes, &nodes[2]));
}

#[test]
fn a_titled_pane_is_found_among_the_ancestors_only() {
    let nodes = vec![
        row("Pane", Some("t"), 1),
        row("Group", Some("g"), 2),
        row("Window", Some("t"), 3),
        row("Pane", Some("t"), 1),
        row("Pane", Some("u"), 1),
        row("Window", Some("t"), 2),
    ];
    assert!(has_matching_pane_ancestor(&nodes, 2, "t"));
    assert!(!has_matching_pane_ancestor(&nodes, 2, "g"));
    assert!(!has_matching_pane_ancestor(&nodes, 5, "t"));
    assert!(has_matching_pane_ancestor(&nodes, 5, "u"));
    assert!(!has_matching_pane_ancestor(&nodes, 0, "t"));
}

#[test]
fn a_pane_binds_its_title_directly_and_deeper() {
    let mut nodes = vec![
        row("Pane", Some("t"), 2),
        row("Text", Some(" t "), 3),
        row("Text", Some("t"), 4),
    ];
    assert!(has_pane_rooted_title_binding(&nodes, 0, "t"));
    assert!(!has_pane_rooted_title_binding(&nodes, 0, "u"));
    nodes[2].depth = 3;
    assert!(!has_pane_rooted_title_binding(&nodes, 0, "t"));
    nodes[2].depth = 4;
    nodes.push(row("Window", None, 5));
    assert!(!has_pane_rooted_title_binding(&nodes, 0, "t"));
    nodes[3].in_web_content = true;
    assert!(has_pane_rooted_title_binding(&nodes, 0, "t"));
    let deepest = vec![row("Pane", Some("t"), usize::MAX), row("Text", Some("t"), usize::MAX)];
    assert!(!has_pane_rooted_title_binding(&deepest, 0, "t"));
}

#[test]
fn prompts_are_listed_with_where_they_end() {
    let nodes = vec![
        row("Pane", Some("t"), 1),
        row("Window", Some("t"), 2),
        row("Text", Some("t"), 3),
        row("Pane", Some("u"), 2),
        row("Text", Some("u"), 3),
        row("Text", Some("u"), 4),
        row("Pane", Some("v"), 1),
    ];
    assert_eq!(native_prompt_surfaces(&nodes), vec![(1, 3), (3, 6)]);
    assert!(native_prompt_surface_present(&nodes));
    assert!(!native_prompt_surface_present(&nodes[..2]));
    assert!(native_prompt_surfaces(&[]).is_empty());
}

#[test]
fn a_root_at_the_top_of_the_tree_is_no_prompt() {
    let nodes = vec![row("Window", Some("t"), 0), row("Text", Some("t"), 1)];
    assert!(native_prompt_surfaces(&nodes).is_empty());
}

#[test]
fn a_tree_of_web_content_shows_no_prompt() {
    let mut nodes = vec![
        linked("Document", 1, None),
        linked("Pane", 2, Some(1)),
        linked("Text", 3, Some(2)),
        linked("Text", 4, Some(3)),
    ];
    for (depth, node) in nodes.iter_mut().enumerate() {
        node.depth = depth + 1;
        node.name = Some("t".to_owned());
    }
    assert!(native_prompt_surfaces(&nodes).is_empty());
    nodes[0].control_type = "Group".to_owned();
    assert_eq!(native_prompt_surfaces(&nodes), vec![(1, 4)]);
}
