use prags::cursor::{clamp_selection, step_down, step_up};
use prags::filter::{carries_selected_tag, some_tag_selected, tag_is_selected};
use prags::prags::Project;
use prags::tags::{build_registry, deselect_all, insert_tag, tag_labels, toggle};
use prags::text::{chars_of, string_from};
use ratatui::widgets::ListState;

fn registry(tags: &[(&str, bool)]) -> Vec<(String, bool)> {
    tags.iter().map(|t| (t.0.to_string(), t.1)).collect()
}

#[test]
fn insert_tag_keeps_order_and_skips_what_is_there() {
    let mut names: Vec<String> = Vec::new();
    for tag in ["web", "cli", "web", "async", "cli", "zzz", "a"] {
        insert_tag(&mut names, tag.to_string());
    }
    assert_eq!(names, vec!["a", "async", "cli", "web", "zzz"]);
}

#[test]
fn insert_tag_orders_prefixes_first() {
    let mut names: Vec<String> = Vec::new();
    for tag in ["ab", "a", "abc", "", "b"] {
        insert_tag(&mut names, tag.to_string());
    }
    assert_eq!(names, vec!["", "a", "ab", "abc", "b"]);
}

#[test]
fn registry_of_an_empty_catalog_is_empty() {
    assert!(build_registry(&Vec::new()).is_empty());
    let untagged = vec![Project { path: "p".to_string(), name: "n".to_string(), tags: Vec::new() }];
    assert!(build_registry(&untagged).is_empty());
}

#[test]
fn toggle_turns_one_flag_over() {
    let mut tags = registry(&[("a", false), ("b", true), ("c", false)]);
    toggle(&mut tags, 1);
    assert_eq!(tags, registry(&[("a", false), ("b", false), ("c", false)]));
    toggle(&mut tags, 2);
    assert_eq!(tags, registry(&[("a", false), ("b", false), ("c", true)]));
    toggle(&mut tags, 2);
    toggle(&mut tags, 1);
    assert_eq!(tags, registry(&[("a", false), ("b", true), ("c", false)]));
}

#[test]
fn deselect_all_clears_every_flag() {
    let mut tags = registry(&[("a", true), ("b", false), ("c", true)]);
    deselect_all(&mut tags);
    assert_eq!(tags, registry(&[("a", false), ("b", false), ("c", false)]));
    deselect_all(&mut tags);
    assert_eq!(tags, registry(&[("a", false), ("b", false), ("c", false)]));
}

#[test]
fn tag_labels_show_the_flags() {
    let tags = registry(&[("a", true), ("b c", false)]);
    assert_eq!(tag_labels(&tags), vec![" [X] a", " [ ] b c"]);
}

#[test]
fn selection_queries_read_the_flags() {
    let tags = registry(&[("a", false), ("b", true)]);
    assert!(some_tag_selected(&tags));
    assert!(!some_tag_selected(&registry(&[("a", false)])));
    assert!(!some_tag_selected(&Vec::new()));
    assert!(tag_is_selected(&tags, &"b".to_string()));
    assert!(!tag_is_selected(&tags, &"a".to_string()));
    assert!(!tag_is_selected(&tags, &"c".to_string()));
    let project = Project {
        path: "p".to_string(),
        name: "n".to_string(),
        tags: vec!["a".to_string(), "b".to_string()],
    };
    assert!(carries_selected_tag(&project, &tags));
    let other = Project { path: "p".to_string(), name: "n".to_string(), tags: vec!["a".to_string()] };
    assert!(!carries_selected_tag(&other, &tags));
}

#[test]
fn clamp_brings_a_cursor_onto_the_list() {
    let mut state = ListState::default();
    clamp_selection(&mut state, 3);
    assert_eq!(state.selected(), None);
    state.select(Some(7));
    clamp_selection(&mut state, 3);
    assert_eq!(state.selected(), Some(2));
    state.select(Some(1));
    clamp_selection(&mut state, 3);
    assert_eq!(state.selected(), Some(1));
    clamp_selection(&mut state, 0);
    assert_eq!(state.selected(), None);
}

#[test]
fn steps_move_by_one_and_stay_on_the_list() {
    let mut state = ListState::default();
    step_up(&mut state, 4);
    assert_eq!(state.selected(), Some(0));
    step_up(&mut state, 4);
    assert_eq!(state.selected(), Some(0));
    step_down(&mut state, 4);
    assert_eq!(state.selected(), Some(1));
    step_down(&mut state, 4);
    step_down(&mut state, 4);
    assert_eq!(state.selected(), Some(3));
    step_down(&mut state, 4);
    assert_eq!(state.selected(), Some(3));
    step_up(&mut state, 4);
    assert_eq!(state.selected(), Some(2));
    step_up(&mut state, 2);
    assert_eq!(state.selected(), Some(1));
    state.select(Some(usize::MAX));
    step_down(&mut state, 5);
    assert_eq!(state.selected(), Some(4));
    step_down(&mut state, 0);
    assert_eq!(state.selected(), None);
    step_down(&mut state, 0);
    assert_eq!(state.selected(), None);
}

#[test]
fn characters_and_strings_convert_both_ways() {
    let chars = chars_of("a日é");
    assert_eq!(chars, vec!['a', '日', 'é']);
    assert_eq!(string_from(&chars, 0, 3), "a日é");
    assert_eq!(string_from(&chars, 1, 2), "日");
    assert_eq!(string_from(&chars, 2, 2), "");
    assert!(chars_of("").is_empty());
}
