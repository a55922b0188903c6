use prags::app::{Action, App, Event, KeyCode, KeyEvent, KeyEventKind, Select};
use prags::input::InputMode;
use prags::prags::Project;

const EDITING_HINT: &str = "Escape/Enter: exit typing";
const PROJECTS_HINT: &str =
    "j: down -- k: up -- Space/Enter: select & open zed -- q: exit -- c: clear -- l: goto tags";
const TAGS_HINT: &str =
    "j: down -- k: up -- Space: Toggle tag -- q: exit -- c: clear -- l: goto projects";

fn entry(path: &str, name: &str, tags: &[&str]) -> Project {
    Project {
        path: path.to_string(),
        name: name.to_string(),
        tags: tags.iter().map(|t| t.to_string()).collect(),
    }
}

fn session() -> App {
    let mut app = App::default();
    app.set_projects(vec![
        entry("/work/alpha/Cargo.toml", "alpha", &["cli"]),
        entry("/work/beta/Cargo.toml", "beta", &["web"]),
        entry("/work/gamma/Cargo.toml", "gamma", &["cli", "web"]),
    ]);
    app.set_mode("projects");
    app
}

fn key(app: &mut App, code: KeyCode) -> Action {
    app.handle_key_event(KeyEvent { code, kind: KeyEventKind::Press })
}

fn flags(app: &App) -> Vec<bool> {
    app.tags().iter().map(|t| t.1).collect()
}

#[test]
fn session_starts_with_defaults() {
    let app = App::default();
    assert_eq!(app.controls().as_str(), "");
    assert!(app.projects().is_empty());
    assert!(app.tags().is_empty());
    assert_eq!(app.project_cursor(), None);
    assert_eq!(app.tag_cursor(), None);
    assert_eq!(app.input().text().as_str(), "");
    assert_eq!(app.input().mode(), InputMode::Normal);
    assert_eq!(app.selected(), Select::Projects);
    assert!(!app.should_exit());
}

#[test]
fn set_mode_shows_the_help_line_by_name() {
    let mut app = App::default();
    app.set_mode("editing");
    assert_eq!(app.controls().as_str(), EDITING_HINT);
    app.set_mode("projects");
    assert_eq!(app.controls().as_str(), PROJECTS_HINT);
    app.set_mode("tags");
    assert_eq!(app.controls().as_str(), TAGS_HINT);
    app.set_mode("unknown");
    assert_eq!(app.controls().as_str(), TAGS_HINT);
    app.set_mode("");
    assert_eq!(app.controls().as_str(), TAGS_HINT);
}

#[test]
fn space_in_tags_panel_selects_first_tag() {
    let mut app = session();
    key(&mut app, KeyCode::Char('l'));
    assert_eq!(app.selected(), Select::Tags);
    assert_eq!(app.tag_cursor(), None);
    let action = key(&mut app, KeyCode::Char(' '));
    assert_eq!(action, Action::Nothing);
    assert_eq!(app.tag_cursor(), Some(0));
    assert_eq!(flags(&app), vec![true, false]);
    assert!(!app.should_exit());
}

#[test]
fn enter_on_a_project_launches_its_directory_and_ends() {
    let mut app = App::default();
    app.set_projects(vec![entry("/x/y/Cargo.toml", "only", &[])]);
    key(&mut app, KeyCode::Char('j'));
    assert_eq!(app.project_cursor(), Some(0));
    let action = key(&mut app, KeyCode::Enter);
    assert_eq!(action, Action::Launch("/x/y".to_string()));
    assert!(app.should_exit());
}

#[test]
fn space_on_a_project_launches_too() {
    let mut app = session();
    key(&mut app, KeyCode::Char('j'));
    key(&mut app, KeyCode::Char('j'));
    let action = key(&mut app, KeyCode::Char(' '));
    assert_eq!(action, Action::Launch("/work/beta".to_string()));
    assert!(app.should_exit());
}

#[test]
fn launch_follows_the_list_as_shown() {
    let mut app = session();
    key(&mut app, KeyCode::Char('i'));
    key(&mut app, KeyCode::Char('m'));
    key(&mut app, KeyCode::Esc);
    key(&mut app, KeyCode::Char('j'));
    let action = key(&mut app, KeyCode::Enter);
    assert_eq!(action, Action::Launch("/work/gamma".to_string()));
}

#[test]
fn launch_without_cursor_or_on_empty_list_does_nothing() {
    let mut app = session();
    assert_eq!(key(&mut app, KeyCode::Enter), Action::Nothing);
    assert_eq!(key(&mut app, KeyCode::Char(' ')), Action::Nothing);
    assert!(!app.should_exit());

    key(&mut app, KeyCode::Char('j'));
    key(&mut app, KeyCode::Char('i'));
    key(&mut app, KeyCode::Char('z'));
    key(&mut app, KeyCode::Esc);
    assert!(app.visible_projects().is_empty());
    assert_eq!(app.project_cursor(), None);
    assert_eq!(key(&mut app, KeyCode::Enter), Action::Nothing);
    assert!(!app.should_exit());
}

#[test]
fn launch_of_a_manifest_without_parent_does_nothing() {
    let mut app = App::default();
    app.set_projects(vec![entry("", "rootless", &[])]);
    key(&mut app, KeyCode::Char('j'));
    assert_eq!(app.project_cursor(), Some(0));
    assert_eq!(key(&mut app, KeyCode::Enter), Action::Nothing);
    assert!(!app.should_exit());
}

#[test]
fn enter_in_tags_panel_does_nothing() {
    let mut app = session();
    key(&mut app, KeyCode::Char('j'));
    key(&mut app, KeyCode::Char('l'));
    assert_eq!(key(&mut app, KeyCode::Enter), Action::Nothing);
    assert!(!app.should_exit());
    assert_eq!(flags(&app), vec![false, false]);
}

#[test]
fn q_ends_the_session_from_either_panel_without_launch() {
    let mut app = session();
    key(&mut app, KeyCode::Char('j'));
    assert_eq!(key(&mut app, KeyCode::Char('q')), Action::Nothing);
    assert!(app.should_exit());

    let mut app = session();
    key(&mut app, KeyCode::Char('l'));
    assert_eq!(key(&mut app, KeyCode::Char('q')), Action::Nothing);
    assert!(app.should_exit());
}

#[test]
fn q_while_editing_is_typed() {
    let mut app = session();
    key(&mut app, KeyCode::Char('i'));
    assert_eq!(key(&mut app, KeyCode::Char('q')), Action::Nothing);
    assert!(!app.should_exit());
    assert_eq!(app.input().text().as_str(), "q");
}

#[test]
fn editing_keys_edit_the_query() {
    let mut app = session();
    key(&mut app, KeyCode::Char('i'));
    assert_eq!(app.input().mode(), InputMode::Editing);
    assert_eq!(app.controls().as_str(), EDITING_HINT);
    for c in "beta".chars() {
        key(&mut app, KeyCode::Char(c));
    }
    key(&mut app, KeyCode::Left);
    key(&mut app, KeyCode::Left);
    key(&mut app, KeyCode::Backspace);
    assert_eq!(app.input().text().as_str(), "bta");
    assert_eq!(app.input().cursor(), 1);
    key(&mut app, KeyCode::Right);
    key(&mut app, KeyCode::Right);
    key(&mut app, KeyCode::Right);
    assert_eq!(app.input().cursor(), 3);
    key(&mut app, KeyCode::Other);
    assert_eq!(app.input().text().as_str(), "bta");
    assert_eq!(app.input().mode(), InputMode::Editing);
}

#[test]
fn escape_and_enter_leave_editing_and_keep_the_panel() {
    let mut app = session();
    key(&mut app, KeyCode::Char('i'));
    key(&mut app, KeyCode::Esc);
    assert_eq!(app.input().mode(), InputMode::Normal);
    assert_eq!(app.selected(), Select::Projects);
    assert_eq!(app.controls().as_str(), PROJECTS_HINT);

    key(&mut app, KeyCode::Char('l'));
    assert_eq!(app.controls().as_str(), TAGS_HINT);
    key(&mut app, KeyCode::Char('i'));
    assert_eq!(app.selected(), Select::Tags);
    assert_eq!(app.controls().as_str(), EDITING_HINT);
    assert_eq!(key(&mut app, KeyCode::Enter), Action::Nothing);
    assert_eq!(app.input().mode(), InputMode::Normal);
    assert_eq!(app.selected(), Select::Tags);
    assert_eq!(app.controls().as_str(), TAGS_HINT);
    assert!(!app.should_exit());
}

#[test]
fn h_and_l_switch_the_panel() {
    let mut app = session();
    key(&mut app, KeyCode::Char('l'));
    assert_eq!(app.selected(), Select::Tags);
    assert_eq!(app.controls().as_str(), TAGS_HINT);
    key(&mut app, KeyCode::Char('l'));
    assert_eq!(app.selected(), Select::Tags);
    key(&mut app, KeyCode::Char('h'));
    assert_eq!(app.selected(), Select::Projects);
    assert_eq!(app.controls().as_str(), PROJECTS_HINT);
}

#[test]
fn c_clears_query_and_flags_and_is_idempotent() {
    let mut app = session();
    key(&mut app, KeyCode::Char('i'));
    key(&mut app, KeyCode::Char('a'));
    key(&mut app, KeyCode::Esc);
    key(&mut app, KeyCode::Char('l'));
    key(&mut app, KeyCode::Char(' '));
    key(&mut app, KeyCode::Char('j'));
    key(&mut app, KeyCode::Char(' '));
    assert_eq!(flags(&app), vec![true, true]);

    key(&mut app, KeyCode::Char('c'));
    assert_eq!(app.input().text().as_str(), "");
    assert_eq!(app.input().cursor(), 0);
    assert_eq!(flags(&app), vec![false, false]);
    assert_eq!(app.selected(), Select::Tags);
    assert_eq!(app.input().mode(), InputMode::Normal);
    assert_eq!(app.tag_cursor(), Some(1));
    assert_eq!(app.visible_projects().len(), 3);

    key(&mut app, KeyCode::Char('c'));
    assert_eq!(app.input().text().as_str(), "");
    assert_eq!(app.input().cursor(), 0);
    assert_eq!(flags(&app), vec![false, false]);
    assert_eq!(app.selected(), Select::Tags);
    assert_eq!(app.tag_cursor(), Some(1));
    assert_eq!(app.visible_projects().len(), 3);
}

#[test]
fn toggling_a_tag_twice_restores_its_flag() {
    let mut app = session();
    key(&mut app, KeyCode::Char('l'));
    key(&mut app, KeyCode::Char('j'));
    key(&mut app, KeyCode::Char('j'));
    key(&mut app, KeyCode::Char(' '));
    assert_eq!(flags(&app), vec![false, true]);
    key(&mut app, KeyCode::Char(' '));
    assert_eq!(flags(&app), vec![false, false]);
    key(&mut app, KeyCode::Char('k'));
    key(&mut app, KeyCode::Char(' '));
    key(&mut app, KeyCode::Char(' '));
    assert_eq!(flags(&app), vec![false, false]);
}

#[test]
fn toggle_on_an_empty_registry_does_nothing() {
    let mut app = App::default();
    key(&mut app, KeyCode::Char('l'));
    assert_eq!(key(&mut app, KeyCode::Char(' ')), Action::Nothing);
    assert_eq!(app.tag_cursor(), None);
    assert!(app.tags().is_empty());
}

#[test]
fn first_move_selects_the_first_row_in_either_direction() {
    let mut app = session();
    key(&mut app, KeyCode::Char('k'));
    assert_eq!(app.project_cursor(), Some(0));
    let mut app = session();
    key(&mut app, KeyCode::Char('j'));
    assert_eq!(app.project_cursor(), Some(0));
    let mut app = session();
    key(&mut app, KeyCode::Char('l'));
    key(&mut app, KeyCode::Char('k'));
    assert_eq!(app.tag_cursor(), Some(0));
    assert_eq!(app.project_cursor(), None);
}

#[test]
fn cursors_stop_at_both_ends() {
    let mut app = session();
    for _ in 0..5 {
        key(&mut app, KeyCode::Char('j'));
    }
    assert_eq!(app.project_cursor(), Some(2));
    key(&mut app, KeyCode::Char('k'));
    assert_eq!(app.project_cursor(), Some(1));
    for _ in 0..5 {
        key(&mut app, KeyCode::Char('k'));
    }
    assert_eq!(app.project_cursor(), Some(0));

    key(&mut app, KeyCode::Char('l'));
    for _ in 0..4 {
        key(&mut app, KeyCode::Char('j'));
    }
    assert_eq!(app.tag_cursor(), Some(1));
    for _ in 0..4 {
        key(&mut app, KeyCode::Char('k'));
    }
    assert_eq!(app.tag_cursor(), Some(0));
    assert_eq!(app.project_cursor(), Some(0));
}

#[test]
fn moving_on_an_empty_list_selects_nothing() {
    let mut app = App::default();
    key(&mut app, KeyCode::Char('j'));
    assert_eq!(app.project_cursor(), None);
    key(&mut app, KeyCode::Char('k'));
    assert_eq!(app.project_cursor(), None);
    key(&mut app, KeyCode::Char('l'));
    key(&mut app, KeyCode::Char('j'));
    assert_eq!(app.tag_cursor(), None);
}

#[test]
fn cursor_follows_the_list_when_it_shrinks() {
    let mut app = session();
    for _ in 0..3 {
        key(&mut app, KeyCode::Char('j'));
    }
    assert_eq!(app.project_cursor(), Some(2));
    key(&mut app, KeyCode::Char('i'));
    key(&mut app, KeyCode::Char('a'));
    assert_eq!(app.visible_projects().len(), 3);
    assert_eq!(app.project_cursor(), Some(2));
    key(&mut app, KeyCode::Char('l'));
    assert_eq!(app.visible_projects().len(), 1);
    assert_eq!(app.project_cursor(), Some(0));
    key(&mut app, KeyCode::Char('x'));
    assert!(app.visible_projects().is_empty());
    assert_eq!(app.project_cursor(), None);
    key(&mut app, KeyCode::Backspace);
    key(&mut app, KeyCode::Backspace);
    assert_eq!(app.visible_projects().len(), 3);
    assert_eq!(app.project_cursor(), None);
}

#[test]
fn cursor_follows_the_list_when_a_tag_is_selected() {
    let mut app = session();
    for _ in 0..3 {
        key(&mut app, KeyCode::Char('j'));
    }
    assert_eq!(app.project_cursor(), Some(2));
    key(&mut app, KeyCode::Char('l'));
    key(&mut app, KeyCode::Char(' '));
    assert_eq!(app.visible_projects().len(), 2);
    assert_eq!(app.project_cursor(), Some(1));
    key(&mut app, KeyCode::Char('h'));
    let action = key(&mut app, KeyCode::Enter);
    assert_eq!(action, Action::Launch("/work/gamma".to_string()));
}

#[test]
fn only_key_presses_count() {
    let mut app = session();
    let held = Event::Key(KeyEvent { code: KeyCode::Char('q'), kind: KeyEventKind::Repeat });
    let up = Event::Key(KeyEvent { code: KeyCode::Char('q'), kind: KeyEventKind::Release });
    assert_eq!(app.handle_events(up), Action::Nothing);
    assert_eq!(app.handle_events(held), Action::Nothing);
    assert_eq!(app.handle_events(Event::Other), Action::Nothing);
    assert!(!app.should_exit());
    assert_eq!(app.project_cursor(), None);
    let down = Event::Key(KeyEvent { code: KeyCode::Char('j'), kind: KeyEventKind::Press });
    assert_eq!(app.handle_events(down), Action::Nothing);
    assert_eq!(app.project_cursor(), Some(0));
    let enter = Event::Key(KeyEvent { code: KeyCode::Enter, kind: KeyEventKind::Release });
    assert_eq!(app.handle_events(enter), Action::Nothing);
    assert!(!app.should_exit());
    let enter = Event::Key(KeyEvent { code: KeyCode::Enter, kind: KeyEventKind::Press });
    assert_eq!(app.handle_events(enter), Action::Launch("/work/alpha".to_string()));
    assert!(app.should_exit());
}

#[test]
fn unknown_keys_change_nothing_while_navigating() {
    let mut app = session();
    key(&mut app, KeyCode::Char('j'));
    for code in [
        KeyCode::Char('x'),
        KeyCode::Esc,
        KeyCode::Backspace,
        KeyCode::Left,
        KeyCode::Right,
        KeyCode::Other,
    ] {
        assert_eq!(key(&mut app, code), Action::Nothing);
    }
    assert_eq!(app.project_cursor(), Some(0));
    assert_eq!(app.input().text().as_str(), "");
    assert_eq!(app.selected(), Select::Projects);
    assert!(!app.should_exit());
    assert_eq!(app.controls().as_str(), PROJECTS_HINT);
}

#[test]
fn registry_holds_each_tag_once_in_order() {
    let mut app = App::default();
    app.set_projects(vec![
        entry("/w/1/Cargo.toml", "one", &["web", "cli"]),
        entry("/w/2/Cargo.toml", "two", &["rust", "cli"]),
        entry("/w/3/Cargo.toml", "three", &[]),
        entry("/w/4/Cargo.toml", "four", &["async", "web"]),
    ]);
    let tags: Vec<(&str, bool)> = app.tags().iter().map(|t| (t.0.as_str(), t.1)).collect();
    assert_eq!(
        tags,
        vec![("async", false), ("cli", false), ("rust", false), ("web", false)]
    );
    assert_eq!(app.projects().len(), 4);
    assert_eq!(app.projects()[0].name, "one");
}

#[test]
fn labels_show_boxes_and_directories() {
    let mut app = session();
    assert_eq!(
        app.project_labels(),
        vec!["alpha  --  (alpha)", "beta  --  (beta)", "gamma  --  (gamma)"]
    );
    assert_eq!(app.tag_labels(), vec![" [ ] cli", " [ ] web"]);
    key(&mut app, KeyCode::Char('l'));
    key(&mut app, KeyCode::Char('j'));
    key(&mut app, KeyCode::Char('j'));
    key(&mut app, KeyCode::Char(' '));
    assert_eq!(app.tag_labels(), vec![" [ ] cli", " [X] web"]);
    assert_eq!(app.project_labels(), vec!["beta  --  (beta)", "gamma  --  (gamma)"]);
}

#[test]
fn label_of_a_project_without_directory_name_has_empty_brackets() {
    let rootless = entry("/Cargo.toml", "top", &[]);
    assert_eq!(rootless.label(), "top  --  ()");
    let bare = entry("", "bare", &[]);
    assert_eq!(bare.label(), "bare  --  ()");
    let nested = entry("/x/y/Cargo.toml", "deep", &[]);
    assert_eq!(nested.label(), "deep  --  (y)");
}

#[test]
fn loading_a_smaller_catalog_brings_the_cursors_back() {
    let mut app = session();
    for _ in 0..3 {
        key(&mut app, KeyCode::Char('j'));
    }
    key(&mut app, KeyCode::Char('l'));
    key(&mut app, KeyCode::Char('j'));
    key(&mut app, KeyCode::Char('j'));
    assert_eq!(app.project_cursor(), Some(2));
    assert_eq!(app.tag_cursor(), Some(1));
    app.set_projects(vec![entry("/w/solo/Cargo.toml", "solo", &[])]);
    assert_eq!(app.project_cursor(), Some(0));
    assert_eq!(app.tag_cursor(), None);
    assert_eq!(app.selected(), Select::Tags);
}

#[test]
fn launch_ends_the_session_only_with_a_directory() {
    let mut app = session();
    assert_eq!(app.launch(None), Action::Nothing);
    assert!(!app.should_exit());
    assert_eq!(app.launch(Some("/any/where".to_string())), Action::Launch("/any/where".to_string()));
    assert!(app.should_exit());
}

#[test]
fn selected_manifest_is_the_one_under_the_cursor() {
    let mut app = session();
    assert_eq!(app.selected_manifest(), None);
    key(&mut app, KeyCode::Char('j'));
    key(&mut app, KeyCode::Char('j'));
    assert_eq!(app.selected_manifest().map(|p| p.as_str()), Some("/work/beta/Cargo.toml"));
    key(&mut app, KeyCode::Char('i'));
    key(&mut app, KeyCode::Char('g'));
    assert_eq!(app.selected_manifest().map(|p| p.as_str()), Some("/work/gamma/Cargo.toml"));
    key(&mut app, KeyCode::Char('g'));
    assert_eq!(app.selected_manifest(), None);
}

#[test]
fn label_puts_the_directory_in_brackets() {
    let project = entry("/x/y/Cargo.toml", "deep", &[]);
    assert_eq!(project.directory_name(), "y");
    assert_eq!(project.label_in("elsewhere"), "deep  --  (elsewhere)");
    assert_eq!(project.label_in(""), "deep  --  ()");
    assert_eq!(entry("Cargo.toml", "flat", &[]).directory_name(), "");
    assert_eq!(entry("/x/../Cargo.toml", "dots", &[]).directory_name(), "");
    assert_eq!(entry("/x/y/z/", "slash", &[]).directory_name(), "y");
}
