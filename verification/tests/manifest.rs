use prags::app::App;
use prags::manifest::{split_at_gaps, split_lines, split_words};
use prags::prags::Project;

fn text(rows: &[Vec<char>]) -> Vec<String> {
    rows.iter().map(|r| r.iter().collect()).collect()
}

fn lines(content: &str) -> Vec<String> {
    text(&split_lines(&content.chars().collect()))
}

fn words(line: &str) -> Vec<String> {
    text(&split_words(&line.chars().collect()))
}

#[test]
fn lines_end_at_line_feeds() {
    assert_eq!(lines(""), Vec::<String>::new());
    assert_eq!(lines("a"), vec!["a"]);
    assert_eq!(lines("a\n"), vec!["a"]);
    assert_eq!(lines("a\nb"), vec!["a", "b"]);
    assert_eq!(lines("a\n\nb\n"), vec!["a", "", "b"]);
    assert_eq!(lines("\n"), vec![""]);
    assert_eq!(lines("\n\n"), vec!["", ""]);
}

#[test]
fn carriage_return_before_line_feed_is_dropped() {
    assert_eq!(lines("a\r\nb\r\n"), vec!["a", "b"]);
    assert_eq!(lines("a\r\r\n"), vec!["a\r"]);
    assert_eq!(lines("a\rb\n"), vec!["a\rb"]);
    assert_eq!(lines("a\r"), vec!["a\r"]);
    assert_eq!(lines("\r\n"), vec![""]);
}

#[test]
fn lines_agree_with_the_standard_library() {
    for content in ["", "\n", "a", "a\n", "a\r\n\r\nb", "x\ny\r", "\r", "one\ntwo\nthree\n\n"] {
        let expected: Vec<String> = content.lines().map(|l| l.to_string()).collect();
        assert_eq!(lines(content), expected);
    }
}

#[test]
fn words_are_runs_without_white_space() {
    assert_eq!(words(""), Vec::<String>::new());
    assert_eq!(words("   \t "), Vec::<String>::new());
    assert_eq!(words("name"), vec!["name"]);
    assert_eq!(words("name = \"x\""), vec!["name", "=", "\"x\""]);
    assert_eq!(words("  a\t\tb  c "), vec!["a", "b", "c"]);
    assert_eq!(words("a\u{a0}b\u{3000}c"), vec!["a", "b", "c"]);
}

#[test]
fn tags_follow_the_marker() {
    let project = Project::default();
    assert_eq!(project.get_tag_from_file("#-cli\n"), vec!["cli"]);
    assert_eq!(project.get_tag_from_file("#-cli"), vec!["cli"]);
    assert_eq!(project.get_tag_from_file("[package]\nname = \"x\"\n"), Vec::<String>::new());
    assert_eq!(project.get_tag_from_file(""), Vec::<String>::new());
}

#[test]
fn tags_are_lower_case_sorted_and_distinct() {
    let project = Project::default();
    let content = "#-Web\n#-cli\n[package]\n#-WEB\n#-async\n#-cli\n";
    assert_eq!(project.get_tag_from_file(content), vec!["async", "cli", "web"]);
}

#[test]
fn tag_is_everything_after_the_marker() {
    let project = Project::default();
    assert_eq!(project.get_tag_from_file("#- Two Words \n"), vec![" two words "]);
    assert_eq!(project.get_tag_from_file("#-a\r\n#-b\r\n"), vec!["a", "b"]);
    assert_eq!(project.get_tag_from_file("#--x\n"), vec!["-x"]);
    assert_eq!(project.get_tag_from_file("#-É\n"), vec!["é"]);
}

#[test]
fn marker_alone_or_out_of_place_declares_nothing() {
    let project = Project::default();
    assert_eq!(project.get_tag_from_file("#-\n"), Vec::<String>::new());
    assert_eq!(project.get_tag_from_file("#\n-\n"), Vec::<String>::new());
    assert_eq!(project.get_tag_from_file(" #-cli\n"), Vec::<String>::new());
    assert_eq!(project.get_tag_from_file("# -cli\n"), Vec::<String>::new());
    assert_eq!(project.get_tag_from_file("#cli\n"), Vec::<String>::new());
}

#[test]
fn name_is_the_third_word_of_the_name_line() {
    let project = Project::default();
    assert_eq!(project.name_from_file("[package]\nname = \"Alpha\"\nversion = \"1\"\n"), "alpha");
    assert_eq!(project.name_from_file("name = beta"), "beta");
    assert_eq!(project.name_from_file("  name\t=\t\"Ga\"mma\"  # note\n"), "gamma");
    assert_eq!(project.name_from_file("name is \"X Y\"\n"), "x");
}

#[test]
fn first_name_line_wins() {
    let project = Project::default();
    assert_eq!(project.name_from_file("name = \"one\"\nname = \"two\"\n"), "one");
    assert_eq!(project.name_from_file("names = \"zero\"\nname = \"one\"\n"), "one");
}

#[test]
fn missing_name_gives_none() {
    let project = Project::default();
    assert_eq!(project.name_from_file(""), "none");
    assert_eq!(project.name_from_file("[package]\nversion = \"1\"\n"), "none");
    assert_eq!(project.name_from_file("name=\"tight\"\n"), "none");
    assert_eq!(project.name_from_file("Name = \"upper\"\n"), "none");
}

#[test]
fn blank_and_short_name_lines_are_passed_over() {
    let project = Project::default();
    assert_eq!(project.name_from_file("   \n\t\nname = \"late\"\n"), "late");
    assert_eq!(project.name_from_file("name\nname =\nname = \"full\"\n"), "full");
    assert_eq!(project.name_from_file("name =\n"), "none");
}

#[test]
fn catalog_has_one_project_for_each_manifest() {
    let files = vec![
        (
            "/w/b/Cargo.toml".to_string(),
            "#-Web\n[package]\nname = \"Beta\"\n#-tool\n".to_string(),
        ),
        ("/w/a/Cargo.toml".to_string(), "[package]\nversion = \"0.1.0\"\n".to_string()),
    ];
    let projects = Project::default().get_all(files);
    assert_eq!(projects.len(), 2);
    assert_eq!(projects[0].path, "/w/b/Cargo.toml");
    assert_eq!(projects[0].name, "beta");
    assert_eq!(projects[0].tags, vec!["tool", "web"]);
    assert_eq!(projects[1].path, "/w/a/Cargo.toml");
    assert_eq!(projects[1].name, "none");
    assert!(projects[1].tags.is_empty());
    assert!(Project::default().get_all(Vec::new()).is_empty());
}

#[test]
fn session_loads_manifests() {
    let mut app = App::default();
    app.get_projects(vec![
        ("/w/b/Cargo.toml".to_string(), "name = \"beta\"\n#-web\n".to_string()),
        ("/w/a/Cargo.toml".to_string(), "name = \"alpha\"\n#-cli\n#-web\n".to_string()),
    ]);
    let names: Vec<&str> = app.visible_projects().iter().map(|p| p.name.as_str()).collect();
    assert_eq!(names, vec!["alpha", "beta"]);
    let tags: Vec<(&str, bool)> = app.tags().iter().map(|t| (t.0.as_str(), t.1)).collect();
    assert_eq!(tags, vec![("cli", false), ("web", false)]);
    assert_eq!(app.projects()[0].path, "/w/b/Cargo.toml");
}

#[test]
fn default_project_is_empty() {
    let project = Project::default();
    assert_eq!(project.path, "");
    assert_eq!(project.name, "");
    assert!(project.tags.is_empty());
}

#[test]
fn gaps_decide_where_words_end() {
    let line: Vec<char> = "a-b--c".chars().collect();
    let gaps: Vec<bool> = line.iter().map(|c| *c == '-').collect();
    assert_eq!(text(&split_at_gaps(&line, &gaps)), vec!["a", "b", "c"]);
    let none = vec![false; line.len()];
    assert_eq!(text(&split_at_gaps(&line, &none)), vec!["a-b--c"]);
    let all = vec![true; line.len()];
    assert!(split_at_gaps(&line, &all).is_empty());
    assert!(split_at_gaps(&Vec::new(), &Vec::new()).is_empty());
}
