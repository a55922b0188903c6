//! The session: its state, and what each key does to it.

use crate::cursor::{
    clamp_selection, clamp_to, cursor_of, next_of, previous_of, step_down, step_up,
};
use crate::filter::{borrowed_views, visible, visible_projects};
use crate::input::{InputField, InputMode, InputView};
use crate::prags::{is_catalog_of, project_label, project_views, Project, ProjectView};
use crate::tags::{
    build_registry, deselect_all, deselected, is_registry_of, lemma_deselected, lemma_toggle_twice,
    tag_label, tag_labels, tag_names, tags_view, toggle, toggled, TagsView,
};
use crate::text::{parent_of, path_parent, str_eq};
use ratatui::widgets::ListState;
use vstd::prelude::*;
use vstd::string::StringExecFns;

verus! {

/// The help line while the query is edited.
pub const EDITING_HINT: &'static str = "Escape/Enter: exit typing";

/// The help line of the projects panel.
pub const PROJECTS_HINT: &'static str =
    "j: down -- k: up -- Space/Enter: select & open zed -- q: exit -- c: clear -- l: goto tags";

/// The help line of the tags panel.
pub const TAGS_HINT: &'static str =
    "j: down -- k: up -- Space: Toggle tag -- q: exit -- c: clear -- l: goto projects";

/// The panel that the navigation keys act on.
#[derive(Debug, Clone, Copy, PartialEq, Eq, Structural)]
pub enum Select {
    Projects,
    Tags,
}

/// A key, as far as the session tells keys apart.
#[derive(Debug, Clone, Copy, PartialEq, Eq)]
pub enum KeyCode {
    Char(char),
    Enter,
    Esc,
    Backspace,
    Left,
    Right,
    Other,
}

/// Whether a key went down, is held, or came up.
#[derive(Debug, Clone, Copy, PartialEq, Eq, Structural)]
pub enum KeyEventKind {
    Press,
    Repeat,
    Release,
}

/// One report from the keyboard.
#[derive(Debug, Clone, Copy, PartialEq, Eq)]
pub struct KeyEvent {
    pub code: KeyCode,
    pub kind: KeyEventKind,
}

/// One report from the terminal.
#[derive(Debug, Clone, Copy, PartialEq, Eq)]
pub enum Event {
    Key(KeyEvent),
    Other,
}

/// What the caller is to do after a key was handled.
#[derive(Debug, Clone, PartialEq, Eq)]
pub enum Action {
    /// Nothing but to draw the next frame.
    Nothing,
    /// Open the editor on this directory.
    Launch(String),
}

impl View for Action {
    type V = Option<Seq<char>>;

    open spec fn view(&self) -> Option<Seq<char>> {
        match self {
            Action::Nothing => None,
            Action::Launch(directory) => Some(directory@),
        }
    }
}

/// The session as a value.
pub struct AppView {
    /// The help line.
    pub controls: Seq<char>,
    /// The catalog, in the order of discovery.
    pub projects: Seq<ProjectView>,
    /// The tag registry.
    pub tags: TagsView,
    /// The selected row of the list of projects as shown.
    pub project_cursor: Option<nat>,
    /// The selected row of the registry.
    pub tag_cursor: Option<nat>,
    /// The query line.
    pub input: InputView,
    /// The active panel.
    pub selected: Select,
    /// Whether the session is over.
    pub exit: bool,
}

/// The name under which `set_mode` knows the help line of a panel.
pub open spec fn mode_name(panel: Select) -> Seq<char> {
    match panel {
        Select::Projects => "projects"@,
        Select::Tags => "tags"@,
    }
}

impl AppView {
    /// The session as it starts: nothing loaded, nothing typed, nothing
    /// selected, the projects panel active.
    pub open spec fn initial() -> AppView {
        AppView {
            controls: Seq::empty(),
            projects: Seq::empty(),
            tags: Seq::empty(),
            project_cursor: None,
            tag_cursor: None,
            input: InputView::empty(InputMode::Normal),
            selected: Select::Projects,
            exit: false,
        }
    }

    /// The list of projects as shown.
    pub open spec fn listed(self) -> Seq<ProjectView> {
        visible(self.projects, self.input.text, self.tags)
    }

    /// Each cursor, where there is one, points at a row of its list as
    /// shown, and the query line is well formed.
    pub open spec fn wf(self) -> bool {
        &&& self.input.wf()
        &&& self.project_cursor matches Some(i) ==> i < self.listed().len()
        &&& self.tag_cursor matches Some(i) ==> i < self.tags.len()
    }

    /// The session with both cursors brought back onto their lists.
    pub open spec fn settle(self) -> AppView {
        AppView {
            project_cursor: clamp_to(self.project_cursor, self.listed().len()),
            tag_cursor: clamp_to(self.tag_cursor, self.tags.len()),
            ..self
        }
    }

    /// The session with the help line that goes by the name `mode`; an
    /// unknown name changes nothing.
    pub open spec fn set_mode(self, mode: Seq<char>) -> AppView {
        if mode == "editing"@ {
            AppView { controls: EDITING_HINT@, ..self }
        } else if mode == "projects"@ {
            AppView { controls: PROJECTS_HINT@, ..self }
        } else if mode == "tags"@ {
            AppView { controls: TAGS_HINT@, ..self }
        } else {
            self
        }
    }

    /// The path of the manifest of the project under the cursor; none
    /// without a cursor on the list as shown.
    pub open spec fn selected_manifest(self) -> Option<Seq<char>> {
        match self.project_cursor {
            Some(i) => if i < self.listed().len() {
                Some(self.listed()[i as int].path)
            } else {
                None
            },
            None => None,
        }
    }

    /// The directory to open: the parent of the manifest of the project
    /// under the cursor. There is none without a cursor on the list, or
    /// where the manifest's path has no parent.
    pub open spec fn launch_directory(self) -> Option<Seq<char>> {
        match self.selected_manifest() {
            Some(path) => path_parent(path),
            None => None,
        }
    }

    /// The session after a launch in the given directory: over if there is
    /// one, unchanged otherwise.
    pub open spec fn launch(self, directory: Option<Seq<char>>) -> AppView {
        if directory is Some {
            AppView { exit: true, ..self }
        } else {
            self
        }
    }

    /// The session after a request to launch: over if there is a directory
    /// to open, unchanged otherwise.
    pub open spec fn open_zed(self) -> AppView {
        self.launch(self.launch_directory())
    }

    /// The session after toggling the tag under the cursor, where a missing
    /// cursor counts as one on the first tag. An empty registry, or a cursor
    /// off the registry, changes nothing.
    pub open spec fn toggle_tag(self) -> AppView {
        let row = match self.tag_cursor {
            Some(i) => i,
            None => 0,
        };
        if row < self.tags.len() {
            AppView { tags: toggled(self.tags, row as int), tag_cursor: Some(row), ..self }
        } else {
            self
        }
    }

    /// The session with the query emptied and no tag selected.
    pub open spec fn clear(self) -> AppView {
        AppView { tags: deselected(self.tags), input: self.input.clear(), ..self }
    }

    /// The session with the cursor of the active panel one row down.
    pub open spec fn move_down(self) -> AppView {
        match self.selected {
            Select::Projects => AppView {
                project_cursor: clamp_to(next_of(self.project_cursor), self.listed().len()),
                ..self
            },
            Select::Tags => AppView {
                tag_cursor: clamp_to(next_of(self.tag_cursor), self.tags.len()),
                ..self
            },
        }
    }

    /// The session with the cursor of the active panel one row up.
    pub open spec fn move_up(self) -> AppView {
        match self.selected {
            Select::Projects => AppView {
                project_cursor: clamp_to(previous_of(self.project_cursor), self.listed().len()),
                ..self
            },
            Select::Tags => AppView {
                tag_cursor: clamp_to(previous_of(self.tag_cursor), self.tags.len()),
                ..self
            },
        }
    }

    /// What a key does while the query is edited, before the cursors are
    /// brought back onto their lists.
    pub open spec fn press_editing(self, code: KeyCode) -> AppView {
        match code {
            KeyCode::Esc | KeyCode::Enter => AppView {
                input: self.input.with_mode(InputMode::Normal),
                ..self
            }.set_mode(mode_name(self.selected)),
            KeyCode::Char(c) => AppView { input: self.input.insert(c), ..self },
            KeyCode::Backspace => AppView { input: self.input.delete_before_cursor(), ..self },
            KeyCode::Right => AppView { input: self.input.move_right(), ..self },
            KeyCode::Left => AppView { input: self.input.move_left(), ..self },
            KeyCode::Other => self,
        }
    }

    /// What a key does while the lists are navigated, before the cursors
    /// are brought back onto their lists.
    pub open spec fn press_normal(self, code: KeyCode) -> AppView {
        match code {
            KeyCode::Char(c) => if c == 'j' {
                self.move_down()
            } else if c == 'k' {
                self.move_up()
            } else if c == ' ' {
                match self.selected {
                    Select::Projects => self.open_zed(),
                    Select::Tags => self.toggle_tag(),
                }
            } else if c == 'i' {
                AppView { input: self.input.with_mode(InputMode::Editing), ..self }.set_mode(
                    "editing"@,
                )
            } else if c == 'q' {
                AppView { exit: true, ..self }
            } else if c == 'c' {
                self.clear()
            } else if c == 'h' {
                AppView { selected: Select::Projects, ..self }.set_mode("projects"@)
            } else if c == 'l' {
                AppView { selected: Select::Tags, ..self }.set_mode("tags"@)
            } else {
                self
            },
            KeyCode::Enter => match self.selected {
                Select::Projects => self.open_zed(),
                Select::Tags => self,
            },
            _ => self,
        }
    }

    /// The session after a key press.
    pub open spec fn press(self, code: KeyCode) -> AppView {
        match self.input.mode {
            InputMode::Editing => self.press_editing(code),
            InputMode::Normal => self.press_normal(code),
        }.settle()
    }

    /// The directory that a key press asks the caller to open, if any: the
    /// one under the cursor, on Space or Enter in the projects panel while
    /// navigating.
    pub open spec fn launched(self, code: KeyCode) -> Option<Seq<char>> {
        if self.input.mode == InputMode::Normal && self.selected == Select::Projects && (code
            == KeyCode::Char(' ') || code == KeyCode::Enter) {
            self.launch_directory()
        } else {
            None
        }
    }

    /// The session after a report from the terminal: only key presses count.
    pub open spec fn handle(self, event: Event) -> AppView {
        match event {
            Event::Key(key) => if key.kind == KeyEventKind::Press {
                self.press(key.code)
            } else {
                self
            },
            Event::Other => self,
        }
    }

    /// The directory that a report from the terminal asks the caller to
    /// open, if any.
    pub open spec fn requested(self, event: Event) -> Option<Seq<char>> {
        match event {
            Event::Key(key) => if key.kind == KeyEventKind::Press {
                self.launched(key.code)
            } else {
                None
            },
            Event::Other => None,
        }
    }
}

/// The state of one session.
#[derive(Debug)]
pub struct App {
    controls: String,
    projects: Vec<Project>,
    tags: Vec<(String, bool)>,
    proj_list_state: ListState,
    tags_list_state: ListState,
    input: InputField,
    selected: Select,
    exit: bool,
}

impl View for App {
    type V = AppView;

    closed spec fn view(&self) -> AppView {
        AppView {
            controls: self.controls@,
            projects: project_views(self.projects@),
            tags: tags_view(self.tags@),
            project_cursor: cursor_of(self.proj_list_state),
            tag_cursor: cursor_of(self.tags_list_state),
            input: self.input@,
            selected: self.selected,
            exit: self.exit,
        }
    }
}

impl Default for App {
    fn default() -> (app: App)
        ensures
            app@ == AppView::initial(),
            app@.wf(),
    {
        let app = App {
            controls: String::new(),
            projects: Vec::new(),
            tags: Vec::new(),
            proj_list_state: ListState::default(),
            tags_list_state: ListState::default(),
            input: InputField::default(),
            selected: Select::Projects,
            exit: false,
        };
        assert(project_views(app.projects@) =~= Seq::<ProjectView>::empty());
        assert(tags_view(app.tags@) =~= Seq::empty());
        app
    }
}

impl App {
    /// Shows the help line that goes by the name `mode`: `"editing"`,
    /// `"projects"` or `"tags"`. Any other name changes nothing.
    pub fn set_mode(&mut self, mode: &str)
        ensures
            final(self)@ == old(self)@.set_mode(mode@),
    {
        if str_eq(mode, "editing") {
            self.controls = String::from_str(EDITING_HINT);
        } else if str_eq(mode, "projects") {
            self.controls = String::from_str(PROJECTS_HINT);
        } else if str_eq(mode, "tags") {
            self.controls = String::from_str(TAGS_HINT);
        }
    }

    /// Loads the catalog of the given manifests, each handed over as its
    /// path and its text, and builds its tag registry. The cursors are
    /// brought back onto the new lists; the rest of the session stays.
    pub fn get_projects(&mut self, files: Vec<(String, String)>)
        ensures
            is_catalog_of(final(self)@.projects, files@),
            is_registry_of(final(self)@.tags, final(self)@.projects),
            final(self)@ == (AppView {
                projects: final(self)@.projects,
                tags: final(self)@.tags,
                ..old(self)@
            }).settle(),
            final(self)@.wf(),
    {
        let projects = Project::default().get_all(files);
        self.set_projects(projects);
    }

    /// Takes over a catalog and builds its tag registry. The cursors are
    /// brought back onto the new lists; the rest of the session stays.
    pub fn set_projects(&mut self, projects: Vec<Project>)
        ensures
            final(self)@.projects == project_views(projects@),
            is_registry_of(final(self)@.tags, final(self)@.projects),
            final(self)@ == (AppView {
                projects: final(self)@.projects,
                tags: final(self)@.tags,
                ..old(self)@
            }).settle(),
            final(self)@.wf(),
    {
        self.tags = build_registry(&projects);
        self.projects = projects;
        self.settle();
    }

    /// The help line.
    pub fn controls(&self) -> (controls: &String)
        ensures
            controls@ == self@.controls,
    {
        &self.controls
    }

    /// The catalog, in the order of discovery.
    pub fn projects(&self) -> (projects: &Vec<Project>)
        ensures
            project_views(projects@) == self@.projects,
    {
        &self.projects
    }

    /// The tag registry.
    pub fn tags(&self) -> (tags: &Vec<(String, bool)>)
        ensures
            tags_view(tags@) == self@.tags,
    {
        &self.tags
    }

    /// The selected row of the list of projects as shown.
    pub fn project_cursor(&self) -> (cursor: Option<usize>)
        ensures
            cursor is Some <==> self@.project_cursor is Some,
            cursor matches Some(i) ==> self@.project_cursor == Some(i as nat),
    {
        self.proj_list_state.selected()
    }

    /// The selected row of the registry.
    pub fn tag_cursor(&self) -> (cursor: Option<usize>)
        ensures
            cursor is Some <==> self@.tag_cursor is Some,
            cursor matches Some(i) ==> self@.tag_cursor == Some(i as nat),
    {
        self.tags_list_state.selected()
    }

    /// The query line.
    pub fn input(&self) -> (input: &InputField)
        ensures
            input@ == self@.input,
    {
        &self.input
    }

    /// The active panel.
    pub fn selected(&self) -> (panel: Select)
        ensures
            panel == self@.selected,
    {
        self.selected
    }

    /// Whether the session is over.
    pub fn should_exit(&self) -> (over: bool)
        ensures
            over == self@.exit,
    {
        self.exit
    }

    /// The list of projects as shown.
    pub fn visible_projects(&self) -> (list: Vec<&Project>)
        ensures
            borrowed_views(list@) == self@.listed(),
    {
        visible_projects(&self.projects, self.input.text().as_str(), &self.tags)
    }

    /// The lines shown for the projects, in the order of the list.
    pub fn project_labels(&self) -> (labels: Vec<String>)
        ensures
            labels.len() == self@.listed().len(),
            forall|i: int|
                0 <= i < labels.len() ==> (#[trigger] labels@[i])@ == project_label(
                    self@.listed()[i],
                ),
    {
        let list = self.visible_projects();
        let mut labels: Vec<String> = Vec::new();
        let mut i: usize = 0;
        while i < list.len()
            invariant
                i <= list.len(),
                labels.len() == i,
                borrowed_views(list@) == self@.listed(),
                forall|k: int|
                    0 <= k < i ==> (#[trigger] labels@[k])@ == project_label(self@.listed()[k]),
            decreases list.len() - i,
        {
            assert(list@[i as int]@ == borrowed_views(list@)[i as int]);
            labels.push(list[i].label());
            i += 1;
        }
        labels
    }

    /// The lines shown for the tags, in registry order.
    pub fn tag_labels(&self) -> (labels: Vec<String>)
        ensures
            labels.len() == self@.tags.len(),
            forall|i: int|
                0 <= i < labels.len() ==> (#[trigger] labels@[i])@ == tag_label(self@.tags[i]),
    {
        tag_labels(&self.tags)
    }

    /// Brings both cursors back onto their lists as shown.
    fn settle(&mut self)
        ensures
            final(self)@ == old(self)@.settle(),
            final(self)@.wf(),
    {
        proof {
            use_type_invariant(&self.input);
        }
        let shown = visible_projects(&self.projects, self.input.text().as_str(), &self.tags).len();
        clamp_selection(&mut self.proj_list_state, shown);
        clamp_selection(&mut self.tags_list_state, self.tags.len());
    }

    fn exit(&mut self)
        ensures
            final(self)@ == (AppView { exit: true, ..old(self)@ }),
    {
        self.exit = true;
    }

    /// The number of projects in the list as shown.
    fn shown_len(&self) -> (len: usize)
        ensures
            len == self@.listed().len(),
    {
        visible_projects(&self.projects, self.input.text().as_str(), &self.tags).len()
    }

    /// Answers a request to launch. With the cursor on a project of the
    /// list as shown whose manifest has a parent directory, the session ends
    /// and the caller is told to open that directory. Otherwise nothing
    /// happens.
    pub fn open_zed(&mut self) -> (action: Action)
        ensures
            action@ == old(self)@.launch_directory(),
            final(self)@ == old(self)@.open_zed(),
    {
        let directory = match self.selected_manifest() {
            Some(toml_path) => parent_of(toml_path.as_str()),
            None => None,
        };
        self.launch(directory)
    }

    /// The path of the manifest of the project under the cursor; none
    /// without a cursor on the list as shown.
    pub fn selected_manifest(&self) -> (path: Option<&String>)
        ensures
            match path {
                Some(path) => self@.selected_manifest() == Some(path@),
                None => self@.selected_manifest() is None,
            },
    {
        if let Some(s) = self.proj_list_state.selected() {
            let matches = visible_projects(&self.projects, self.input.text().as_str(), &self.tags);
            if s < matches.len() {
                assert(matches@[s as int]@.path == self@.listed()[s as int].path);
                return Some(&matches[s].path);
            }
        }
        None
    }

    /// Ends the session with a launch in the given directory; without a
    /// directory nothing happens.
    pub fn launch(&mut self, directory: Option<String>) -> (action: Action)
        ensures
            action@ == match directory {
                Some(directory) => Some(directory@),
                None => None,
            },
            final(self)@ == old(self)@.launch(action@),
    {
        match directory {
            Some(directory) => {
                self.exit();
                Action::Launch(directory)
            },
            None => Action::Nothing,
        }
    }

    /// Toggles the tag under the cursor, first putting a missing cursor on
    /// the first tag.
    fn toggle_tag(&mut self)
        ensures
            final(self)@ == old(self)@.toggle_tag(),
    {
        let selected = if let Some(s) = self.tags_list_state.selected() {
            s
        } else {
            0
        };
        if selected < self.tags.len() {
            self.tags_list_state.select(Some(selected));
            toggle(&mut self.tags, selected);
        }
    }

    /// Handles one key press: edits the query while in editing mode, and
    /// otherwise moves a cursor, toggles a tag, launches, clears, switches
    /// panel or mode, or ends the session. Afterwards both cursors stand on
    /// their lists as shown.
    pub fn handle_key_event(&mut self, key_event: KeyEvent) -> (action: Action)
        ensures
            final(self)@ == old(self)@.press(key_event.code),
            action@ == old(self)@.launched(key_event.code),
            final(self)@.wf(),
    {
        let mut action = Action::Nothing;
        match self.input.mode() {
            InputMode::Editing => {
                match key_event.code {
                    KeyCode::Esc | KeyCode::Enter => {
                        self.input.set_mode(InputMode::Normal);
                        self.set_mode(
                            match self.selected {
                                Select::Projects => "projects",
                                Select::Tags => "tags",
                            },
                        );
                    },
                    KeyCode::Char(c) => self.input.enter_char(c),
                    KeyCode::Backspace => self.input.delete_char(),
                    KeyCode::Right => self.input.move_cursor_right(),
                    KeyCode::Left => self.input.move_cursor_left(),
                    _ => {},
                };
            },
            InputMode::Normal => {
                match self.selected {
                    Select::Projects => match key_event.code {
                        KeyCode::Char('j') => {
                            let shown = self.shown_len();
                            step_down(&mut self.proj_list_state, shown)
                        },
                        KeyCode::Char('k') => {
                            let shown = self.shown_len();
                            step_up(&mut self.proj_list_state, shown)
                        },
                        KeyCode::Char(' ') => action = self.open_zed(),
                        KeyCode::Enter => action = self.open_zed(),
                        _ => {},
                    },
                    Select::Tags => match key_event.code {
                        KeyCode::Char('j') => step_down(&mut self.tags_list_state, self.tags.len()),
                        KeyCode::Char('k') => step_up(&mut self.tags_list_state, self.tags.len()),
                        KeyCode::Char(' ') => self.toggle_tag(),
                        _ => {},
                    },
                }

                match key_event.code {
                    KeyCode::Char('i') => {
                        self.input.set_mode(InputMode::Editing);
                        self.set_mode("editing");
                    },
                    KeyCode::Char('q') => self.exit(),
                    KeyCode::Char('c') => {
                        deselect_all(&mut self.tags);
                        self.input.clear();
                    },
                    KeyCode::Char('h') => {
                        self.selected = Select::Projects;
                        self.set_mode("projects");
                    },
                    KeyCode::Char('l') => {
                        self.selected = Select::Tags;
                        self.set_mode("tags");
                    },
                    _ => {},
                }
            },
        }
        self.settle();
        action
    }

    /// Handles one report from the terminal. Only a key that went down
    /// counts; a key held or released, and any other report, changes
    /// nothing.
    pub fn handle_events(&mut self, event: Event) -> (action: Action)
        ensures
            final(self)@ == old(self)@.handle(event),
            action@ == old(self)@.requested(event),
    {
        match event {
            Event::Key(key_event) => match key_event.kind {
                KeyEventKind::Press => self.handle_key_event(key_event),
                _ => Action::Nothing,
            },
            _ => Action::Nothing,
        }
    }
}

/// The help line that belongs to a mode and a panel.
pub open spec fn hint_of(mode: InputMode, panel: Select) -> Seq<char> {
    match mode {
        InputMode::Editing => EDITING_HINT@,
        InputMode::Normal => match panel {
            Select::Projects => PROJECTS_HINT@,
            Select::Tags => TAGS_HINT@,
        },
    }
}

/// Bringing the cursors back onto their lists makes the session well
/// formed, and changes nothing in a session that is.
pub proof fn lemma_settle(session: AppView)
    requires
        session.input.wf(),
    ensures
        session.settle().wf(),
        session.wf() ==> session.settle() == session,
        session.settle().settle() == session.settle(),
{
}

/// Whatever the key, the session is well formed after it.
pub proof fn lemma_press_wf(session: AppView, code: KeyCode)
    requires
        session.input.wf(),
    ensures
        session.press(code).wf(),
{
}

/// No key changes the catalog or the tags of the registry; only flags
/// change.
pub proof fn lemma_press_keeps_vocabulary(session: AppView, code: KeyCode)
    ensures
        session.press(code).projects == session.projects,
        tag_names(session.press(code).tags) == tag_names(session.tags),
{
    lemma_deselected(session.tags);
    assert(tag_names(session.press(code).tags) =~= tag_names(session.tags));
}

/// Clearing twice is clearing once: the query is empty with the cursor at
/// its start, and no tag is selected.
pub proof fn lemma_clear_twice(session: AppView)
    ensures
        session.clear().clear() == session.clear(),
        session.clear().input.text == Seq::<char>::empty(),
        session.clear().input.cursor == 0,
        forall|i: int| 0 <= i < session.tags.len() ==> !(#[trigger] session.clear().tags[i]).1,
{
    lemma_deselected(session.tags);
}

/// Pressing `c` twice while navigating leaves the session as pressing it
/// once does.
pub proof fn lemma_press_clear_twice(session: AppView)
    requires
        session.input.mode == InputMode::Normal,
    ensures
        session.press(KeyCode::Char('c')).press(KeyCode::Char('c')) == session.press(
            KeyCode::Char('c'),
        ),
{
    lemma_deselected(session.tags);
}

/// Pressing Space twice in the tags panel gives back every flag as it was.
pub proof fn lemma_press_toggle_twice(session: AppView)
    requires
        session.wf(),
        session.input.mode == InputMode::Normal,
        session.selected == Select::Tags,
    ensures
        session.press(KeyCode::Char(' ')).press(KeyCode::Char(' ')).tags == session.tags,
{
    let row = match session.tag_cursor {
        Some(i) => i,
        None => 0,
    };
    if row < session.tags.len() {
        lemma_toggle_twice(session.tags, row as int);
    }
}

/// With no tag cursor yet, Space in the tags panel selects the first tag
/// and puts the cursor on it.
pub proof fn lemma_first_toggle(session: AppView)
    requires
        session.input.mode == InputMode::Normal,
        session.selected == Select::Tags,
        session.tag_cursor is None,
        session.tags.len() > 0,
    ensures
        session.press(KeyCode::Char(' ')).tags[0].1 == !session.tags[0].1,
        session.press(KeyCode::Char(' ')).tag_cursor == Some(0nat),
{
}

/// While navigating, `q` ends the session from either panel and asks for
/// no launch.
pub proof fn lemma_quit(session: AppView)
    requires
        session.input.mode == InputMode::Normal,
    ensures
        session.press(KeyCode::Char('q')).exit,
        session.launched(KeyCode::Char('q')) is None,
{
}

/// A launch is asked for only by a key press that ends the session.
pub proof fn lemma_launch_ends_session(session: AppView, code: KeyCode)
    requires
        session.launched(code) is Some,
    ensures
        session.press(code).exit,
{
}

/// While the query is edited no key ends the session, asks for a launch,
/// switches the panel or touches a flag.
pub proof fn lemma_editing_is_contained(session: AppView, code: KeyCode)
    requires
        session.input.mode == InputMode::Editing,
    ensures
        session.press(code).exit == session.exit,
        session.launched(code) is None,
        session.press(code).selected == session.selected,
        session.press(code).tags == session.tags,
{
}

/// Once the help line fits the mode and the panel, it does so after every
/// key.
pub proof fn lemma_hint_follows(session: AppView, code: KeyCode)
    requires
        session.controls == hint_of(session.input.mode, session.selected),
    ensures
        session.press(code).controls == hint_of(
            session.press(code).input.mode,
            session.press(code).selected,
        ),
{
    // The three names are told apart by their lengths.
    reveal_strlit("editing");
    reveal_strlit("projects");
    reveal_strlit("tags");
    assert("editing"@.len() == 7 && "projects"@.len() == 8 && "tags"@.len() == 4);
}

} // verus!
