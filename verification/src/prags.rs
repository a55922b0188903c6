//! Projects as the catalog records them.

use crate::manifest::{
    declared_name, is_manifest_tag, is_tag_line, lines_of, manifest_name, name_in, rows,
    split_lines, split_words, tag_of, unquoted,
};
use crate::tags::{insert_tag, lemma_sorted_lists_equal, strictly_sorted};
use crate::text::{
    chars_of, file_name_of, parent_of, path_file_name, path_parent, str_eq, string_from,
    string_views,
};
use vstd::prelude::*;
use vstd::string::StringExecFns;

verus! {

/// One discovered project: where its manifest lies, the name shown for it
/// and its tags.
#[derive(Clone, Debug)]
pub struct Project {
    pub path: String,
    pub name: String,
    pub tags: Vec<String>,
}

/// A project as a value.
pub struct ProjectView {
    pub path: Seq<char>,
    pub name: Seq<char>,
    pub tags: Seq<Seq<char>>,
}

impl View for Project {
    type V = ProjectView;

    open spec fn view(&self) -> ProjectView {
        ProjectView { path: self.path@, name: self.name@, tags: string_views(self.tags@) }
    }
}

/// The values of a list of projects, in order.
pub open spec fn project_views(projects: Seq<Project>) -> Seq<ProjectView> {
    Seq::new(projects.len(), |i: int| projects[i]@)
}

impl Default for Project {
    fn default() -> (project: Project)
        ensures
            project@ == (ProjectView {
                path: Seq::empty(),
                name: Seq::empty(),
                tags: Seq::empty(),
            }),
    {
        let project = Project { path: String::new(), name: String::new(), tags: Vec::new() };
        assert(string_views(project.tags@) =~= Seq::<Seq<char>>::empty());
        project
    }
}

/// The name of the directory that holds the manifest at `path`; empty where
/// the path has no parent or the parent has no name.
pub open spec fn directory_name(path: Seq<char>) -> Seq<char> {
    match path_parent(path) {
        Some(directory) => match path_file_name(directory) {
            Some(name) => name,
            None => Seq::empty(),
        },
        None => Seq::empty(),
    }
}

/// The line that shows a name with a directory: the name, then the
/// directory in brackets.
pub open spec fn label_of(name: Seq<char>, directory: Seq<char>) -> Seq<char> {
    name + "  --  ("@ + directory + ")"@
}

/// The line shown for a project: its name with the name of its directory.
pub open spec fn project_label(project: ProjectView) -> Seq<char> {
    label_of(project.name, directory_name(project.path))
}

/// `tags` is the tag list of the manifest `text`: the tags that its lines
/// declare, each once, in ascending order.
pub open spec fn is_manifest_tags(tags: Seq<Seq<char>>, text: Seq<char>) -> bool {
    &&& strictly_sorted(tags)
    &&& forall|tag: Seq<char>| #[trigger] tags.contains(tag) <==> is_manifest_tag(text, tag)
}

/// A manifest has one tag list.
pub proof fn lemma_manifest_tags_unique(one: Seq<Seq<char>>, other: Seq<Seq<char>>, text: Seq<char>)
    requires
        is_manifest_tags(one, text),
        is_manifest_tags(other, text),
    ensures
        one == other,
{
    lemma_sorted_lists_equal(one, other);
}

/// `project` is what the manifest at `path` with the text `text` describes.
pub open spec fn is_project_of(project: ProjectView, path: Seq<char>, text: Seq<char>) -> bool {
    &&& project.path == path
    &&& project.name == manifest_name(text)
    &&& is_manifest_tags(project.tags, text)
}

/// `projects` is the catalog of the manifests `files`, each given by its
/// path and its text: one project for each manifest, in the same order.
pub open spec fn is_catalog_of(projects: Seq<ProjectView>, files: Seq<(String, String)>) -> bool {
    &&& projects.len() == files.len()
    &&& forall|i: int|
        0 <= i < files.len() ==> is_project_of(#[trigger] projects[i], files[i].0@, files[i].1@)
}

/// Some line among the first `n` of `lines` declares `tag`.
spec fn is_tag_among(lines: Seq<Seq<char>>, n: int, tag: Seq<char>) -> bool {
    exists|i: int| 0 <= i < n && i < lines.len() && is_tag_line(#[trigger] lines[i]) && tag_of(
        lines[i],
    ) == tag
}

impl Project {
    /// The catalog of the given manifests, each handed over as its path and
    /// its text.
    pub fn get_all(self, files: Vec<(String, String)>) -> (projects: Vec<Project>)
        ensures
            is_catalog_of(project_views(projects@), files@),
    {
        let mut projects: Vec<Project> = Vec::new();
        let mut i: usize = 0;
        while i < files.len()
            invariant
                i <= files.len(),
                projects.len() == i,
                forall|k: int|
                    0 <= k < i ==> is_project_of(
                        (#[trigger] projects@[k])@,
                        files@[k].0@,
                        files@[k].1@,
                    ),
            decreases files.len() - i,
        {
            let tags = self.get_tag_from_file(files[i].1.as_str());
            let name = self.name_from_file(files[i].1.as_str());
            projects.push(Project { path: files[i].0.clone(), name, tags });
            i += 1;
        }
        projects
    }

    /// The tags that a manifest declares: what follows the marker `#-` on
    /// the lines that start with it, in lower case, each tag once, in
    /// ascending order.
    pub fn get_tag_from_file(&self, content: &str) -> (tags: Vec<String>)
        ensures
            is_manifest_tags(string_views(tags@), content@),
    {
        let mut tags: Vec<String> = Vec::new();
        let chars = chars_of(content);
        let lines = split_lines(&chars);
        let mut i: usize = 0;
        while i < lines.len()
            invariant
                i <= lines.len(),
                rows(lines@) == lines_of(content@),
                strictly_sorted(string_views(tags@)),
                forall|tag: Seq<char>|
                    #[trigger] string_views(tags@).contains(tag) <==> is_tag_among(
                        lines_of(content@),
                        i as int,
                        tag,
                    ),
            decreases lines.len() - i,
        {
            let line = &lines[i];
            let ghost held = string_views(tags@);
            assert(line@ == lines_of(content@)[i as int]);
            if line.len() > 2 && line[0] == '#' && line[1] == '-' {
                let tag = string_from(line, 2, line.len()).as_str().to_lowercase();
                assert(tag@ == tag_of(line@));
                insert_tag(&mut tags, tag);
            }
            proof {
                assert forall|tag: Seq<char>| #[trigger]
                    string_views(tags@).contains(tag) <==> is_tag_among(
                        lines_of(content@),
                        i + 1,
                        tag,
                    ) by {
                    assert(held.contains(tag) <==> is_tag_among(lines_of(content@), i as int, tag));
                }
            }
            i += 1;
        }
        proof {
            assert forall|tag: Seq<char>| is_tag_among(lines_of(content@), lines.len() as int, tag)
                <==> is_manifest_tag(content@, tag) by {}
        }
        tags
    }

    /// The name that a manifest declares: the third word of the first line
    /// whose first word is `name`, without its quotes and in lower case;
    /// `none` where no line declares a name.
    pub fn name_from_file(&self, content: &str) -> (name: String)
        ensures
            name@ == manifest_name(content@),
    {
        let chars = chars_of(content);
        let lines = split_lines(&chars);
        let mut i: usize = 0;
        proof {
            assert(rows(lines@).skip(0) =~= rows(lines@));
        }
        while i < lines.len()
            invariant
                i <= lines.len(),
                rows(lines@) == lines_of(content@),
                name_in(rows(lines@).skip(i as int)) == manifest_name(content@),
            decreases lines.len() - i,
        {
            let words = split_words(&lines[i]);
            proof {
                assert(rows(lines@).skip(i as int)[0] == lines@[i as int]@);
                assert(rows(lines@).skip(i as int).drop_first() =~= rows(lines@).skip(i + 1));
                assert(rows(words@).len() == words.len());
            }
            if words.len() >= 3 && str_eq(
                string_from(&words[0], 0, words[0].len()).as_str(),
                "name",
            ) {
                let word = &words[2];
                let mut name = String::new();
                let mut k: usize = 0;
                proof {
                    reveal(Seq::filter);
                    assert(word@.take(0) =~= Seq::<char>::empty());
                    assert(words@[0]@.subrange(0, words@[0]@.len() as int) =~= rows(words@)[0]);
                }
                while k < word.len()
                    invariant
                        k <= word.len(),
                        name@ == unquoted(word@.take(k as int)),
                    decreases word.len() - k,
                {
                    proof {
                        word@.take(k as int).lemma_filter_push(word@[k as int], |c: char| c != '"');
                        assert(word@.take(k + 1) =~= word@.take(k as int).push(word@[k as int]));
                    }
                    if word[k] != '"' {
                        name.push(word[k]);
                    }
                    k += 1;
                }
                proof {
                    assert(word@.take(k as int) =~= word@);
                    assert(word@ == rows(words@)[2]);
                    assert(declared_name(lines@[i as int]@) == Some(crate::text::lowercase(name@)));
                }
                return name.as_str().to_lowercase();
            }
            proof {
                assert(words@[0]@.subrange(0, words@[0]@.len() as int) =~= words@[0]@);
                if words.len() >= 3 {
                    assert(words@[0]@ == rows(words@)[0]);
                }
                assert(declared_name(lines@[i as int]@) is None);
            }
            i += 1;
        }
        String::from_str("none")
    }

    /// The name of the directory that holds the project's manifest; empty
    /// where the manifest's path has no parent or the parent has no name.
    pub fn directory_name(&self) -> (name: String)
        ensures
            name@ == directory_name(self@.path),
    {
        if let Some(directory) = parent_of(self.path.as_str()) {
            if let Some(name) = file_name_of(directory.as_str()) {
                return name;
            }
        }
        String::new()
    }

    /// The line that shows the project with a directory of the given name.
    pub fn label_in(&self, directory: &str) -> (label: String)
        ensures
            label@ == label_of(self@.name, directory@),
    {
        let mut label = self.name.clone();
        label.append("  --  (");
        label.append(directory);
        label.append(")");
        assert(label@ =~= label_of(self@.name, directory@));
        label
    }

    /// The line shown for the project.
    pub fn label(&self) -> (label: String)
        ensures
            label@ == project_label(self@),
    {
        self.label_in(self.directory_name().as_str())
    }
}

} // verus!
