//! The tag registry: every tag of the catalog once, each with its flag.

use crate::prags::{project_views, Project, ProjectView};
use crate::text::{
    lemma_lex_irreflexive, lemma_lex_total, lemma_lex_transitive, lex_lt, str_lt, string_views,
};
use vstd::prelude::*;
use vstd::string::StringExecFns;

verus! {

/// The tag registry as a value: each tag with its flag, in registry order.
pub type TagsView = Seq<(Seq<char>, bool)>;

/// The value of a tag registry.
pub open spec fn tags_view(tags: Seq<(String, bool)>) -> TagsView {
    Seq::new(tags.len(), |i: int| (tags[i].0@, tags[i].1))
}

/// The tags of a registry without their flags.
pub open spec fn tag_names(tags: TagsView) -> Seq<Seq<char>> {
    Seq::new(tags.len(), |i: int| tags[i].0)
}

/// Each entry comes before all later ones; so none occurs twice.
pub open spec fn strictly_sorted(names: Seq<Seq<char>>) -> bool {
    forall|i: int, j: int|
        0 <= i < j < names.len() ==> lex_lt(#[trigger] names[i], #[trigger] names[j])
}

/// Some project of the catalog carries `tag`.
pub open spec fn is_tag_of(projects: Seq<ProjectView>, tag: Seq<char>) -> bool {
    exists|i: int, j: int|
        0 <= i < projects.len() && 0 <= j < projects[i].tags.len() && #[trigger] projects[i].tags[j]
            == tag
}

/// `tags` is the registry of a catalog as it is first built: its tags in
/// ascending order, each tag of the catalog once and no other, none
/// selected.
pub open spec fn is_registry_of(tags: TagsView, projects: Seq<ProjectView>) -> bool {
    &&& strictly_sorted(tag_names(tags))
    &&& forall|i: int| 0 <= i < tags.len() ==> !(#[trigger] tags[i]).1
    &&& forall|tag: Seq<char>| #[trigger]
        tag_names(tags).contains(tag) <==> is_tag_of(projects, tag)
}

/// The registry with the flag of entry `i` turned over.
pub open spec fn toggled(tags: TagsView, i: int) -> TagsView {
    tags.update(i, (tags[i].0, !tags[i].1))
}

/// The registry with no tag selected.
pub open spec fn deselected(tags: TagsView) -> TagsView {
    Seq::new(tags.len(), |i: int| (tags[i].0, false))
}

/// The line shown for a tag: a checked or an empty box, then the tag.
pub open spec fn tag_label(tag: (Seq<char>, bool)) -> Seq<char> {
    (if tag.1 {
        " [X] "@
    } else {
        " [ ] "@
    }) + tag.0
}

/// Puts `tag` into a sorted list of distinct tags, unless it is there.
pub fn insert_tag(names: &mut Vec<String>, tag: String)
    requires
        strictly_sorted(string_views(old(names)@)),
    ensures
        strictly_sorted(string_views(final(names)@)),
        forall|t: Seq<char>|
            #[trigger] string_views(final(names)@).contains(t) <==> (t == tag@ || string_views(
                old(names)@,
            ).contains(t)),
{
    let ghost before = string_views(names@);
    let mut pos: usize = 0;
    while pos < names.len() && str_lt(names[pos].as_str(), tag.as_str())
        invariant
            pos <= names.len(),
            before == string_views(names@),
            forall|k: int| 0 <= k < pos ==> lex_lt(#[trigger] before[k], tag@),
        decreases names.len() - pos,
    {
        pos += 1;
    }
    if pos < names.len() && names[pos] == tag {
        assert(before[pos as int] == tag@);
        return ;
    }
    proof {
        if pos < before.len() {
            lemma_lex_total(before[pos as int], tag@);
        }
        assert forall|k: int| pos <= k < before.len() implies lex_lt(
            tag@,
            #[trigger] before[k],
        ) by {
            if k > pos {
                lemma_lex_transitive(tag@, before[pos as int], before[k]);
            }
        }
    }
    let ghost new_tag = tag@;
    names.insert(pos, tag);
    proof {
        let after = string_views(names@);
        assert(after =~= before.insert(pos as int, new_tag));
        assert forall|i: int, j: int| 0 <= i < j < after.len() implies lex_lt(
            #[trigger] after[i],
            #[trigger] after[j],
        ) by {
            if j < pos {
            } else if j == pos {
            } else if i < pos {
                assert(after[j] == before[j - 1]);
                lemma_lex_transitive(before[i], new_tag, before[j - 1]);
            } else if i == pos {
                assert(after[j] == before[j - 1]);
            } else {
                assert(after[j] == before[j - 1]);
                assert(after[i] == before[i - 1]);
            }
        }
        assert forall|t: Seq<char>| #[trigger] after.contains(t) <==> (t == new_tag
            || before.contains(t)) by {
            if after.contains(t) {
                let k = choose|k: int| 0 <= k < after.len() && after[k] == t;
                if k < pos {
                    assert(before[k] == t);
                } else if k > pos {
                    assert(before[k - 1] == t);
                }
            }
            if t == new_tag {
                assert(after[pos as int] == t);
            }
            if before.contains(t) {
                let k = choose|k: int| 0 <= k < before.len() && before[k] == t;
                if k < pos {
                    assert(after[k] == t);
                } else {
                    assert(after[k + 1] == t);
                }
            }
        }
    }
}

/// Turns over the flag of entry `i`.
pub fn toggle(tags: &mut Vec<(String, bool)>, i: usize)
    requires
        i < old(tags).len(),
    ensures
        tags_view(final(tags)@) == toggled(tags_view(old(tags)@), i as int),
{
    tags[i].1 = !tags[i].1;
    assert(tags_view(tags@) =~= toggled(tags_view(old(tags)@), i as int));
}

/// Clears every flag.
pub fn deselect_all(tags: &mut Vec<(String, bool)>)
    ensures
        tags_view(final(tags)@) == deselected(tags_view(old(tags)@)),
{
    let mut i: usize = 0;
    while i < tags.len()
        invariant
            i <= tags.len(),
            tags.len() == old(tags).len(),
            forall|k: int| 0 <= k < i ==> #[trigger] tags@[k] == (old(tags)@[k].0, false),
            forall|k: int| i <= k < tags.len() ==> #[trigger] tags@[k] == old(tags)@[k],
        decreases tags.len() - i,
    {
        tags[i].1 = false;
        i += 1;
    }
    assert(tags_view(tags@) =~= deselected(tags_view(old(tags)@)));
}

/// Some tag of the catalog that comes before tag `j` of project `i`, in
/// reading order, is `tag`.
spec fn is_tag_before(projects: Seq<ProjectView>, i: int, j: int, tag: Seq<char>) -> bool {
    exists|a: int, b: int|
        0 <= a < projects.len() && 0 <= b < projects[a].tags.len() && (a < i || (a == i && b < j))
            && #[trigger] projects[a].tags[b] == tag
}

/// Builds the registry of a catalog: its tags in ascending order, each
/// once, none selected.
pub fn build_registry(projects: &Vec<Project>) -> (tags: Vec<(String, bool)>)
    ensures
        is_registry_of(tags_view(tags@), project_views(projects@)),
{
    let ghost catalog = project_views(projects@);
    let mut names: Vec<String> = Vec::new();
    let mut i: usize = 0;
    while i < projects.len()
        invariant
            i <= projects.len(),
            catalog == project_views(projects@),
            strictly_sorted(string_views(names@)),
            forall|t: Seq<char>|
                #[trigger] string_views(names@).contains(t) <==> is_tag_before(
                    catalog,
                    i as int,
                    0,
                    t,
                ),
        decreases projects.len() - i,
    {
        let project = &projects[i];
        let mut j: usize = 0;
        while j < project.tags.len()
            invariant
                i < projects.len(),
                j <= project.tags.len(),
                project == &projects@[i as int],
                catalog == project_views(projects@),
                strictly_sorted(string_views(names@)),
                forall|t: Seq<char>|
                    #[trigger] string_views(names@).contains(t) <==> is_tag_before(
                        catalog,
                        i as int,
                        j as int,
                        t,
                    ),
            decreases project.tags.len() - j,
        {
            let ghost held = string_views(names@);
            insert_tag(&mut names, project.tags[j].clone());
            proof {
                let added = catalog[i as int].tags[j as int];
                assert(added == project.tags@[j as int]@);
                assert forall|t: Seq<char>| #[trigger]
                    string_views(names@).contains(t) <==> is_tag_before(
                        catalog,
                        i as int,
                        j + 1,
                        t,
                    ) by {
                    assert(held.contains(t) <==> is_tag_before(catalog, i as int, j as int, t));
                }
            }
            j += 1;
        }
        proof {
            assert forall|t: Seq<char>| is_tag_before(
                catalog,
                i as int,
                project.tags.len() as int,
                t,
            ) <==> is_tag_before(catalog, i + 1, 0, t) by {
                assert(catalog[i as int].tags.len() == project.tags.len());
            }
        }
        i += 1;
    }
    let mut tags: Vec<(String, bool)> = Vec::new();
    let mut k: usize = 0;
    while k < names.len()
        invariant
            k <= names.len(),
            tags.len() == k,
            forall|n: int| 0 <= n < k ==> (#[trigger] tags@[n]).0@ == names@[n]@ && !tags@[n].1,
        decreases names.len() - k,
    {
        tags.push((names[k].clone(), false));
        k += 1;
    }
    proof {
        assert(tag_names(tags_view(tags@)) =~= string_views(names@));
        assert forall|t: Seq<char>| is_tag_before(catalog, projects.len() as int, 0, t)
            <==> is_tag_of(catalog, t) by {}
    }
    tags
}

/// The lines shown for the tags, in registry order.
pub fn tag_labels(tags: &Vec<(String, bool)>) -> (labels: Vec<String>)
    ensures
        labels.len() == tags.len(),
        forall|i: int|
            0 <= i < tags.len() ==> (#[trigger] labels@[i])@ == tag_label(tags_view(tags@)[i]),
{
    let mut labels: Vec<String> = Vec::new();
    let mut i: usize = 0;
    while i < tags.len()
        invariant
            i <= tags.len(),
            labels.len() == i,
            forall|k: int|
                0 <= k < i ==> (#[trigger] labels@[k])@ == tag_label(tags_view(tags@)[k]),
        decreases tags.len() - i,
    {
        let mut label = String::from_str(
            if tags[i].1 {
                " [X] "
            } else {
                " [ ] "
            },
        );
        label.append(tags[i].0.as_str());
        labels.push(label);
        i += 1;
    }
    labels
}

/// Two sorted lists of distinct tags that hold the same tags are the same
/// list.
pub proof fn lemma_sorted_lists_equal(a: Seq<Seq<char>>, b: Seq<Seq<char>>)
    requires
        strictly_sorted(a),
        strictly_sorted(b),
        forall|tag: Seq<char>| a.contains(tag) <==> b.contains(tag),
    ensures
        a == b,
    decreases a.len(),
{
    if a.len() == 0 {
        if b.len() > 0 {
            assert(b.contains(b[0]));
        }
        assert(a =~= b);
    } else {
        assert(a.contains(a.last()));
        let j = choose|j: int| 0 <= j < b.len() && b[j] == a.last();
        assert(b.contains(b.last()));
        let i = choose|i: int| 0 <= i < a.len() && a[i] == b.last();
        if j < b.len() - 1 {
            if i < a.len() - 1 {
                lemma_lex_transitive(a.last(), b.last(), a.last());
            }
            lemma_lex_irreflexive(a.last());
        }
        assert(a.last() == b.last());
        let front_a = a.drop_last();
        let front_b = b.drop_last();
        assert forall|tag: Seq<char>| front_a.contains(tag) <==> front_b.contains(tag) by {
            if front_a.contains(tag) {
                let k = choose|k: int| 0 <= k < front_a.len() && front_a[k] == tag;
                assert(a[k] == tag);
                assert(a.contains(tag));
                let m = choose|m: int| 0 <= m < b.len() && b[m] == tag;
                if m == b.len() - 1 {
                    lemma_lex_irreflexive(tag);
                }
                assert(front_b[m] == tag);
            }
            if front_b.contains(tag) {
                let k = choose|k: int| 0 <= k < front_b.len() && front_b[k] == tag;
                assert(b[k] == tag);
                assert(b.contains(tag));
                let m = choose|m: int| 0 <= m < a.len() && a[m] == tag;
                if m == a.len() - 1 {
                    lemma_lex_irreflexive(tag);
                }
                assert(front_a[m] == tag);
            }
        }
        assert forall|x: int, y: int| 0 <= x < y < front_a.len() implies lex_lt(
            #[trigger] front_a[x],
            #[trigger] front_a[y],
        ) by {
            assert(front_a[x] == a[x] && front_a[y] == a[y]);
        }
        assert forall|x: int, y: int| 0 <= x < y < front_b.len() implies lex_lt(
            #[trigger] front_b[x],
            #[trigger] front_b[y],
        ) by {
            assert(front_b[x] == b[x] && front_b[y] == b[y]);
        }
        lemma_sorted_lists_equal(front_a, front_b);
        assert(a =~= front_a.push(a.last()));
        assert(b =~= front_b.push(b.last()));
    }
}

/// A catalog has one registry as it is first built.
pub proof fn lemma_registry_unique(one: TagsView, other: TagsView, projects: Seq<ProjectView>)
    requires
        is_registry_of(one, projects),
        is_registry_of(other, projects),
    ensures
        one == other,
{
    lemma_sorted_lists_equal(tag_names(one), tag_names(other));
    assert forall|i: int| 0 <= i < one.len() implies one[i] == other[i] by {
        assert(tag_names(one)[i] == one[i].0);
        assert(tag_names(other)[i] == other[i].0);
    }
    assert(one.len() == tag_names(one).len());
    assert(other.len() == tag_names(other).len());
    assert(one =~= other);
}

/// Toggling the same tag twice gives back the registry as it was.
pub proof fn lemma_toggle_twice(tags: TagsView, i: int)
    requires
        0 <= i < tags.len(),
    ensures
        toggled(toggled(tags, i), i) == tags,
        toggled(toggled(tags, i), i)[i].1 == tags[i].1,
{
    assert(toggled(toggled(tags, i), i) =~= tags);
}

/// Toggling changes one flag and nothing else: no tag is added, dropped,
/// renamed or moved.
pub proof fn lemma_toggle_keeps_names(tags: TagsView, i: int)
    requires
        0 <= i < tags.len(),
    ensures
        tag_names(toggled(tags, i)) == tag_names(tags),
        toggled(tags, i)[i].1 == !tags[i].1,
        forall|k: int| 0 <= k < tags.len() && k != i ==> #[trigger] toggled(tags, i)[k] == tags[k],
{
    assert(tag_names(toggled(tags, i)) =~= tag_names(tags));
}

/// Deselecting all keeps the tags and leaves none selected; doing it twice
/// is doing it once.
pub proof fn lemma_deselected(tags: TagsView)
    ensures
        tag_names(deselected(tags)) == tag_names(tags),
        forall|k: int| 0 <= k < tags.len() ==> !(#[trigger] deselected(tags)[k]).1,
        deselected(deselected(tags)) == deselected(tags),
{
    assert(tag_names(deselected(tags)) =~= tag_names(tags));
    assert(deselected(deselected(tags)) =~= deselected(tags));
}

} // verus!
