//! Which projects are listed, and in what order.

use crate::prags::{project_views, Project, ProjectView};
use crate::tags::{tags_view, TagsView};
use crate::text::{
    contains_str, is_substring, lemma_lex_asymmetric, lemma_lex_irreflexive, lemma_lex_lt_le,
    lemma_lex_total, lex_lt, str_lt,
};
use vstd::prelude::*;

verus! {

/// Some tag of the registry is selected.
pub open spec fn any_selected(tags: TagsView) -> bool {
    exists|i: int| 0 <= i < tags.len() && (#[trigger] tags[i]).1
}

/// `tag` is in the registry and selected there.
pub open spec fn is_selected(tags: TagsView, tag: Seq<char>) -> bool {
    exists|i: int| 0 <= i < tags.len() && #[trigger] tags[i] == (tag, true)
}

/// The project carries at least one selected tag.
pub open spec fn has_selected_tag(project: ProjectView, tags: TagsView) -> bool {
    exists|j: int| 0 <= j < project.tags.len() && is_selected(tags, #[trigger] project.tags[j])
}

/// The tag side of the filter: no tag is selected, or the project carries a
/// selected one.
pub open spec fn tag_predicate(project: ProjectView, tags: TagsView) -> bool {
    !any_selected(tags) || has_selected_tag(project, tags)
}

/// The project passes the filter: its name contains the query and the tag
/// predicate holds.
pub open spec fn shown(project: ProjectView, query: Seq<char>, tags: TagsView) -> bool {
    is_substring(query, project.name) && tag_predicate(project, tags)
}

/// The projects that pass the filter, in catalog order.
pub open spec fn matching(projects: Seq<ProjectView>, query: Seq<char>, tags: TagsView) -> Seq<
    ProjectView,
> {
    projects.filter(|p: ProjectView| shown(p, query, tags))
}

/// Where `project` goes in `sorted`: behind the last entry whose name does
/// not come after its own.
pub open spec fn insert_index(sorted: Seq<ProjectView>, project: ProjectView) -> int
    decreases sorted.len(),
{
    if sorted.len() == 0 || !lex_lt(project.name, sorted.last().name) {
        sorted.len() as int
    } else {
        insert_index(sorted.drop_last(), project)
    }
}

/// `sorted` with `project` put in at its place.
pub open spec fn insert_by_name(sorted: Seq<ProjectView>, project: ProjectView) -> Seq<
    ProjectView,
> {
    sorted.insert(insert_index(sorted, project), project)
}

/// No entry stands before one whose name comes first.
pub open spec fn sorted_by_name(list: Seq<ProjectView>) -> bool {
    forall|i: int, j: int|
        0 <= i < j < list.len() ==> !lex_lt(#[trigger] list[j].name, #[trigger] list[i].name)
}

/// The entries of `list` that bear the name `name`, in order.
pub open spec fn named(list: Seq<ProjectView>, name: Seq<char>) -> Seq<ProjectView> {
    list.filter(|p: ProjectView| p.name == name)
}

/// The projects in ascending order of name; projects of one name keep the
/// order they came in.
pub open spec fn sort_by_name(projects: Seq<ProjectView>) -> Seq<ProjectView>
    decreases projects.len(),
{
    if projects.len() == 0 {
        projects
    } else {
        insert_by_name(sort_by_name(projects.drop_last()), projects.last())
    }
}

/// The list as shown: the projects that pass the filter, by name.
pub open spec fn visible(projects: Seq<ProjectView>, query: Seq<char>, tags: TagsView) -> Seq<
    ProjectView,
> {
    sort_by_name(matching(projects, query, tags))
}

/// The values of a list of borrowed projects, in order.
pub open spec fn borrowed_views(projects: Seq<&Project>) -> Seq<ProjectView> {
    Seq::new(projects.len(), |i: int| projects[i]@)
}

/// Whether some tag of the registry is selected.
pub fn some_tag_selected(tags: &Vec<(String, bool)>) -> (any: bool)
    ensures
        any == any_selected(tags_view(tags@)),
{
    let mut i: usize = 0;
    while i < tags.len()
        invariant
            i <= tags.len(),
            forall|k: int| 0 <= k < i ==> !(#[trigger] tags_view(tags@)[k]).1,
        decreases tags.len() - i,
    {
        if tags[i].1 {
            assert(tags_view(tags@)[i as int].1);
            return true;
        }
        i += 1;
    }
    false
}

/// Whether `tag` is in the registry and selected there.
pub fn tag_is_selected(tags: &Vec<(String, bool)>, tag: &String) -> (found: bool)
    ensures
        found == is_selected(tags_view(tags@), tag@),
{
    let mut i: usize = 0;
    while i < tags.len()
        invariant
            i <= tags.len(),
            forall|k: int| 0 <= k < i ==> #[trigger] tags_view(tags@)[k] != (tag@, true),
        decreases tags.len() - i,
    {
        if tags[i].1 && tags[i].0 == *tag {
            assert(tags_view(tags@)[i as int] == (tag@, true));
            return true;
        }
        i += 1;
    }
    false
}

/// Whether the project carries at least one selected tag.
pub fn carries_selected_tag(project: &Project, tags: &Vec<(String, bool)>) -> (found: bool)
    ensures
        found == has_selected_tag(project@, tags_view(tags@)),
{
    let mut j: usize = 0;
    while j < project.tags.len()
        invariant
            j <= project.tags.len(),
            forall|k: int|
                0 <= k < j ==> !is_selected(tags_view(tags@), #[trigger] project@.tags[k]),
        decreases project.tags.len() - j,
    {
        if tag_is_selected(tags, &project.tags[j]) {
            assert(is_selected(tags_view(tags@), project@.tags[j as int]));
            return true;
        }
        j += 1;
    }
    false
}

/// Whether the project passes the filter.
pub fn passes(project: &Project, query: &str, tags: &Vec<(String, bool)>) -> (pass: bool)
    ensures
        pass == shown(project@, query@, tags_view(tags@)),
{
    contains_str(project.name.as_str(), query) && (!some_tag_selected(tags)
        || carries_selected_tag(project, tags))
}

/// The place of a new entry is the one place behind which every name comes
/// after its own and before which the nearest name does not.
pub proof fn lemma_insert_index(sorted: Seq<ProjectView>, project: ProjectView, pos: int)
    requires
        0 <= pos <= sorted.len(),
        forall|j: int| pos <= j < sorted.len() ==> lex_lt(project.name, #[trigger] sorted[j].name),
        pos > 0 ==> !lex_lt(project.name, sorted[pos - 1].name),
    ensures
        insert_index(sorted, project) == pos,
    decreases sorted.len(),
{
    if sorted.len() == 0 || !lex_lt(project.name, sorted.last().name) {
        assert(pos == sorted.len());
    } else {
        assert(pos < sorted.len());
        lemma_insert_index(sorted.drop_last(), project, pos);
    }
}

/// What holds at the place of a new entry.
pub proof fn lemma_insert_index_bounds(sorted: Seq<ProjectView>, project: ProjectView)
    ensures
        0 <= insert_index(sorted, project) <= sorted.len(),
        forall|j: int|
            insert_index(sorted, project) <= j < sorted.len() ==> lex_lt(
                project.name,
                #[trigger] sorted[j].name,
            ),
        insert_index(sorted, project) > 0 ==> !lex_lt(
            project.name,
            sorted[insert_index(sorted, project) - 1].name,
        ),
    decreases sorted.len(),
{
    if sorted.len() == 0 || !lex_lt(project.name, sorted.last().name) {
    } else {
        let front = sorted.drop_last();
        lemma_insert_index_bounds(front, project);
        assert forall|j: int| insert_index(sorted, project) <= j < sorted.len() implies lex_lt(
            project.name,
            #[trigger] sorted[j].name,
        ) by {
            if j < front.len() {
                assert(sorted[j] == front[j]);
            }
        }
    }
}

/// Putting an entry in at its place keeps a sorted list sorted.
pub proof fn lemma_insert_sorted(sorted: Seq<ProjectView>, project: ProjectView)
    requires
        sorted_by_name(sorted),
    ensures
        sorted_by_name(insert_by_name(sorted, project)),
{
    let pos = insert_index(sorted, project);
    let list = insert_by_name(sorted, project);
    lemma_insert_index_bounds(sorted, project);
    assert forall|i: int, j: int| 0 <= i < j < list.len() implies !lex_lt(
        #[trigger] list[j].name,
        #[trigger] list[i].name,
    ) by {
        if j < pos {
        } else if j == pos {
            if lex_lt(project.name, sorted[i].name) {
                if i < pos - 1 {
                    assert(!lex_lt(sorted[pos - 1].name, sorted[i].name));
                }
                lemma_lex_lt_le(project.name, sorted[i].name, sorted[pos - 1].name);
            }
        } else if i < pos {
            assert(list[j] == sorted[j - 1]);
            if i < j - 1 {
                assert(!lex_lt(sorted[j - 1].name, sorted[i].name));
            } else {
                lemma_lex_irreflexive(sorted[i].name);
            }
        } else if i == pos {
            assert(list[j] == sorted[j - 1]);
            lemma_lex_asymmetric(project.name, sorted[j - 1].name);
        } else {
            assert(list[j] == sorted[j - 1]);
            assert(list[i] == sorted[i - 1]);
        }
    }
}

/// Sorting yields a sorted list.
pub proof fn lemma_sort_sorted(projects: Seq<ProjectView>)
    ensures
        sorted_by_name(sort_by_name(projects)),
    decreases projects.len(),
{
    if projects.len() > 0 {
        lemma_sort_sorted(projects.drop_last());
        lemma_insert_sorted(sort_by_name(projects.drop_last()), projects.last());
    }
}

/// Sorting neither adds nor drops an entry.
pub proof fn lemma_sort_same_entries(projects: Seq<ProjectView>)
    ensures
        sort_by_name(projects).to_multiset() == projects.to_multiset(),
        sort_by_name(projects).len() == projects.len(),
    decreases projects.len(),
{
    broadcast use vstd::seq_lib::group_to_multiset_ensures;

    if projects.len() > 0 {
        let front = projects.drop_last();
        let last = projects.last();
        lemma_sort_same_entries(front);
        lemma_insert_index_bounds(sort_by_name(front), last);
        assert(projects == front.push(last));
        assert(sort_by_name(projects).to_multiset() =~= projects.to_multiset());
    }
}

/// Sorting keeps the entries of one name in the order they came in.
pub proof fn lemma_sort_stable(projects: Seq<ProjectView>, name: Seq<char>)
    ensures
        named(sort_by_name(projects), name) == named(projects, name),
    decreases projects.len(),
{
    if projects.len() > 0 {
        let front = projects.drop_last();
        let last = projects.last();
        let sorted = sort_by_name(front);
        let pos = insert_index(sorted, last);
        let pred = |p: ProjectView| p.name == name;
        lemma_sort_stable(front, name);
        lemma_insert_index_bounds(sorted, last);
        let head = sorted.take(pos);
        let tail = sorted.skip(pos);
        assert(sorted == head + tail);
        assert(insert_by_name(sorted, last) == head.push(last) + tail);
        Seq::filter_distributes_over_add(head, tail, pred);
        Seq::filter_distributes_over_add(head.push(last), tail, pred);
        head.lemma_filter_push(last, pred);
        assert(projects == front.push(last));
        front.lemma_filter_push(last, pred);
        if last.name == name {
            assert forall|k: int| 0 <= k < tail.len() implies !pred(#[trigger] tail[k]) by {
                assert(tail[k] == sorted[pos + k]);
                lemma_lex_irreflexive(name);
            }
            lemma_filter_none(tail, pred);
            assert(head.filter(pred) + Seq::<ProjectView>::empty() == head.filter(pred));
            assert(head.filter(pred).push(last) + Seq::<ProjectView>::empty() == head.filter(
                pred,
            ).push(last));
        }
    }
}

/// A filter that no entry passes leaves nothing.
proof fn lemma_filter_none(list: Seq<ProjectView>, pred: spec_fn(ProjectView) -> bool)
    requires
        forall|k: int| 0 <= k < list.len() ==> !pred(#[trigger] list[k]),
    ensures
        list.filter(pred) == Seq::<ProjectView>::empty(),
    decreases list.len(),
{
    reveal(Seq::filter);
    if list.len() > 0 {
        let front = list.drop_last();
        assert forall|k: int| 0 <= k < front.len() implies !pred(#[trigger] front[k]) by {
            assert(front[k] == list[k]);
        }
        lemma_filter_none(front, pred);
    }
}

/// A filter that every entry passes leaves the list as it is.
proof fn lemma_filter_all(list: Seq<ProjectView>, pred: spec_fn(ProjectView) -> bool)
    requires
        forall|k: int| 0 <= k < list.len() ==> pred(#[trigger] list[k]),
    ensures
        list.filter(pred) == list,
    decreases list.len(),
{
    reveal(Seq::filter);
    if list.len() > 0 {
        let front = list.drop_last();
        assert forall|k: int| 0 <= k < front.len() implies pred(#[trigger] front[k]) by {
            assert(front[k] == list[k]);
        }
        lemma_filter_all(front, pred);
        assert(front.push(list.last()) == list);
    }
}

/// Sorting a sorted list changes nothing.
pub proof fn lemma_sort_of_sorted(list: Seq<ProjectView>)
    requires
        sorted_by_name(list),
    ensures
        sort_by_name(list) == list,
    decreases list.len(),
{
    if list.len() > 0 {
        let front = list.drop_last();
        assert forall|i: int, j: int| 0 <= i < j < front.len() implies !lex_lt(
            #[trigger] front[j].name,
            #[trigger] front[i].name,
        ) by {
            assert(front[i] == list[i] && front[j] == list[j]);
        }
        lemma_sort_of_sorted(front);
        if front.len() > 0 {
            assert(front.last() == list[front.len() - 1]);
            assert(!lex_lt(list[list.len() - 1].name, list[front.len() - 1].name));
        }
        assert(insert_index(front, list.last()) == front.len());
        assert(front.insert(front.len() as int, list.last()) == list);
    }
}

/// Two lists in ascending order of name that agree, under every name, on
/// the entries of that name and their order, are the same list.
pub proof fn lemma_sorted_lists_agree(one: Seq<ProjectView>, other: Seq<ProjectView>)
    requires
        sorted_by_name(one),
        sorted_by_name(other),
        forall|name: Seq<char>| named(one, name) == named(other, name),
    ensures
        one == other,
    decreases one.len(),
{
    if one.len() == 0 {
        if other.len() > 0 {
            let first = other[0];
            other.lemma_filter_contains(|p: ProjectView| p.name == first.name, 0);
            assert(named(other, first.name).contains(first));
            one.lemma_filter_contains_rev(|p: ProjectView| p.name == first.name, first);
        }
        assert(one =~= other);
    } else {
        let x = one.last();
        let n = x.name;
        let front = one.drop_last();
        let by_n = |p: ProjectView| p.name == n;
        assert(one == front.push(x));
        front.lemma_filter_push(x, by_n);
        assert(named(one, n).last() == x);
        assert(named(other, n).contains(x));
        other.lemma_filter_contains_rev(by_n, x);
        assert(other.len() > 0);
        let z = other.last();
        let m = z.name;
        let rest = other.drop_last();
        let by_m = |p: ProjectView| p.name == m;
        assert(other == rest.push(z));
        other.lemma_filter_contains(by_m, other.len() - 1);
        assert(named(one, m).contains(z));
        one.lemma_filter_contains_rev(by_m, z);
        let i = choose|i: int| 0 <= i < one.len() && one[i] == z;
        let j = choose|j: int| 0 <= j < other.len() && other[j] == x;
        if i < one.len() - 1 {
            assert(!lex_lt(one[one.len() - 1].name, one[i].name));
        } else {
            lemma_lex_irreflexive(n);
        }
        if j < other.len() - 1 {
            assert(!lex_lt(other[other.len() - 1].name, other[j].name));
        } else {
            lemma_lex_irreflexive(m);
        }
        lemma_lex_total(n, m);
        assert(m == n);
        rest.lemma_filter_push(z, by_n);
        assert(named(other, n).last() == z);
        assert(z == x);
        assert forall|name: Seq<char>| named(front, name) == named(rest, name) by {
            let by_name = |p: ProjectView| p.name == name;
            front.lemma_filter_push(x, by_name);
            rest.lemma_filter_push(x, by_name);
            assert(named(one, name) == named(other, name));
            if name == n {
                assert(named(front, name) =~= named(one, name).drop_last());
                assert(named(rest, name) =~= named(other, name).drop_last());
            }
        }
        assert forall|a: int, b: int| 0 <= a < b < front.len() implies !lex_lt(
            #[trigger] front[b].name,
            #[trigger] front[a].name,
        ) by {
            assert(front[a] == one[a] && front[b] == one[b]);
        }
        assert forall|a: int, b: int| 0 <= a < b < rest.len() implies !lex_lt(
            #[trigger] rest[b].name,
            #[trigger] rest[a].name,
        ) by {
            assert(rest[a] == other[a] && rest[b] == other[b]);
        }
        lemma_sorted_lists_agree(front, rest);
    }
}

/// A project is listed exactly when it is in the catalog, its name contains
/// the query, and the tag predicate holds of it.
pub proof fn lemma_visible_membership(
    projects: Seq<ProjectView>,
    query: Seq<char>,
    tags: TagsView,
    project: ProjectView,
)
    ensures
        visible(projects, query, tags).contains(project) <==> projects.contains(project)
            && is_substring(query, project.name) && tag_predicate(project, tags),
{
    broadcast use vstd::seq_lib::group_to_multiset_ensures;

    let pred = |p: ProjectView| shown(p, query, tags);
    let kept = matching(projects, query, tags);
    lemma_sort_same_entries(kept);
    let list = visible(projects, query, tags);
    assert(list.contains(project) <==> kept.contains(project)) by {
        assert(list.to_multiset().count(project) == kept.to_multiset().count(project));
    }
    if kept.contains(project) {
        projects.lemma_filter_contains_rev(pred, project);
        let k = choose|k: int| 0 <= k < kept.len() && kept[k] == project;
        projects.lemma_filter_pred(pred, k);
    }
    if projects.contains(project) && shown(project, query, tags) {
        let k = choose|k: int| 0 <= k < projects.len() && projects[k] == project;
        projects.lemma_filter_contains(pred, k);
    }
}

/// The list as shown is in ascending order of name.
pub proof fn lemma_visible_sorted(projects: Seq<ProjectView>, query: Seq<char>, tags: TagsView)
    ensures
        sorted_by_name(visible(projects, query, tags)),
{
    lemma_sort_sorted(matching(projects, query, tags));
}

/// Listed projects of one name stand in catalog order: under each name the
/// list shows what the catalog holds under it that passes the filter, in
/// the catalog's order.
pub proof fn lemma_visible_stable(
    projects: Seq<ProjectView>,
    query: Seq<char>,
    tags: TagsView,
    name: Seq<char>,
)
    ensures
        named(visible(projects, query, tags), name) == named(matching(projects, query, tags), name),
{
    lemma_sort_stable(matching(projects, query, tags), name);
}

/// The list is as long as the number of projects that pass the filter, and
/// never longer than the catalog.
pub proof fn lemma_visible_len(projects: Seq<ProjectView>, query: Seq<char>, tags: TagsView)
    ensures
        visible(projects, query, tags).len() == matching(projects, query, tags).len(),
        visible(projects, query, tags).len() <= projects.len(),
{
    lemma_sort_same_entries(matching(projects, query, tags));
    projects.lemma_filter_len(|p: ProjectView| shown(p, query, tags));
}

/// The list as shown is the one list in ascending order of name that
/// holds, under every name, the projects of that name that pass the filter,
/// in catalog order.
pub proof fn lemma_visible_characterised(
    projects: Seq<ProjectView>,
    query: Seq<char>,
    tags: TagsView,
    list: Seq<ProjectView>,
)
    requires
        sorted_by_name(list),
        forall|name: Seq<char>| named(list, name) == named(matching(projects, query, tags), name),
    ensures
        list == visible(projects, query, tags),
{
    let shown_list = visible(projects, query, tags);
    lemma_visible_sorted(projects, query, tags);
    assert forall|name: Seq<char>| named(list, name) == named(shown_list, name) by {
        lemma_visible_stable(projects, query, tags, name);
    }
    lemma_sorted_lists_agree(list, shown_list);
}

/// Filtering the list as shown once more, with the same query and tags,
/// gives the same list.
pub proof fn lemma_visible_again(projects: Seq<ProjectView>, query: Seq<char>, tags: TagsView)
    ensures
        visible(visible(projects, query, tags), query, tags) == visible(projects, query, tags),
{
    let pred = |p: ProjectView| shown(p, query, tags);
    let list = visible(projects, query, tags);
    assert forall|k: int| 0 <= k < list.len() implies pred(#[trigger] list[k]) by {
        assert(list.contains(list[k]));
        lemma_visible_membership(projects, query, tags, list[k]);
    }
    lemma_filter_all(list, pred);
    lemma_visible_sorted(projects, query, tags);
    lemma_sort_of_sorted(list);
}

/// The list as shown: the projects whose name contains `query` and that
/// meet the tag predicate, in ascending order of name, projects of one name
/// in catalog order.
pub fn visible_projects<'a>(
    projects: &'a Vec<Project>,
    query: &str,
    tags: &Vec<(String, bool)>,
) -> (list: Vec<&'a Project>)
    ensures
        borrowed_views(list@) == visible(project_views(projects@), query@, tags_view(tags@)),
{
    let mut list: Vec<&'a Project> = Vec::new();
    let ghost all = project_views(projects@);
    let ghost pred = |p: ProjectView| shown(p, query@, tags_view(tags@));
    let mut i: usize = 0;
    proof {
        reveal(Seq::filter);
        assert(all.take(0).filter(pred) =~= Seq::<ProjectView>::empty());
        assert(borrowed_views(list@) =~= Seq::<ProjectView>::empty());
    }
    while i < projects.len()
        invariant
            i <= projects.len(),
            all == project_views(projects@),
            pred == |p: ProjectView| shown(p, query@, tags_view(tags@)),
            borrowed_views(list@) == sort_by_name(all.take(i as int).filter(pred)),
        decreases projects.len() - i,
    {
        let project = &projects[i];
        proof {
            assert(all.take(i + 1) =~= all.take(i as int).push(project@));
            all.take(i as int).lemma_filter_push(project@, pred);
        }
        if passes(project, query, tags) {
            let ghost sorted = borrowed_views(list@);
            let mut pos: usize = list.len();
            while pos > 0 && str_lt(project.name.as_str(), list[pos - 1].name.as_str())
                invariant
                    pos <= list.len(),
                    sorted == borrowed_views(list@),
                    forall|j: int|
                        pos <= j < sorted.len() ==> lex_lt(
                            project@.name,
                            #[trigger] sorted[j].name,
                        ),
                decreases pos,
            {
                pos -= 1;
            }
            proof {
                lemma_insert_index(sorted, project@, pos as int);
                let kept = all.take(i as int).filter(pred);
                assert(kept.push(project@).drop_last() =~= kept);
            }
            list.insert(pos, project);
            assert(borrowed_views(list@) =~= sorted.insert(pos as int, project@));
        }
        i += 1;
    }
    assert(all.take(i as int) =~= all);
    list
}

} // verus!
