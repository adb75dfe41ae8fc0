//! Recent Zed workspaces: reading a workspace's paths out of its database row,
//! naming it, and keeping one project per first path.
use vstd::prelude::*;

use crate::paths::{file_name_of, path_file_name};
use crate::text::{
    join, join_strings, lacks_char, lemma_nonempty_parts_shape, nonempty_parts, split_nonempty,
};

verus! {

/// A recent workspace: its paths that exist on disk, in order, and its display name.
pub struct Project {
    pub paths: Vec<String>,
    pub name: String,
}

/// The abstract value of a `Project`.
pub struct ProjectView {
    pub paths: Seq<Seq<char>>,
    pub name: Seq<char>,
}

impl View for Project {
    type V = ProjectView;

    open spec fn view(&self) -> ProjectView {
        ProjectView { paths: self.paths.deep_view(), name: self.name@ }
    }
}

/// The views of a sequence of projects.
pub open spec fn project_views(s: Seq<Project>) -> Seq<ProjectView> {
    s.map_values(|p: Project| p@)
}

/// The paths of a workspace row: its non-empty lines.
pub open spec fn workspace_paths_of(raw: Seq<char>) -> Seq<Seq<char>> {
    nonempty_parts(raw, '\n')
}

/// How a path is shown: its file name, or the whole path when it has none.
pub open spec fn display_name(p: Seq<char>) -> Seq<char> {
    match path_file_name(p) {
        Some(n) => n,
        None => p,
    }
}

/// The name of a workspace: the display names of its paths, joined with `", "`.
pub open spec fn project_name_of(paths: Seq<Seq<char>>) -> Seq<char> {
    join(paths.map_values(|p: Seq<char>| display_name(p)), ", "@)
}

/// The paths of a row whose existence flag is set, in order.
pub open spec fn existing_paths(row: Seq<(Seq<char>, bool)>) -> Seq<Seq<char>>
    decreases row.len(),
{
    if row.len() == 0 {
        Seq::<Seq<char>>::empty()
    } else {
        let prev = existing_paths(row.drop_last());
        if row.last().1 {
            prev.push(row.last().0)
        } else {
            prev
        }
    }
}

/// The first listed path of each row that lists any, in row order.
pub open spec fn listed_firsts(rows: Seq<Seq<(Seq<char>, bool)>>) -> Seq<Seq<char>>
    decreases rows.len(),
{
    if rows.len() == 0 {
        Seq::<Seq<char>>::empty()
    } else {
        let prev = listed_firsts(rows.drop_last());
        if rows.last().len() > 0 {
            prev.push(rows.last()[0].0)
        } else {
            prev
        }
    }
}

/// The project a row makes: its existing paths, named after them.
pub open spec fn project_of_row(row: Seq<(Seq<char>, bool)>) -> ProjectView {
    ProjectView { paths: existing_paths(row), name: project_name_of(existing_paths(row)) }
}

/// The projects of the workspace rows, most recent first. Only the most recent row
/// with a given first listed path counts; it makes a project of its existing paths,
/// unless none of them exists. Rows that list no path are skipped.
pub open spec fn projects_of(rows: Seq<Seq<(Seq<char>, bool)>>) -> Seq<ProjectView>
    decreases rows.len(),
{
    if rows.len() == 0 {
        Seq::<ProjectView>::empty()
    } else {
        let prev = projects_of(rows.drop_last());
        let row = rows.last();
        if row.len() == 0 || listed_firsts(rows.drop_last()).contains(row[0].0)
            || existing_paths(row).len() == 0 {
            prev
        } else {
            prev.push(project_of_row(row))
        }
    }
}

/// Row `r` lists a path, and no earlier row starts with the same path.
pub open spec fn is_first_listing(rows: Seq<Seq<(Seq<char>, bool)>>, r: int) -> bool {
    &&& rows[r].len() > 0
    &&& forall|q: int|
        0 <= q < r ==> (#[trigger] rows[q]).len() == 0 || rows[q][0].0 != rows[r][0].0
}

/// `src` lists, in increasing order, the rows that the projects `ps` come from: each is
/// the most recent row with its first listed path, has an existing path, and makes its
/// project; no two of them start with the same path; and every such row is listed.
pub open spec fn project_sources(
    rows: Seq<Seq<(Seq<char>, bool)>>,
    ps: Seq<ProjectView>,
    src: Seq<int>,
) -> bool {
    &&& src.len() == ps.len()
    &&& forall|j: int|
        0 <= j < ps.len() ==> 0 <= #[trigger] src[j] < rows.len() && is_first_listing(rows, src[j])
            && existing_paths(rows[src[j]]).len() > 0 && ps[j] == project_of_row(rows[src[j]])
    &&& forall|i: int, j: int| 0 <= i < j < ps.len() ==> #[trigger] src[i] < #[trigger] src[j]
    &&& forall|i: int, j: int|
        0 <= i < j < ps.len() ==> rows[#[trigger] src[i]][0].0 != rows[#[trigger] src[j]][0].0
    &&& forall|r: int|
        0 <= r < rows.len() && #[trigger] is_first_listing(rows, r) && existing_paths(rows[r]).len()
            > 0 ==> src.contains(r)
}

/// `row` lists `p` as existing.
pub open spec fn listed_as_existing(row: Seq<(Seq<char>, bool)>, p: Seq<char>) -> bool {
    exists|t: int| 0 <= t < row.len() && #[trigger] row[t] == (p, true)
}

/// Some row lists `p` as existing.
pub open spec fn listed_in_rows(rows: Seq<Seq<(Seq<char>, bool)>>, p: Seq<char>) -> bool {
    exists|r: int| 0 <= r < rows.len() && #[trigger] listed_as_existing(rows[r], p)
}

/// Every path a row keeps is listed in the row as existing.
proof fn lemma_existing_paths_listed(row: Seq<(Seq<char>, bool)>)
    ensures
        forall|k: int|
            0 <= k < existing_paths(row).len() ==> listed_as_existing(
                row,
                #[trigger] existing_paths(row)[k],
            ),
    decreases row.len(),
{
    if row.len() > 0 {
        let front = row.drop_last();
        lemma_existing_paths_listed(front);
        let prev = existing_paths(front);
        assert forall|k: int| 0 <= k < existing_paths(row).len() implies listed_as_existing(
            row,
            #[trigger] existing_paths(row)[k],
        ) by {
            if k < prev.len() {
                assert(existing_paths(row)[k] == prev[k]);
                assert(listed_as_existing(front, prev[k]));
                let t0 = choose|t: int| 0 <= t < front.len() && #[trigger] front[t] == (prev[k], true);
                assert(row[t0] == front[t0]);
            } else {
                assert(row[row.len() - 1] == row.last());
                assert(row[row.len() - 1] == (existing_paths(row)[k], true));
            }
        }
    }
}

/// A row's path is non-empty and holds no line break.
pub open spec fn is_single_line_path(p: Seq<char>) -> bool {
    p.len() > 0 && lacks_char(p, '\n')
}

/// A path is among the first listed paths exactly when some row starts with it.
proof fn lemma_listed_firsts(rows: Seq<Seq<(Seq<char>, bool)>>, p: Seq<char>)
    ensures
        listed_firsts(rows).contains(p) <==> exists|q: int|
            0 <= q < rows.len() && (#[trigger] rows[q]).len() > 0 && rows[q][0].0 == p,
    decreases rows.len(),
{
    if rows.len() > 0 {
        let front = rows.drop_last();
        lemma_listed_firsts(front, p);
        let prev = listed_firsts(front);
        if listed_firsts(rows).contains(p) {
            let k = choose|k: int| 0 <= k < listed_firsts(rows).len() && listed_firsts(rows)[k] == p;
            if k < prev.len() {
                assert(listed_firsts(rows)[k] == prev[k]);
                assert(prev.contains(p));
                let q = choose|q: int| 0 <= q < front.len() && (#[trigger] front[q]).len() > 0 && front[q][0].0 == p;
                assert(rows[q] == front[q]);
            } else {
                assert(rows[rows.len() - 1] == rows.last());
            }
        }
        if exists|q: int| 0 <= q < rows.len() && (#[trigger] rows[q]).len() > 0 && rows[q][0].0 == p {
            let q = choose|q: int| 0 <= q < rows.len() && (#[trigger] rows[q]).len() > 0 && rows[q][0].0 == p;
            if q < front.len() {
                assert(front[q] == rows[q]);
                assert(prev.contains(p));
                let k = choose|k: int| 0 <= k < prev.len() && prev[k] == p;
                assert(listed_firsts(rows)[k] == prev[k]);
            } else {
                assert(rows.last() == rows[q]);
                assert(listed_firsts(rows)[prev.len() as int] == p);
            }
        }
    }
}

/// The projects come, in row order, from exactly the rows that are the most recent
/// with their first listed path and have an existing path, one project per such row.
pub proof fn lemma_projects_of(rows: Seq<Seq<(Seq<char>, bool)>>)
    ensures
        exists|src: Seq<int>| #[trigger] project_sources(rows, projects_of(rows), src),
    decreases rows.len(),
{
    if rows.len() == 0 {
        assert(project_sources(rows, projects_of(rows), Seq::<int>::empty()));
        return;
    }
    let front = rows.drop_last();
    let last = rows.len() - 1;
    lemma_projects_of(front);
    let prev = projects_of(front);
    let src0 = choose|src: Seq<int>| #[trigger] project_sources(front, prev, src);
    let row = rows.last();
    assert(rows[last] == row);
    assert forall|r: int| 0 <= r < last implies #[trigger] is_first_listing(rows, r) == is_first_listing(
        front,
        r,
    ) by {
        assert(rows[r] == front[r]);
        assert forall|q: int| 0 <= q < r implies rows[q] == front[q] by {}
        if is_first_listing(front, r) {
            assert forall|q: int| 0 <= q < r implies (#[trigger] rows[q]).len() == 0 || rows[q][0].0
                != rows[r][0].0 by {
                assert(rows[q] == front[q]);
            }
        }
        if is_first_listing(rows, r) {
            assert forall|q: int| 0 <= q < r implies (#[trigger] front[q]).len() == 0 || front[q][0].0
                != front[r][0].0 by {
                assert(rows[q] == front[q]);
            }
        }
    }
    if row.len() > 0 {
        lemma_listed_firsts(front, row[0].0);
        if is_first_listing(rows, last) {
            if listed_firsts(front).contains(row[0].0) {
                let q = choose|q: int|
                    0 <= q < front.len() && (#[trigger] front[q]).len() > 0 && front[q][0].0 == row[0].0;
                assert(rows[q] == front[q]);
            }
        } else {
            let q = choose|q: int|
                0 <= q < last && !((#[trigger] rows[q]).len() == 0 || rows[q][0].0 != rows[last][0].0);
            assert(front[q] == rows[q]);
        }
    }
    assert forall|j: int| 0 <= j < prev.len() implies 0 <= #[trigger] src0[j] < rows.len() && is_first_listing(
        rows,
        src0[j],
    ) && existing_paths(rows[src0[j]]).len() > 0 && prev[j] == project_of_row(rows[src0[j]]) by {
        assert(rows[src0[j]] == front[src0[j]]);
        assert(is_first_listing(rows, src0[j]) == is_first_listing(front, src0[j]));
    }
    if row.len() == 0 || listed_firsts(front).contains(row[0].0) || existing_paths(row).len() == 0 {
        assert(projects_of(rows) == prev);
        assert forall|r: int|
            0 <= r < rows.len() && #[trigger] is_first_listing(rows, r) && existing_paths(rows[r]).len()
                > 0 implies src0.contains(r) by {
            if r < last {
                assert(is_first_listing(front, r));
                assert(rows[r] == front[r]);
            }
        }
        assert(project_sources(rows, projects_of(rows), src0));
    } else {
        let all = prev.push(project_of_row(row));
        assert(projects_of(rows) == all);
        let src = src0.push(last);
        assert forall|j: int| 0 <= j < all.len() implies 0 <= #[trigger] src[j] < rows.len() && is_first_listing(
            rows,
            src[j],
        ) && existing_paths(rows[src[j]]).len() > 0 && all[j] == project_of_row(rows[src[j]]) by {
            if j < prev.len() {
                assert(src[j] == src0[j]);
                assert(all[j] == prev[j]);
            }
        }
        assert forall|i: int, j: int| 0 <= i < j < all.len() implies #[trigger] src[i] < #[trigger] src[j] by {
            assert(src[i] == src0[i]);
            if j < prev.len() {
                assert(src[j] == src0[j]);
            }
        }
        assert forall|r: int|
            0 <= r < rows.len() && #[trigger] is_first_listing(rows, r) && existing_paths(rows[r]).len()
                > 0 implies src.contains(r) by {
            if r < last {
                assert(is_first_listing(front, r));
                assert(rows[r] == front[r]);
                assert(src0.contains(r));
                let k = choose|k: int| 0 <= k < src0.len() && src0[k] == r;
                assert(src[k] == src0[k]);
            } else {
                assert(src[prev.len() as int] == last);
            }
        }
        assert(project_sources(rows, projects_of(rows), src));
    }
}

/// Every project has a path; its paths are listed as existing in some row; and no two
/// projects come from rows that start with the same path.
pub proof fn lemma_projects_shape(rows: Seq<Seq<(Seq<char>, bool)>>)
    ensures
        forall|j: int| 0 <= j < projects_of(rows).len() ==> (#[trigger] projects_of(rows)[j]).paths.len() > 0,
        forall|j: int, k: int|
            0 <= j < projects_of(rows).len() && 0 <= k < projects_of(rows)[j].paths.len()
                ==> listed_in_rows(rows, #[trigger] projects_of(rows)[j].paths[k]),
{
    lemma_projects_of(rows);
    let ps = projects_of(rows);
    let src = choose|src: Seq<int>| #[trigger] project_sources(rows, ps, src);
    assert forall|j: int| 0 <= j < ps.len() implies (#[trigger] ps[j]).paths.len() > 0 by {
        assert(0 <= src[j] < rows.len());
    }
    assert forall|j: int, k: int| 0 <= j < ps.len() && 0 <= k < ps[j].paths.len() implies listed_in_rows(
        rows,
        #[trigger] ps[j].paths[k],
    ) by {
        assert(0 <= src[j] < rows.len());
        lemma_existing_paths_listed(rows[src[j]]);
        assert(listed_as_existing(rows[src[j]], existing_paths(rows[src[j]])[k]));
    }
}

/// When every path of every row is a non-empty single line, so is every path listed
/// as existing.
pub proof fn lemma_listed_single_line(rows: Seq<Seq<(Seq<char>, bool)>>, p: Seq<char>)
    requires
        forall|r: int, t: int|
            0 <= r < rows.len() && 0 <= t < rows[r].len() ==> is_single_line_path(#[trigger] rows[r][t].0),
        listed_in_rows(rows, p),
    ensures
        is_single_line_path(p),
{
    let r0 = choose|r: int| 0 <= r < rows.len() && #[trigger] listed_as_existing(rows[r], p);
    let t0 = choose|t: int| 0 <= t < rows[r0].len() && #[trigger] rows[r0][t] == (p, true);
    assert(is_single_line_path(rows[r0][t0].0));
}

/// The paths listed in a workspace row of Zed's database: its non-empty lines.
pub fn workspace_paths(raw: &str) -> (r: Vec<String>)
    ensures
        r.deep_view() == workspace_paths_of(raw@),
        forall|k: int| 0 <= k < r@.len() ==> is_single_line_path(#[trigger] r.deep_view()[k]),
{
    proof {
        lemma_nonempty_parts_shape(raw@, '\n');
    }
    split_nonempty(raw, '\n')
}

/// The display name of a path: its file name, or the whole path when it has none.
fn display_name_of(p: &str) -> (r: String)
    ensures
        r@ == display_name(p@),
{
    match file_name_of(p) {
        Some(n) => n,
        None => p.to_owned(),
    }
}

/// The name of a workspace with the given paths: their file names joined with `", "`.
pub fn project_name(paths: &Vec<String>) -> (r: String)
    ensures
        r@ == project_name_of(paths.deep_view()),
{
    let mut names: Vec<String> = Vec::new();
    let mut i: usize = 0;
    while i < paths.len()
        invariant
            i <= paths.len(),
            names.deep_view() == paths.deep_view().take(i as int).map_values(
                |p: Seq<char>| display_name(p),
            ),
        decreases paths.len() - i,
    {
        let ghost before = names.deep_view();
        let n = display_name_of(paths[i].as_str());
        names.push(n);
        assert(names.deep_view() =~= before.push(display_name(paths[i as int]@)));
        assert(paths.deep_view().take(i + 1).map_values(|p: Seq<char>| display_name(p))
            =~= paths.deep_view().take(i as int).map_values(|p: Seq<char>| display_name(p)).push(
            display_name(paths[i as int]@),
        ));
        i += 1;
    }
    assert(paths.deep_view().take(paths.len() as int) =~= paths.deep_view());
    join_strings(&names, ", ")
}

/// The paths of `row` whose existence flag is set.
fn existing_of(row: &Vec<(String, bool)>) -> (r: Vec<String>)
    ensures
        r.deep_view() == existing_paths(row.deep_view()),
{
    let mut out: Vec<String> = Vec::new();
    let mut i: usize = 0;
    while i < row.len()
        invariant
            i <= row.len(),
            out.deep_view() == existing_paths(row.deep_view().take(i as int)),
        decreases row.len() - i,
    {
        let ghost before = out.deep_view();
        assert(row.deep_view().take(i + 1).drop_last() =~= row.deep_view().take(i as int));
        assert(row.deep_view().take(i + 1).last() == row.deep_view()[i as int]);
        if row[i].1 {
            out.push(row[i].0.clone());
            assert(out.deep_view() =~= before.push(row[i as int].0@));
        }
        i += 1;
    }
    assert(row.deep_view().take(row.len() as int) =~= row.deep_view());
    out
}

/// Whether `v` holds `key`.
fn holds_string(v: &Vec<String>, key: &String) -> (b: bool)
    ensures
        b == v.deep_view().contains(key@),
{
    let mut i: usize = 0;
    while i < v.len()
        invariant
            i <= v.len(),
            forall|j: int| 0 <= j < i ==> v.deep_view()[j] != key@,
        decreases v.len() - i,
    {
        if v[i] == *key {
            assert(v.deep_view()[i as int] == key@);
            return true;
        }
        i += 1;
    }
    false
}

/// The projects of Zed's recent workspaces. Each row lists a workspace's paths with
/// whether each exists on disk, most recent workspace first. Only the most recent
/// workspace with a given first path counts; it becomes a project of its existing
/// paths, unless none of them exists.
pub fn query_projects(rows: &Vec<Vec<(String, bool)>>) -> (r: Vec<Project>)
    ensures
        project_views(r@) == projects_of(rows.deep_view()),
{
    let mut out: Vec<Project> = Vec::new();
    let mut seen: Vec<String> = Vec::new();
    let mut i: usize = 0;
    while i < rows.len()
        invariant
            i <= rows.len(),
            project_views(out@) == projects_of(rows.deep_view().take(i as int)),
            seen.deep_view() == listed_firsts(rows.deep_view().take(i as int)),
        decreases rows.len() - i,
    {
        let ghost prev = project_views(out@);
        let ghost prev_seen = seen.deep_view();
        assert(rows.deep_view().take(i + 1).drop_last() =~= rows.deep_view().take(i as int));
        assert(rows.deep_view().take(i + 1).last() == rows[i as int].deep_view());
        if rows[i].len() > 0 {
            let key = &rows[i][0].0;
            assert(rows[i as int].deep_view()[0].0 == key@);
            let found = holds_string(&seen, key);
            seen.push(key.clone());
            assert(seen.deep_view() =~= prev_seen.push(key@));
            if !found {
                let ex = existing_of(&rows[i]);
                if ex.len() > 0 {
                    let name = project_name(&ex);
                    out.push(Project { paths: ex, name });
                    assert(project_views(out@) =~= prev.push(
                        ProjectView {
                            paths: out@[out@.len() - 1].paths.deep_view(),
                            name: out@[out@.len() - 1].name@,
                        },
                    ));
                }
            }
        }
        i += 1;
    }
    assert(rows.deep_view().take(rows.len() as int) =~= rows.deep_view());
    out
}

} // verus!
