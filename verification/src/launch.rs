//! Opening a chosen match: reading the match id back, and deciding which commands
//! open the workspace.
use vstd::prelude::*;

use crate::matching::{
    subtext_of, all_matches, instance_matches, match_id_of, match_of, paths_text, score_of, MatchView, ZedRunner,
    EXACT_MATCH_TYPE,
};
use crate::desktop::InstanceView;
use crate::projects::ProjectView;
use crate::text::{
    append_chars, chars_of, lacks_char, lemma_parts_of_join, nonempty_parts, split_nonempty,
    string_from_chars,
};

verus! {

/// What a match id names: the executable, the desktop app id and the workspace paths.
pub struct MatchTarget {
    pub exec_path: String,
    pub app_id: String,
    pub paths: Vec<String>,
}

/// The abstract value of a `MatchTarget`.
pub open spec fn target_view(t: MatchTarget) -> (Seq<char>, Seq<char>, Seq<Seq<char>>) {
    (t.exec_path@, t.app_id@, t.paths.deep_view())
}

/// The first index at or after `i` that holds `c` (or `s.len()`).
pub open spec fn index_from(s: Seq<char>, c: char, i: int) -> int
    decreases s.len() - i,
{
    if 0 <= i < s.len() && s[i] != c {
        index_from(s, c, i + 1)
    } else {
        i
    }
}

/// `id.splitn(3, '|')` read as executable, app id and workspace paths (the non-empty
/// lines of the third part); `None` when `id` holds fewer than two `|`.
pub open spec fn parse_match_id_of(id: Seq<char>) -> Option<(Seq<char>, Seq<char>, Seq<Seq<char>>)> {
    let i = index_from(id, '|', 0);
    if i >= id.len() {
        None
    } else {
        let j = index_from(id, '|', i + 1);
        if j >= id.len() {
            None
        } else {
            Some((id.take(i), id.subrange(i + 1, j), nonempty_parts(id.skip(j + 1), '\n')))
        }
    }
}

/// The characters of `v` from `from` up to `to`.
fn slice_chars(v: &Vec<char>, from: usize, to: usize) -> (r: Vec<char>)
    requires
        from <= to <= v.len(),
    ensures
        r@ == v@.subrange(from as int, to as int),
{
    let mut r: Vec<char> = Vec::new();
    let mut i: usize = from;
    while i < to
        invariant
            from <= i <= to,
            to <= v.len(),
            r@ == v@.subrange(from as int, i as int),
        decreases to - i,
    {
        r.push(v[i]);
        i += 1;
        assert(r@ =~= v@.subrange(from as int, i as int));
    }
    r
}

/// The first index at or after `from` in `v` that holds `c`, or `v.len()`.
fn find_from(v: &Vec<char>, c: char, from: usize) -> (r: usize)
    requires
        from <= v.len(),
    ensures
        r as int == index_from(v@, c, from as int),
        from <= r <= v.len(),
{
    let mut i: usize = from;
    while i < v.len() && v[i] != c
        invariant
            from <= i <= v.len(),
            index_from(v@, c, i as int) == index_from(v@, c, from as int),
        decreases v.len() - i,
    {
        i += 1;
    }
    i
}

/// Reads a match id back: the executable, the app id and the workspace paths;
/// `None` when the id holds fewer than two `|`.
pub fn parse_match_id(id: &str) -> (r: Option<MatchTarget>)
    ensures
        match r {
            Some(t) => parse_match_id_of(id@) == Some(target_view(t)),
            None => parse_match_id_of(id@) is None,
        },
{
    let v = chars_of(id);
    let i = find_from(&v, '|', 0);
    if i >= v.len() {
        return None;
    }
    let j = find_from(&v, '|', i + 1);
    if j >= v.len() {
        return None;
    }
    let exec = slice_chars(&v, 0, i);
    let app = slice_chars(&v, i + 1, j);
    let rest = slice_chars(&v, j + 1, v.len());
    assert(v@.subrange(0, i as int) =~= v@.take(i as int));
    assert(v@.subrange(j + 1, v.len() as int) =~= v@.skip(j + 1));
    let rest_s = string_from_chars(&rest);
    let paths = split_nonempty(rest_s.as_str(), '\n');
    Some(MatchTarget { exec_path: string_from_chars(&exec), app_id: string_from_chars(&app), paths })
}

/// A program to start and its arguments.
pub struct Command {
    pub program: String,
    pub args: Vec<String>,
}

/// How to open a workspace: start `primary`, and if it cannot be started, `fallback`.
pub struct LaunchPlan {
    pub primary: Command,
    pub fallback: Command,
}

/// The abstract value of a `LaunchPlan`: program and arguments of each command.
pub open spec fn plan_view(p: LaunchPlan) -> ((Seq<char>, Seq<Seq<char>>), (Seq<char>, Seq<Seq<char>>)) {
    (
        (p.primary.program@, p.primary.args.deep_view()),
        (p.fallback.program@, p.fallback.args.deep_view()),
    )
}

/// The paths whose directory flag is set, in order.
pub open spec fn directories_of(paths: Seq<Seq<char>>, is_dir: Seq<bool>) -> Seq<Seq<char>>
    decreases paths.len(),
{
    if paths.len() == 0 {
        Seq::<Seq<char>>::empty()
    } else {
        let prev = directories_of(paths.drop_last(), is_dir);
        if is_dir[paths.len() - 1] {
            prev.push(paths.last())
        } else {
            prev
        }
    }
}

/// How to open one path: `kstart --application <app id> --url file://<path>`, falling
/// back to `<exec> <path>`.
pub open spec fn single_path_plan(exec: Seq<char>, app_id: Seq<char>, path: Seq<char>) -> (
    (Seq<char>, Seq<Seq<char>>),
    (Seq<char>, Seq<Seq<char>>),
) {
    (("kstart"@, seq!["--application"@, app_id, "--url"@, "file://"@ + path]), (exec, seq![path]))
}

/// The commands that open a workspace. A single path is opened on its own (see
/// `single_path_plan`). Several paths open together in a new window, directories only:
/// `kstart -- <exec> --new <dirs>`, falling back to `<exec> --new <dirs>`; when none of
/// them is a directory, the first path is opened on its own. Nothing is opened without
/// paths, or when the directory flags do not match the paths one for one.
pub open spec fn plan_of(exec: Seq<char>, app_id: Seq<char>, paths: Seq<Seq<char>>, is_dir: Seq<bool>) -> Option<
    ((Seq<char>, Seq<Seq<char>>), (Seq<char>, Seq<Seq<char>>)),
> {
    if is_dir.len() != paths.len() || paths.len() == 0 {
        None
    } else if paths.len() == 1 {
        Some(single_path_plan(exec, app_id, paths[0]))
    } else {
        let dirs = directories_of(paths, is_dir);
        if dirs.len() == 0 {
            Some(single_path_plan(exec, app_id, paths[0]))
        } else {
            Some(
                (
                    ("kstart"@, seq!["--"@, exec, "--new"@] + dirs),
                    (exec, seq!["--new"@] + dirs),
                ),
            )
        }
    }
}

/// The plan that opens the single path `p`.
fn single_plan(exec: &String, app_id: &String, p: &String) -> (plan: LaunchPlan)
    ensures
        plan_view(plan) == single_path_plan(exec@, app_id@, p@),
{
    let mut url = chars_of("file://");
    let pv = chars_of(p.as_str());
    append_chars(&mut url, &pv);
    let mut args: Vec<String> = Vec::new();
    args.push("--application".to_owned());
    args.push(app_id.clone());
    args.push("--url".to_owned());
    args.push(string_from_chars(&url));
    let mut fb: Vec<String> = Vec::new();
    fb.push(p.clone());
    let plan = LaunchPlan {
        primary: Command { program: "kstart".to_owned(), args },
        fallback: Command { program: exec.clone(), args: fb },
    };
    assert(plan_view(plan).0.1 =~= seq!["--application"@, app_id@, "--url"@, "file://"@ + p@]);
    assert(plan_view(plan).1.1 =~= seq![p@]);
    plan
}

/// Appends the paths whose directory flag is set to `out`.
fn push_directories(out: &mut Vec<String>, paths: &Vec<String>, is_dir: &Vec<bool>)
    requires
        is_dir.len() == paths.len(),
    ensures
        final(out).deep_view() == old(out).deep_view() + directories_of(paths.deep_view(), is_dir@),
{
    let ghost start = out.deep_view();
    let mut i: usize = 0;
    while i < paths.len()
        invariant
            i <= paths.len(),
            is_dir.len() == paths.len(),
            out.deep_view() == start + directories_of(paths.deep_view().take(i as int), is_dir@),
        decreases paths.len() - i,
    {
        let ghost before = out.deep_view();
        assert(paths.deep_view().take(i + 1).drop_last() =~= paths.deep_view().take(i as int));
        assert(paths.deep_view().take(i + 1).last() == paths[i as int]@);
        if is_dir[i] {
            out.push(paths[i].clone());
            assert(out.deep_view() =~= before.push(paths[i as int]@));
        }
        i += 1;
    }
    assert(paths.deep_view().take(paths.len() as int) =~= paths.deep_view());
}

/// `index_from` stops at the first `c` at or after `k` when the text from `k` up to
/// `stop` holds no `c`.
proof fn lemma_index_from_stops(s: Seq<char>, c: char, k: int, stop: int)
    requires
        0 <= k <= stop < s.len(),
        s[stop] == c,
        forall|t: int| k <= t < stop ==> s[t] != c,
    ensures
        index_from(s, c, k) == stop,
    decreases stop - k,
{
    if k < stop {
        lemma_index_from_stops(s, c, k + 1, stop);
    }
}

/// A match id read back gives the executable, app id and workspace paths it was made
/// of, provided the executable and app id hold no `|` and each path is non-empty and
/// free of line breaks.
pub proof fn lemma_match_id_round_trip(exec: Seq<char>, app_id: Seq<char>, paths: Seq<Seq<char>>)
    requires
        lacks_char(exec, '|'),
        lacks_char(app_id, '|'),
        forall|k: int| 0 <= k < paths.len() ==> lacks_char(#[trigger] paths[k], '\n'),
        forall|k: int| 0 <= k < paths.len() ==> (#[trigger] paths[k]).len() > 0,
    ensures
        parse_match_id_of(match_id_of(exec, app_id, paths)) == Some((exec, app_id, paths)),
{
    let id = match_id_of(exec, app_id, paths);
    let i = exec.len() as int;
    let j = i + 1 + app_id.len();
    assert(id[i] == '|');
    assert(id[j] == '|');
    assert forall|t: int| 0 <= t < i implies id[t] != '|' by {
        assert(id[t] == exec[t]);
    }
    assert forall|t: int| i + 1 <= t < j implies id[t] != '|' by {
        assert(id[t] == app_id[t - i - 1]);
    }
    lemma_index_from_stops(id, '|', 0, i);
    lemma_index_from_stops(id, '|', i + 1, j);
    assert(id.take(i) =~= exec);
    assert(id.subrange(i + 1, j) =~= app_id);
    assert(id.skip(j + 1) =~= paths_text(paths));
    lemma_parts_of_join(paths, '\n');
}

/// The id of every match that `match_query` reports names, when read back by `run`,
/// the installation's executable and app id and the project's paths (for installations
/// whose executable and app id hold no `|`, and projects whose paths are non-empty and
/// free of line breaks).
pub proof fn lemma_match_opens_its_project(
    query: Seq<char>,
    inst: InstanceView,
    proj: ProjectView,
    home: Option<Seq<char>>,
)
    requires
        lacks_char(inst.exec_path, '|'),
        lacks_char(inst.app_id, '|'),
        forall|k: int| 0 <= k < proj.paths.len() ==> lacks_char(#[trigger] proj.paths[k], '\n'),
        forall|k: int| 0 <= k < proj.paths.len() ==> (#[trigger] proj.paths[k]).len() > 0,
    ensures
        match_of(query, inst, proj, home) matches Some(m) ==> parse_match_id_of(m.id) == Some(
            (inst.exec_path, inst.app_id, proj.paths),
        ),
{
    lemma_match_id_round_trip(inst.exec_path, inst.app_id, proj.paths);
}

/// The paths part of a match id: what follows its second `|`.
pub open spec fn id_paths_text(id: Seq<char>) -> Seq<char> {
    let i = index_from(id, '|', 0);
    id.skip(index_from(id, '|', i + 1) + 1)
}

/// The two `|` of a match id sit right after the executable and after the app id,
/// when neither holds a `|`.
proof fn lemma_id_bars(exec: Seq<char>, app_id: Seq<char>, paths: Seq<Seq<char>>)
    requires
        lacks_char(exec, '|'),
        lacks_char(app_id, '|'),
    ensures
        index_from(match_id_of(exec, app_id, paths), '|', 0) == exec.len(),
        index_from(match_id_of(exec, app_id, paths), '|', (exec.len() + 1) as int) == exec.len() + 1
            + app_id.len(),
        id_paths_text(match_id_of(exec, app_id, paths)) == paths_text(paths),
{
    let id = match_id_of(exec, app_id, paths);
    let i = exec.len() as int;
    let j = i + 1 + app_id.len();
    assert(id[i] == '|');
    assert(id[j] == '|');
    assert forall|t: int| 0 <= t < i implies id[t] != '|' by {
        assert(id[t] == exec[t]);
    }
    assert forall|t: int| i + 1 <= t < j implies id[t] != '|' by {
        assert(id[t] == app_id[t - i - 1]);
    }
    lemma_index_from_stops(id, '|', 0, i);
    lemma_index_from_stops(id, '|', i + 1, j);
    assert(id.skip(j + 1) =~= paths_text(paths));
}

/// A match id holds at least two `|`.
pub open spec fn has_two_bars(id: Seq<char>) -> bool {
    exists|a: int, b: int| 0 <= a < b < id.len() && id[a] == '|' && id[b] == '|'
}

/// The match is the match of some project of some installation.
pub open spec fn match_comes_from(
    query: Seq<char>,
    srcs: Seq<(InstanceView, Seq<ProjectView>)>,
    home: Option<Seq<char>>,
    m: MatchView,
) -> bool {
    exists|i: int, j: int|
        0 <= i < srcs.len() && 0 <= j < srcs[i].1.len() && #[trigger] match_of(
            query,
            srcs[i].0,
            srcs[i].1[j],
            home,
        ) == Some(m)
}

/// Every match of one installation is the match of one of its projects.
proof fn lemma_instance_matches_from(
    query: Seq<char>,
    inst: InstanceView,
    projs: Seq<ProjectView>,
    home: Option<Seq<char>>,
)
    ensures
        forall|k: int|
            0 <= k < instance_matches(query, inst, projs, home).len() ==> exists|j: int|
                0 <= j < projs.len() && #[trigger] match_of(query, inst, projs[j], home) == Some(
                    #[trigger] instance_matches(query, inst, projs, home)[k],
                ),
    decreases projs.len(),
{
    if projs.len() > 0 {
        let front = projs.drop_last();
        lemma_instance_matches_from(query, inst, front, home);
        let prev = instance_matches(query, inst, front, home);
        let all = instance_matches(query, inst, projs, home);
        assert forall|k: int| 0 <= k < all.len() implies exists|j: int|
            0 <= j < projs.len() && #[trigger] match_of(query, inst, projs[j], home) == Some(
                #[trigger] all[k],
            ) by {
            if k < prev.len() {
                assert(all[k] == prev[k]);
                let j0 = choose|j: int|
                    0 <= j < front.len() && #[trigger] match_of(query, inst, front[j], home) == Some(prev[k]);
                assert(projs[j0] == front[j0]);
            } else {
                assert(projs[projs.len() - 1] == projs.last());
            }
        }
    }
}

/// Every match comes from a project, has the exact-match type, and has an id made of
/// the installation's executable and app id and the project's paths, so it holds at
/// least two `|`.
pub proof fn lemma_matches_come_from_projects(
    query: Seq<char>,
    srcs: Seq<(InstanceView, Seq<ProjectView>)>,
    home: Option<Seq<char>>,
)
    ensures
        forall|k: int|
            0 <= k < all_matches(query, srcs, home).len() ==> match_comes_from(
                query,
                srcs,
                home,
                #[trigger] all_matches(query, srcs, home)[k],
            ) && all_matches(query, srcs, home)[k].match_type == EXACT_MATCH_TYPE && has_two_bars(
                all_matches(query, srcs, home)[k].id,
            ),
    decreases srcs.len(),
{
    if srcs.len() > 0 {
        let front = srcs.drop_last();
        lemma_matches_come_from_projects(query, front, home);
        let prev = all_matches(query, front, home);
        let inst = srcs.last().0;
        let tail = instance_matches(query, inst, srcs.last().1, home);
        lemma_instance_matches_from(query, inst, srcs.last().1, home);
        let all = all_matches(query, srcs, home);
        assert(all == prev + tail);
        assert forall|k: int| 0 <= k < all.len() implies match_comes_from(
            query,
            srcs,
            home,
            #[trigger] all[k],
        ) && all[k].match_type == EXACT_MATCH_TYPE && has_two_bars(all[k].id) by {
            if k < prev.len() {
                assert(all[k] == prev[k]);
                assert(match_comes_from(query, front, home, prev[k]));
                let (i0, j0) = choose|i: int, j: int|
                    0 <= i < front.len() && 0 <= j < front[i].1.len() && #[trigger] match_of(
                        query,
                        front[i].0,
                        front[i].1[j],
                        home,
                    ) == Some(prev[k]);
                assert(srcs[i0] == front[i0]);
            } else {
                let t = k - prev.len();
                assert(all[k] == tail[t]);
                let j0 = choose|j: int|
                    0 <= j < srcs.last().1.len() && #[trigger] match_of(query, inst, srcs.last().1[j], home)
                        == Some(tail[t]);
                assert(srcs[srcs.len() - 1] == srcs.last());
                let proj = srcs.last().1[j0];
                let id = match_id_of(inst.exec_path, inst.app_id, proj.paths);
                assert(all[k].id == id);
                let a = inst.exec_path.len() as int;
                let b = a + 1 + inst.app_id.len();
                assert(id[a] == '|' && id[b] == '|');
            }
        }
    }
}

/// `m` is the match of project `proj` of installation `inst`: it shows the project's
/// name, the installation's icon and label, the project's paths as subtext, and its id
/// is the executable, app id and paths separated by `|`.
pub open spec fn made_from(
    query: Seq<char>,
    home: Option<Seq<char>>,
    m: MatchView,
    inst: InstanceView,
    proj: ProjectView,
) -> bool {
    &&& m.text == proj.name
    &&& m.icon == inst.icon
    &&& m.category == inst.label
    &&& m.match_type == 3
    &&& m.id == inst.exec_path + seq!['|'] + inst.app_id + seq!['|'] + paths_text(proj.paths)
    &&& m.subtext == subtext_of(proj.paths, home)
    &&& score_of(query, proj.name, paths_text(proj.paths)) == Some(m.score)
}

/// Every match carries what its own installation and project give it: the project's
/// name and paths, the installation's icon, label, executable and app id, and the score
/// the query gives the project.
pub proof fn lemma_match_carries_its_source(
    query: Seq<char>,
    srcs: Seq<(InstanceView, Seq<ProjectView>)>,
    home: Option<Seq<char>>,
    k: int,
)
    requires
        0 <= k < all_matches(query, srcs, home).len(),
    ensures
        exists|i: int, j: int|
            0 <= i < srcs.len() && 0 <= j < srcs[i].1.len() && #[trigger] made_from(
                query,
                home,
                all_matches(query, srcs, home)[k],
                srcs[i].0,
                srcs[i].1[j],
            ),
{
    lemma_matches_come_from_projects(query, srcs, home);
    let m = all_matches(query, srcs, home)[k];
    assert(match_comes_from(query, srcs, home, m));
    let (i0, j0) = choose|i: int, j: int|
        0 <= i < srcs.len() && 0 <= j < srcs[i].1.len() && #[trigger] match_of(
            query,
            srcs[i].0,
            srcs[i].1[j],
            home,
        ) == Some(m);
    assert(made_from(query, home, m, srcs[i0].0, srcs[i0].1[j0]));
}

/// The match with the relevance `query` gives it, if the query matches its name or
/// the paths in its id.
pub open spec fn rescore(query: Seq<char>, m: MatchView) -> Option<MatchView> {
    match score_of(query, m.text, id_paths_text(m.id)) {
        Some(s) => Some(
            MatchView {
                id: m.id,
                text: m.text,
                icon: m.icon,
                match_type: m.match_type,
                score: s,
                subtext: m.subtext,
                category: m.category,
            },
        ),
        None => None,
    }
}

/// The matches of `ms` that `query` matches, rescored, in order.
pub open spec fn rescored(query: Seq<char>, ms: Seq<MatchView>) -> Seq<MatchView>
    decreases ms.len(),
{
    if ms.len() == 0 {
        Seq::<MatchView>::empty()
    } else {
        let prev = rescored(query, ms.drop_last());
        match rescore(query, ms.last()) {
            Some(m) => prev.push(m),
            None => prev,
        }
    }
}

proof fn lemma_rescored_append(query: Seq<char>, a: Seq<MatchView>, b: Seq<MatchView>)
    ensures
        rescored(query, a + b) == rescored(query, a) + rescored(query, b),
    decreases b.len(),
{
    if b.len() == 0 {
        assert(a + b =~= a);
        assert(rescored(query, a) + rescored(query, b) =~= rescored(query, a));
    } else {
        lemma_rescored_append(query, a, b.drop_last());
        assert((a + b).drop_last() =~= a + b.drop_last());
        assert((a + b).last() == b.last());
        match rescore(query, b.last()) {
            Some(m) => {
                assert(rescored(query, a) + rescored(query, b.drop_last()).push(m) =~= (rescored(
                    query,
                    a,
                ) + rescored(query, b.drop_last())).push(m));
            },
            None => {},
        }
    }
}

proof fn lemma_instance_rescored(
    query: Seq<char>,
    inst: InstanceView,
    projs: Seq<ProjectView>,
    home: Option<Seq<char>>,
)
    requires
        lacks_char(inst.exec_path, '|'),
        lacks_char(inst.app_id, '|'),
    ensures
        instance_matches(query, inst, projs, home) == rescored(
            query,
            instance_matches(Seq::<char>::empty(), inst, projs, home),
        ),
    decreases projs.len(),
{
    if projs.len() > 0 {
        let front = projs.drop_last();
        lemma_instance_rescored(query, inst, front, home);
        let p = projs.last();
        lemma_id_bars(inst.exec_path, inst.app_id, p.paths);
        let m0 = match_of(Seq::<char>::empty(), inst, p, home).unwrap();
        assert(match_of(Seq::<char>::empty(), inst, p, home) is Some);
        let e = instance_matches(Seq::<char>::empty(), inst, projs, home);
        assert(e == instance_matches(Seq::<char>::empty(), inst, front, home).push(m0));
        assert(e.drop_last() =~= instance_matches(Seq::<char>::empty(), inst, front, home));
        assert(id_paths_text(m0.id) == paths_text(p.paths));
        assert(rescore(query, m0) == match_of(query, inst, p, home));
    }
}

/// The matches of any query are the empty query's matches that the query matches,
/// rescored, in the same order (for installations whose executable and app id hold
/// no `|`).
pub proof fn lemma_query_refines_empty_query(
    query: Seq<char>,
    srcs: Seq<(InstanceView, Seq<ProjectView>)>,
    home: Option<Seq<char>>,
)
    requires
        forall|i: int|
            0 <= i < srcs.len() ==> lacks_char((#[trigger] srcs[i]).0.exec_path, '|') && lacks_char(
                srcs[i].0.app_id,
                '|',
            ),
    ensures
        all_matches(query, srcs, home) == rescored(query, all_matches(Seq::<char>::empty(), srcs, home)),
    decreases srcs.len(),
{
    if srcs.len() > 0 {
        let front = srcs.drop_last();
        assert forall|i: int| 0 <= i < front.len() implies lacks_char((#[trigger] front[i]).0.exec_path, '|')
            && lacks_char(front[i].0.app_id, '|') by {
            assert(front[i] == srcs[i]);
        }
        lemma_query_refines_empty_query(query, front, home);
        assert(srcs[srcs.len() - 1] == srcs.last());
        lemma_instance_rescored(query, srcs.last().0, srcs.last().1, home);
        lemma_rescored_append(
            query,
            all_matches(Seq::<char>::empty(), front, home),
            instance_matches(Seq::<char>::empty(), srcs.last().0, srcs.last().1, home),
        );
    }
}

/// `p` is one of `paths` whose directory flag is set.
pub open spec fn is_listed_directory(paths: Seq<Seq<char>>, is_dir: Seq<bool>, p: Seq<char>) -> bool {
    exists|t: int| 0 <= t < paths.len() && is_dir[t] && #[trigger] paths[t] == p
}

/// Several paths are opened as directories only: every path that the plan passes
/// after its fixed flags is one whose directory flag is set.
pub proof fn lemma_directories_only(paths: Seq<Seq<char>>, is_dir: Seq<bool>)
    requires
        is_dir.len() == paths.len(),
    ensures
        forall|k: int|
            0 <= k < directories_of(paths, is_dir).len() ==> is_listed_directory(
                paths,
                is_dir,
                #[trigger] directories_of(paths, is_dir)[k],
            ),
    decreases paths.len(),
{
    if paths.len() > 0 {
        let front = paths.drop_last();
        let fd = is_dir.drop_last();
        lemma_directories_only(front, fd);
        lemma_directories_prefix(front, fd, is_dir);
        let prev = directories_of(front, is_dir);
        assert forall|k: int| 0 <= k < directories_of(paths, is_dir).len() implies is_listed_directory(
            paths,
            is_dir,
            #[trigger] directories_of(paths, is_dir)[k],
        ) by {
            if k < prev.len() {
                assert(directories_of(paths, is_dir)[k] == prev[k]);
                assert(is_listed_directory(front, fd, directories_of(front, fd)[k]));
                let t0 = choose|t: int|
                    0 <= t < front.len() && fd[t] && #[trigger] front[t] == prev[k];
                assert(paths[t0] == front[t0]);
                assert(is_dir[t0] == fd[t0]);
            } else {
                assert(directories_of(paths, is_dir)[k] == paths.last());
                assert(paths[paths.len() - 1] == paths.last());
            }
        }
    }
}

/// `idx` gives, in increasing order, the positions in `paths` of the entries of `d`: each
/// entry is the path at its position and that path's directory flag is set, and every
/// position whose flag is set is given.
pub open spec fn indexes_flagged(paths: Seq<Seq<char>>, is_dir: Seq<bool>, d: Seq<Seq<char>>, idx: Seq<int>) -> bool {
    &&& idx.len() == d.len()
    &&& forall|k: int|
        0 <= k < d.len() ==> 0 <= #[trigger] idx[k] < paths.len() && is_dir[idx[k]] && d[k] == paths[idx[k]]
    &&& forall|a: int, b: int| 0 <= a < b < idx.len() ==> #[trigger] idx[a] < #[trigger] idx[b]
    &&& forall|i: int| 0 <= i < paths.len() && #[trigger] is_dir[i] ==> idx.contains(i)
}

/// `d` is the paths whose directory flag is set, each once, in the order of `paths`.
pub open spec fn flagged_in_order(paths: Seq<Seq<char>>, is_dir: Seq<bool>, d: Seq<Seq<char>>) -> bool {
    exists|idx: Seq<int>| #[trigger] indexes_flagged(paths, is_dir, d, idx)
}

/// The positions of the directories that `directories_of` keeps.
proof fn lemma_flagged_indices(paths: Seq<Seq<char>>, is_dir: Seq<bool>) -> (idx: Seq<int>)
    requires
        paths.len() <= is_dir.len(),
    ensures
        indexes_flagged(paths, is_dir, directories_of(paths, is_dir), idx),
    decreases paths.len(),
{
    if paths.len() == 0 {
        Seq::<int>::empty()
    } else {
        let n = paths.len() as int;
        let front = paths.drop_last();
        let idx0 = lemma_flagged_indices(front, is_dir);
        let d0 = directories_of(front, is_dir);
        let d = directories_of(paths, is_dir);
        if is_dir[n - 1] {
            let idx = idx0.push(n - 1);
            assert(d == d0.push(paths.last()));
            assert forall|k: int| 0 <= k < d.len() implies 0 <= #[trigger] idx[k] < paths.len() && is_dir[idx[k]]
                && d[k] == paths[idx[k]] by {
                if k < d0.len() {
                    assert(idx[k] == idx0[k]);
                    assert(front[idx0[k]] == paths[idx0[k]]);
                }
            }
            assert forall|a: int, b: int| 0 <= a < b < idx.len() implies #[trigger] idx[a] < #[trigger] idx[b] by {
                assert(idx[a] == idx0[a]);
                if b < idx0.len() {
                    assert(idx[b] == idx0[b]);
                }
            }
            assert forall|i: int| 0 <= i < paths.len() && #[trigger] is_dir[i] implies idx.contains(i) by {
                if i < n - 1 {
                    assert(idx0.contains(i));
                    let k = choose|k: int| 0 <= k < idx0.len() && idx0[k] == i;
                    assert(idx[k] == idx0[k]);
                } else {
                    assert(idx[idx0.len() as int] == n - 1);
                }
            }
            idx
        } else {
            assert(d == d0);
            assert forall|k: int| 0 <= k < d.len() implies 0 <= #[trigger] idx0[k] < paths.len() && is_dir[idx0[k]]
                && d[k] == paths[idx0[k]] by {
                assert(front[idx0[k]] == paths[idx0[k]]);
            }
            idx0
        }
    }
}

/// A workspace of several paths opens in a new window with every path whose
/// directory flag is set, in order, and nothing else after `--new`, through `kstart`
/// and through the editor alike; when no path is a directory, its first path is opened
/// on its own with `kstart --application <app id> --url file://<path>`, falling back to
/// `<exec> <path>`.
pub proof fn lemma_new_window_passes_every_directory(
    exec: Seq<char>,
    app_id: Seq<char>,
    paths: Seq<Seq<char>>,
    is_dir: Seq<bool>,
)
    requires
        is_dir.len() == paths.len(),
        paths.len() >= 2,
    ensures
        (exists|i: int| 0 <= i < paths.len() && is_dir[i]) ==> exists|d: Seq<Seq<char>>|
            #[trigger] flagged_in_order(paths, is_dir, d) && plan_of(exec, app_id, paths, is_dir) == Some(
                (("kstart"@, seq!["--"@, exec, "--new"@] + d), (exec, seq!["--new"@] + d)),
            ),
        (forall|i: int| 0 <= i < paths.len() ==> !is_dir[i]) ==> plan_of(exec, app_id, paths, is_dir)
            == Some(
            (
                ("kstart"@, seq!["--application"@, app_id, "--url"@, "file://"@ + paths[0]]),
                (exec, seq![paths[0]]),
            ),
        ),
{
    let d = directories_of(paths, is_dir);
    let idx = lemma_flagged_indices(paths, is_dir);
    assert(flagged_in_order(paths, is_dir, d));
    if exists|i: int| 0 <= i < paths.len() && is_dir[i] {
        let i = choose|i: int| 0 <= i < paths.len() && is_dir[i];
        assert(idx.contains(i));
        assert(d.len() > 0);
    }
    if forall|i: int| 0 <= i < paths.len() ==> !is_dir[i] {
        if d.len() > 0 {
            assert(is_dir[idx[0]]);
        }
    }
}

/// Only the flags of the paths themselves matter.
proof fn lemma_directories_prefix(paths: Seq<Seq<char>>, f1: Seq<bool>, f2: Seq<bool>)
    requires
        paths.len() <= f1.len(),
        paths.len() <= f2.len(),
        forall|t: int| 0 <= t < paths.len() ==> f1[t] == f2[t],
    ensures
        directories_of(paths, f1) == directories_of(paths, f2),
    decreases paths.len(),
{
    if paths.len() > 0 {
        lemma_directories_prefix(paths.drop_last(), f1, f2);
    }
}

impl ZedRunner {
    /// The commands that open the workspace a match id names (see `plan_of`);
    /// `is_dir` says, for each of the target's paths in order, whether it is a directory.
    pub fn run(&self, target: &MatchTarget, is_dir: &Vec<bool>) -> (r: Option<LaunchPlan>)
        ensures
            match r {
                Some(p) => plan_of(target.exec_path@, target.app_id@, target.paths.deep_view(), is_dir@)
                    == Some(plan_view(p)),
                None => plan_of(
                    target.exec_path@,
                    target.app_id@,
                    target.paths.deep_view(),
                    is_dir@,
                ) is None,
            },
    {
        let n = target.paths.len();
        if is_dir.len() != n || n == 0 {
            return None;
        }
        if n == 1 {
            return Some(single_plan(&target.exec_path, &target.app_id, &target.paths[0]));
        }
        let mut dirs: Vec<String> = Vec::new();
        push_directories(&mut dirs, &target.paths, is_dir);
        assert(dirs.deep_view() =~= directories_of(target.paths.deep_view(), is_dir@));
        if dirs.len() == 0 {
            return Some(single_plan(&target.exec_path, &target.app_id, &target.paths[0]));
        }
        let mut args: Vec<String> = Vec::new();
        args.push("--".to_owned());
        args.push(target.exec_path.clone());
        args.push("--new".to_owned());
        push_directories(&mut args, &target.paths, is_dir);
        let mut fb: Vec<String> = Vec::new();
        fb.push("--new".to_owned());
        push_directories(&mut fb, &target.paths, is_dir);
        let plan = LaunchPlan {
            primary: Command { program: "kstart".to_owned(), args },
            fallback: Command { program: target.exec_path.clone(), args: fb },
        };
        assert(plan_view(plan).0.1 =~= seq!["--"@, target.exec_path@, "--new"@] + directories_of(
            target.paths.deep_view(),
            is_dir@,
        ));
        assert(plan_view(plan).1.1 =~= seq!["--new"@] + directories_of(
            target.paths.deep_view(),
            is_dir@,
        ));
        Some(plan)
    }
}

} // verus!
