//! Answering a KRunner query: scoring each recent project against the query and
//! describing the matches.
use vstd::prelude::*;

use crate::desktop::{InstanceView, ZedInstance};
use crate::projects::{Project, ProjectView};
use crate::text::{
    append_chars, chars_of, has_substring, join, join_strings, lacks_char, lemma_join_lacks,
    lemma_replace_lacks, opt_str, replace_all, replace_str, str_contains, string_from_chars,
    to_lowercase, lowercase_of, ascii_lowercase, ascii_uppercase, is_ascii_text, lemma_ascii_case_round,
    lemma_ascii_lowercase_concat, lemma_substring_widen,
};

verus! {

/// How a project matched a query.
#[derive(Clone, Copy, Debug, PartialEq, Eq, Structural)]
pub enum MatchScore {
    /// The query is empty: every project matches.
    EmptyQuery,
    /// The project's name equals the query, ignoring case.
    ExactName,
    /// The project's name contains the query, ignoring case.
    NameContains,
    /// The project's paths contain the query, ignoring case.
    PathContains,
}

impl MatchScore {
    /// The relevance of the match in tenths.
    pub open spec fn tenths(self) -> u32 {
        match self {
            MatchScore::EmptyQuery => 5,
            MatchScore::ExactName => 10,
            MatchScore::NameContains => 9,
            MatchScore::PathContains => 7,
        }
    }

    /// The relevance in tenths: KRunner's relevance is this value divided by ten
    /// (1.0 for an exact name, 0.9 for a name containing the query, 0.7 for a path
    /// containing it, 0.5 for the empty query).
    pub fn relevance_tenths(&self) -> (r: u32)
        ensures
            r == self.tenths(),
    {
        match self {
            MatchScore::EmptyQuery => 5,
            MatchScore::ExactName => 10,
            MatchScore::NameContains => 9,
            MatchScore::PathContains => 7,
        }
    }
}

/// How a query matches a project, from whether the query is empty and the lowercased
/// query, name and paths.
pub open spec fn score_of_lowered(query_empty: bool, q: Seq<char>, n: Seq<char>, p: Seq<char>) -> Option<
    MatchScore,
> {
    if query_empty {
        Some(MatchScore::EmptyQuery)
    } else if n == q {
        Some(MatchScore::ExactName)
    } else if has_substring(n, q) {
        Some(MatchScore::NameContains)
    } else if has_substring(p, q) {
        Some(MatchScore::PathContains)
    } else {
        None
    }
}

/// How `query` matches a project named `name` with paths `path`, if it does.
pub open spec fn score_of(query: Seq<char>, name: Seq<char>, path: Seq<char>) -> Option<MatchScore> {
    score_of_lowered(
        query.len() == 0,
        lowercase_of(query),
        lowercase_of(name),
        lowercase_of(path),
    )
}

/// Matching ignores the case of ASCII text: raising or lowering every ASCII letter of
/// the query, the name and the paths gives the same result.
pub proof fn lemma_score_ignores_ascii_case(query: Seq<char>, name: Seq<char>, path: Seq<char>)
    requires
        is_ascii_text(query),
        is_ascii_text(name),
        is_ascii_text(path),
    ensures
        score_of(ascii_uppercase(query), ascii_uppercase(name), ascii_uppercase(path)) == score_of(
            query,
            name,
            path,
        ),
        score_of(ascii_lowercase(query), ascii_lowercase(name), ascii_lowercase(path)) == score_of(
            query,
            name,
            path,
        ),
{
    lemma_ascii_case_round(query);
    lemma_ascii_case_round(name);
    lemma_ascii_case_round(path);
}

/// A project that matches keeps matching, with the same relevance, when ASCII text is
/// added before and after its ASCII paths.
pub proof fn lemma_score_survives_longer_path(
    query: Seq<char>,
    name: Seq<char>,
    path: Seq<char>,
    x: Seq<char>,
    y: Seq<char>,
)
    requires
        is_ascii_text(path),
        is_ascii_text(x),
        is_ascii_text(y),
        score_of(query, name, path) is Some,
    ensures
        score_of(query, name, x + path + y) == score_of(query, name, path),
{
    lemma_ascii_lowercase_concat(x, path);
    lemma_ascii_lowercase_concat(x + path, y);
    assert(lowercase_of(x + path + y) == ascii_lowercase(x) + ascii_lowercase(path) + ascii_lowercase(y));
    if has_substring(ascii_lowercase(path), lowercase_of(query)) {
        lemma_substring_widen(ascii_lowercase(path), lowercase_of(query), ascii_lowercase(x), ascii_lowercase(y));
    }
}

/// How a query matches a project, given whether the query is empty and the lowercased
/// query `q`, name `n` and paths `p`: an empty query matches everything; otherwise an
/// equal name beats a name containing the query, which beats paths containing it.
pub fn score_lowercased(query_empty: bool, q: &str, n: &str, p: &str) -> (r: Option<MatchScore>)
    ensures
        r == score_of_lowered(query_empty, q@, n@, p@),
{
    if query_empty {
        Some(MatchScore::EmptyQuery)
    } else if n.to_owned() == q.to_owned() {
        Some(MatchScore::ExactName)
    } else if str_contains(n, q) {
        Some(MatchScore::NameContains)
    } else if str_contains(p, q) {
        Some(MatchScore::PathContains)
    } else {
        None
    }
}

/// How `query` matches a project named `name` whose paths are `path`: an empty query
/// matches everything; otherwise, ignoring case, an equal name beats a name containing
/// the query, which beats paths containing it; `None` when none of these hold.
pub fn match_score(query: &str, name: &str, path: &str) -> (r: Option<MatchScore>)
    ensures
        r == score_of(query@, name@, path@),
{
    let q = to_lowercase(query);
    let n = to_lowercase(name);
    let p = to_lowercase(path);
    score_lowercased(query.is_empty(), q.as_str(), n.as_str(), p.as_str())
}

/// The KRunner match type of every result: `Plasma::QueryMatch::ExactMatch`.
pub const EXACT_MATCH_TYPE: i32 = 3;

/// A result for KRunner: the match id (how `run` finds the project again), the text,
/// the icon, the match type, the relevance, and the `subtext` and `category` properties.
pub struct RunnerMatch {
    pub id: String,
    pub text: String,
    pub icon: String,
    pub match_type: i32,
    pub score: MatchScore,
    pub subtext: String,
    pub category: String,
}

/// The abstract value of a `RunnerMatch`.
pub struct MatchView {
    pub id: Seq<char>,
    pub text: Seq<char>,
    pub icon: Seq<char>,
    pub match_type: i32,
    pub score: MatchScore,
    pub subtext: Seq<char>,
    pub category: Seq<char>,
}

impl View for RunnerMatch {
    type V = MatchView;

    open spec fn view(&self) -> MatchView {
        MatchView {
            id: self.id@,
            text: self.text@,
            icon: self.icon@,
            match_type: self.match_type,
            score: self.score,
            subtext: self.subtext@,
            category: self.category@,
        }
    }
}

/// The views of a sequence of matches.
pub open spec fn match_views(s: Seq<RunnerMatch>) -> Seq<MatchView> {
    s.map_values(|m: RunnerMatch| m@)
}

/// An installation together with its recent projects.
pub struct InstanceProjects {
    pub instance: ZedInstance,
    pub projects: Vec<Project>,
}

/// The abstract value of an `InstanceProjects`.
pub open spec fn source_view(s: InstanceProjects) -> (InstanceView, Seq<ProjectView>) {
    (s.instance@, s.projects@.map_values(|p: Project| p@))
}

/// The views of a sequence of installations with their projects.
pub open spec fn source_views(s: Seq<InstanceProjects>) -> Seq<(InstanceView, Seq<ProjectView>)> {
    s.map_values(|x: InstanceProjects| source_view(x))
}

/// A workspace's paths as Zed stores them: one per line.
pub open spec fn paths_text(paths: Seq<Seq<char>>) -> Seq<char> {
    join(paths, seq!['\n'])
}

/// The match id: executable, app id and workspace paths, separated by `|`.
pub open spec fn match_id_of(exec: Seq<char>, app_id: Seq<char>, paths: Seq<Seq<char>>) -> Seq<
    char,
> {
    exec + seq!['|'] + app_id + seq!['|'] + paths_text(paths)
}

/// The subtext: the paths, with the home directory (if known) shown as `~`, joined
/// with `", "`.
pub open spec fn subtext_of(paths: Seq<Seq<char>>, home: Option<Seq<char>>) -> Seq<char> {
    match home {
        Some(h) => join(paths.map_values(|p: Seq<char>| replace_all(p, h, seq!['~'])), ", "@),
        None => join(paths, ", "@),
    }
}

/// The match for one project of one installation, if the query matches it.
pub open spec fn match_of(
    query: Seq<char>,
    inst: InstanceView,
    proj: ProjectView,
    home: Option<Seq<char>>,
) -> Option<MatchView> {
    match score_of(query, proj.name, paths_text(proj.paths)) {
        None => None,
        Some(score) => Some(
            MatchView {
                id: match_id_of(inst.exec_path, inst.app_id, proj.paths),
                text: proj.name,
                icon: inst.icon,
                match_type: EXACT_MATCH_TYPE,
                score,
                subtext: subtext_of(proj.paths, home),
                category: inst.label,
            },
        ),
    }
}

/// The matches among one installation's projects, in order.
pub open spec fn instance_matches(
    query: Seq<char>,
    inst: InstanceView,
    projs: Seq<ProjectView>,
    home: Option<Seq<char>>,
) -> Seq<MatchView>
    decreases projs.len(),
{
    if projs.len() == 0 {
        Seq::<MatchView>::empty()
    } else {
        let prev = instance_matches(query, inst, projs.drop_last(), home);
        match match_of(query, inst, projs.last(), home) {
            Some(m) => prev.push(m),
            None => prev,
        }
    }
}

/// The matches over all installations, in order.
pub open spec fn all_matches(
    query: Seq<char>,
    srcs: Seq<(InstanceView, Seq<ProjectView>)>,
    home: Option<Seq<char>>,
) -> Seq<MatchView>
    decreases srcs.len(),
{
    if srcs.len() == 0 {
        Seq::<MatchView>::empty()
    } else {
        all_matches(query, srcs.drop_last(), home) + instance_matches(
            query,
            srcs.last().0,
            srcs.last().1,
            home,
        )
    }
}

/// `paths` with `home` shown as `~`, joined with `", "`.
fn subtext(paths: &Vec<String>, home: Option<&str>) -> (r: String)
    ensures
        r@ == subtext_of(paths.deep_view(), opt_str(home)),
{
    match home {
        None => join_strings(paths, ", "),
        Some(h) => {
            let mut shown: Vec<String> = Vec::new();
            let mut i: usize = 0;
            proof {
                reveal_strlit("~");
            }
            while i < paths.len()
                invariant
                    i <= paths.len(),
                    "~"@ == seq!['~'],
                    shown.deep_view() == paths.deep_view().take(i as int).map_values(
                        |p: Seq<char>| replace_all(p, h@, seq!['~']),
                    ),
                decreases paths.len() - i,
            {
                let ghost before = shown.deep_view();
                let s = replace_str(paths[i].as_str(), h, "~");
                shown.push(s);
                assert(shown.deep_view() =~= before.push(replace_all(paths[i as int]@, h@, seq!['~'])));
                assert(paths.deep_view().take(i + 1).map_values(
                    |p: Seq<char>| replace_all(p, h@, seq!['~']),
                ) =~= paths.deep_view().take(i as int).map_values(
                    |p: Seq<char>| replace_all(p, h@, seq!['~']),
                ).push(replace_all(paths[i as int]@, h@, seq!['~'])));
                i += 1;
            }
            assert(paths.deep_view().take(paths.len() as int) =~= paths.deep_view());
            join_strings(&shown, ", ")
        },
    }
}

/// The match for one project of one installation, if the query matches it.
fn project_match(query: &str, inst: &ZedInstance, proj: &Project, home: Option<&str>) -> (r: Option<
    RunnerMatch,
>)
    ensures
        match r {
            Some(m) => match_of(query@, inst@, proj@, opt_str(home)) == Some(m@),
            None => match_of(query@, inst@, proj@, opt_str(home)) is None,
        },
{
    proof {
        reveal_strlit("\n");
        reveal_strlit("|");
    }
    let raw = join_strings(&proj.paths, "\n");
    assert("\n"@ =~= seq!['\n']);
    match match_score(query, proj.name.as_str(), raw.as_str()) {
        None => None,
        Some(score) => {
            let mut id = chars_of(inst.exec_path.as_str());
            id.push('|');
            let app = chars_of(inst.app_id.as_str());
            append_chars(&mut id, &app);
            id.push('|');
            let rawv = chars_of(raw.as_str());
            append_chars(&mut id, &rawv);
            assert(id@ =~= match_id_of(inst@.exec_path, inst@.app_id, proj@.paths));
            Some(
                RunnerMatch {
                    id: string_from_chars(&id),
                    text: proj.name.clone(),
                    icon: inst.icon.clone(),
                    match_type: EXACT_MATCH_TYPE,
                    score,
                    subtext: subtext(&proj.paths, home),
                    category: inst.label.clone(),
                },
            )
        },
    }
}

/// The subtext holds no line break when the paths hold none: the paths of a multi-path
/// workspace are shown on one line, separated by `", "`.
pub proof fn lemma_subtext_one_line(paths: Seq<Seq<char>>, home: Option<Seq<char>>)
    requires
        forall|k: int| 0 <= k < paths.len() ==> lacks_char(#[trigger] paths[k], '\n'),
    ensures
        lacks_char(subtext_of(paths, home), '\n'),
{
    reveal_strlit(", ");
    assert(lacks_char(", "@, '\n'));
    match home {
        Some(h) => {
            let shown = paths.map_values(|p: Seq<char>| replace_all(p, h, seq!['~']));
            assert forall|k: int| 0 <= k < shown.len() implies lacks_char(#[trigger] shown[k], '\n') by {
                lemma_replace_lacks(paths[k], h, seq!['~'], '\n');
            }
            lemma_join_lacks(shown, ", "@, '\n');
        },
        None => {
            lemma_join_lacks(paths, ", "@, '\n');
        },
    }
}

/// An empty query matches every project of an installation, in order, with the
/// empty-query relevance and the project's name as text.
pub proof fn lemma_empty_query_matches_all(inst: InstanceView, projs: Seq<ProjectView>, home: Option<Seq<char>>)
    ensures
        instance_matches(Seq::<char>::empty(), inst, projs, home).len() == projs.len(),
        forall|k: int|
            0 <= k < projs.len() ==> (#[trigger] instance_matches(Seq::<char>::empty(), inst, projs, home)[k]).score
                == MatchScore::EmptyQuery && instance_matches(Seq::<char>::empty(), inst, projs, home)[k].text
                == projs[k].name,
    decreases projs.len(),
{
    if projs.len() > 0 {
        lemma_empty_query_matches_all(inst, projs.drop_last(), home);
        let prev = instance_matches(Seq::<char>::empty(), inst, projs.drop_last(), home);
        let all = instance_matches(Seq::<char>::empty(), inst, projs, home);
        assert(all == prev.push(match_of(Seq::<char>::empty(), inst, projs.last(), home).unwrap()));
        assert forall|k: int| 0 <= k < projs.len() implies (#[trigger] all[k]).score
            == MatchScore::EmptyQuery && all[k].text == projs[k].name by {
            if k < prev.len() {
                assert(all[k] == prev[k]);
                assert(projs.drop_last()[k] == projs[k]);
            }
        }
    }
}

/// The runner that KRunner talks to over D-Bus.
pub struct ZedRunner;

impl ZedRunner {
    /// The runner offers no secondary actions.
    pub fn actions(&self) -> (r: Vec<(String, String, String)>)
        ensures
            r@.len() == 0,
    {
        Vec::new()
    }

    /// The matches for `query` among the recent projects of each installation, in
    /// order of installation and then of project; `home` is the user's home directory,
    /// shown as `~` in each match's subtext.
    pub fn match_query(&self, query: &str, sources: &Vec<InstanceProjects>, home: Option<&str>) -> (r:
        Vec<RunnerMatch>)
        ensures
            match_views(r@) == all_matches(query@, source_views(sources@), opt_str(home)),
    {
        let mut out: Vec<RunnerMatch> = Vec::new();
        let mut i: usize = 0;
        while i < sources.len()
            invariant
                i <= sources.len(),
                match_views(out@) == all_matches(
                    query@,
                    source_views(sources@).take(i as int),
                    opt_str(home),
                ),
            decreases sources.len() - i,
        {
            let src = &sources[i];
            let ghost base = match_views(out@);
            let ghost projs = source_view(*src).1;
            let mut k: usize = 0;
            while k < src.projects.len()
                invariant
                    k <= src.projects.len(),
                    projs == src.projects@.map_values(|p: Project| p@),
                    match_views(out@) == base + instance_matches(
                        query@,
                        src.instance@,
                        projs.take(k as int),
                        opt_str(home),
                    ),
                decreases src.projects.len() - k,
            {
                let ghost before = match_views(out@);
                assert(projs.take(k + 1).drop_last() =~= projs.take(k as int));
                assert(projs.take(k + 1).last() == src.projects[k as int]@);
                match project_match(query, &src.instance, &src.projects[k], home) {
                    Some(m) => {
                        out.push(m);
                        assert(match_views(out@) =~= before.push(out@[out@.len() - 1]@));
                    },
                    None => {},
                }
                k += 1;
            }
            assert(projs.take(projs.len() as int) =~= projs);
            assert(source_views(sources@).take(i + 1).drop_last() =~= source_views(sources@).take(
                i as int,
            ));
            assert(source_views(sources@).take(i + 1).last() == source_view(*src));
            i += 1;
        }
        assert(source_views(sources@).take(sources.len() as int) =~= source_views(sources@));
        out
    }
}

} // verus!
