use krunner_zed::{
    match_score, parse_match_id, query_projects, workspace_paths, InstanceProjects, MatchScore, RunnerMatch, ZedInstance,
    ZedRunner, EXACT_MATCH_TYPE,
};

fn stable_instance() -> ZedInstance {
    ZedInstance {
        label: "Zed".to_string(),
        exec_path: "/usr/bin/zed".to_string(),
        app_id: "dev.zed.Zed".to_string(),
        icon: "zed".to_string(),
        db_path: "/tmp/t/home/.local/share/zed/db/0-stable/db.sqlite".to_string(),
    }
}

/// Rows as Zed stores them, each path marked as existing.
fn existing_rows(rows: &[&str]) -> Vec<Vec<(String, bool)>> {
    rows.iter()
        .map(|raw| workspace_paths(raw).into_iter().map(|p| (p, true)).collect())
        .collect()
}

fn names(matches: &[RunnerMatch]) -> Vec<String> {
    matches.iter().map(|m| m.text.clone()).collect()
}

fn sources(rows: &[&str]) -> Vec<InstanceProjects> {
    let projects = query_projects(&existing_rows(rows));
    vec![InstanceProjects { instance: stable_instance(), projects }]
}

#[test]
fn match_all_then_specific_query_scenario() {
    // Most recent first, as the database query orders them.
    let srcs = sources(&[
        "/tmp/t/home/user/projects/my-app",
        "/tmp/t/home/user/projects/beta",
        "/tmp/t/home/user/projects/alpha",
    ]);
    let runner = ZedRunner;

    let results = runner.match_query("", &srcs, Some("/tmp/t/home"));
    let got = names(&results);
    assert!(got.contains(&"alpha".to_string()), "got {got:?}");
    assert!(got.contains(&"beta".to_string()), "got {got:?}");
    assert!(got.contains(&"my-app".to_string()), "got {got:?}");
    assert!(results.iter().all(|m| m.score == MatchScore::EmptyQuery));

    let specific = runner.match_query("my-app", &srcs, Some("/tmp/t/home"));
    assert_eq!(specific.len(), 1, "only 'my-app' should match");
    assert_eq!(specific[0].text, "my-app");
    assert_eq!(specific[0].score, MatchScore::ExactName);
    assert_eq!(specific[0].score.relevance_tenths(), 10);
    assert_eq!(specific[0].match_type, EXACT_MATCH_TYPE);
    assert_eq!(specific[0].icon, "zed");
    assert_eq!(specific[0].category, "Zed");
    assert_eq!(
        specific[0].id,
        "/usr/bin/zed|dev.zed.Zed|/tmp/t/home/user/projects/my-app"
    );
    assert_eq!(specific[0].subtext, "~/user/projects/my-app");
}

#[test]
fn match_order_follows_instances_then_projects() {
    let srcs = sources(&["/p/one", "/p/two"]);
    let got = names(&ZedRunner.match_query("", &srcs, None));
    assert_eq!(got, vec!["one".to_string(), "two".to_string()]);
}

#[test]
fn subtext_without_home_keeps_paths() {
    let srcs = sources(&["/home/u/code"]);
    let m = ZedRunner.match_query("", &srcs, None);
    assert_eq!(m[0].subtext, "/home/u/code");
}

#[test]
fn runner_offers_no_actions() {
    assert!(ZedRunner.actions().is_empty());
}

#[test]
fn query_matches_are_rescored_empty_query_matches() {
    let mut srcs = sources(&["/w/alpha", "/w/alpine/src", "/w/beta"]);
    let mut preview = stable_instance();
    preview.label = "Zed Preview".to_string();
    preview.exec_path = "/usr/bin/zed-preview".to_string();
    preview.app_id = "dev.zed.Zed-Preview".to_string();
    let projects = query_projects(&existing_rows(&["/alp/x", "/q/alpha"]));
    srcs.push(InstanceProjects { instance: preview, projects });

    let all = ZedRunner.match_query("", &srcs, None);
    assert_eq!(all.len(), 5);
    for m in all.iter() {
        assert_eq!(m.match_type, EXACT_MATCH_TYPE);
        assert!(m.id.matches('|').count() >= 2);
        assert_eq!(m.score, MatchScore::EmptyQuery);
    }

    let q = "ALP";
    let expected: Vec<(String, String, MatchScore)> = all
        .iter()
        .filter_map(|m| {
            let paths = parse_match_id(&m.id).unwrap().paths.join("\n");
            match_score(q, &m.text, &paths).map(|s| (m.id.clone(), m.text.clone(), s))
        })
        .collect();
    let got: Vec<(String, String, MatchScore)> = ZedRunner
        .match_query(q, &srcs, None)
        .into_iter()
        .map(|m| (m.id, m.text, m.score))
        .collect();
    assert_eq!(got, expected);
    assert_eq!(
        got.iter().map(|g| g.1.clone()).collect::<Vec<_>>(),
        vec!["alpha".to_string(), "src".to_string(), "x".to_string(), "alpha".to_string()]
    );
    assert_eq!(got[1].2, MatchScore::PathContains);
    assert_eq!(got[0].2, MatchScore::NameContains);
}
