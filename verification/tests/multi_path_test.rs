use krunner_zed::{query_projects, workspace_paths, InstanceProjects, ZedInstance, ZedRunner};

fn instance() -> ZedInstance {
    ZedInstance {
        label: "Zed".to_string(),
        exec_path: "/usr/bin/zed".to_string(),
        app_id: "dev.zed.Zed".to_string(),
        icon: "zed".to_string(),
        db_path: "/h/.local/share/zed/db/0-stable/db.sqlite".to_string(),
    }
}

/// The workspace of the multi-path scenario: three paths exist, the fourth does not.
fn multi_path_sources() -> Vec<InstanceProjects> {
    let raw = "/tmp/x/dir1\n/tmp/x/dir2\n/tmp/x/file3\n/tmp/x/nonexistent";
    let row: Vec<(String, bool)> = workspace_paths(raw)
        .into_iter()
        .map(|p| {
            let exists = !p.ends_with("nonexistent");
            (p, exists)
        })
        .collect();
    let projects = query_projects(&vec![row]);
    vec![InstanceProjects { instance: instance(), projects }]
}

#[test]
fn match_multi_path_workspace_scenario() {
    let srcs = multi_path_sources();
    let runner = ZedRunner;

    let results = runner.match_query("", &srcs, Some("/tmp/x"));
    assert_eq!(results.len(), 1, "expected exactly 1 workspace match");
    let m = &results[0];
    assert_eq!(m.text, "dir1, dir2, file3");
    assert_eq!(m.icon, "zed");
    assert!(m.id.contains("dir1"));
    assert!(m.id.contains("dir2"));
    assert!(m.id.contains("file3"));
    assert!(!m.id.contains("nonexistent"));
    assert_eq!(m.id, "/usr/bin/zed|dev.zed.Zed|/tmp/x/dir1\n/tmp/x/dir2\n/tmp/x/file3");

    assert!(m.subtext.contains("dir1"));
    assert!(m.subtext.contains("dir2"));
    assert!(m.subtext.contains("file3"));
    assert!(!m.subtext.contains('\n'));
    assert!(m.subtext.contains(", "));
    assert_eq!(m.subtext, "~/dir1, ~/dir2, ~/file3");

    let match_file = runner.match_query("file3", &srcs, None);
    assert_eq!(match_file.len(), 1, "should match on file name query");
    assert_eq!(match_file[0].text, "dir1, dir2, file3");

    let match_dir = runner.match_query("dir2", &srcs, None);
    assert_eq!(match_dir.len(), 1, "should match on dir name query");
    assert_eq!(match_dir[0].text, "dir1, dir2, file3");
}

#[test]
fn workspace_with_no_existing_path_is_skipped() {
    let row = vec![("/gone/a".to_string(), false), ("/gone/b".to_string(), false)];
    assert!(query_projects(&vec![row]).is_empty());
}

#[test]
fn later_workspace_with_same_first_path_is_skipped() {
    let rows = vec![
        vec![("/p/a".to_string(), true)],
        vec![("/p/a".to_string(), true), ("/p/b".to_string(), true)],
        vec![("/p/gone".to_string(), false), ("/p/c".to_string(), true)],
    ];
    let projects = query_projects(&rows);
    assert_eq!(projects.len(), 2);
    assert_eq!(projects[0].paths, vec!["/p/a".to_string()]);
    assert_eq!(projects[1].paths, vec!["/p/c".to_string()]);
    assert_eq!(projects[1].name, "c");
}

#[test]
fn first_listed_path_decides_duplicates_even_when_missing() {
    let rows = vec![
        vec![("/gone".to_string(), false), ("/a".to_string(), true)],
        vec![("/a".to_string(), true)],
    ];
    let projects = query_projects(&rows);
    assert_eq!(projects.len(), 2);
    assert_eq!(projects[0].paths, vec!["/a".to_string()]);
    assert_eq!(projects[1].paths, vec!["/a".to_string()]);
    assert_eq!(projects[1].name, "a");
}

#[test]
fn missing_workspace_still_claims_its_first_path() {
    let rows = vec![
        vec![("/g".to_string(), false)],
        vec![("/g".to_string(), true), ("/h".to_string(), true)],
        vec![],
        vec![("/k".to_string(), true)],
    ];
    let projects = query_projects(&rows);
    assert_eq!(projects.len(), 1);
    assert_eq!(projects[0].paths, vec!["/k".to_string()]);
}
