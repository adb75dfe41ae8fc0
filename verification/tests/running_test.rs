use krunner_zed::{parse_match_id, ZedRunner};

fn strings(v: &[&str]) -> Vec<String> {
    v.iter().map(|s| s.to_string()).collect()
}

#[test]
fn run_single_path_scenario() {
    let target = parse_match_id("zed-fake|com.example.Zed|/tmp/some/project").unwrap();
    assert_eq!(target.exec_path, "zed-fake");
    assert_eq!(target.app_id, "com.example.Zed");
    assert_eq!(target.paths, strings(&["/tmp/some/project"]));

    let plan = ZedRunner.run(&target, &vec![false]).unwrap();
    assert_eq!(plan.primary.program, "kstart");
    assert_eq!(
        plan.primary.args,
        strings(&["--application", "com.example.Zed", "--url", "file:///tmp/some/project"])
    );
    assert_eq!(plan.fallback.program, "zed-fake");
    assert_eq!(plan.fallback.args, strings(&["/tmp/some/project"]));
}

#[test]
fn run_multi_path_filters_files_scenario() {
    let id = "/td/zed-fake|com.example.Zed|/td/dir1\n/td/dir2\n/td/file3";
    let target = parse_match_id(id).unwrap();
    assert_eq!(target.paths, strings(&["/td/dir1", "/td/dir2", "/td/file3"]));

    let plan = ZedRunner.run(&target, &vec![true, true, false]).unwrap();
    assert_eq!(plan.fallback.program, "/td/zed-fake");
    assert_eq!(plan.fallback.args, strings(&["--new", "/td/dir1", "/td/dir2"]));
    assert_eq!(plan.primary.program, "kstart");
    assert_eq!(
        plan.primary.args,
        strings(&["--", "/td/zed-fake", "--new", "/td/dir1", "/td/dir2"])
    );
    assert!(!plan.primary.args.iter().any(|a| a.contains("file3")));
}

#[test]
fn parse_match_id_needs_two_separators() {
    assert!(parse_match_id("zed|only-one").is_none());
    assert!(parse_match_id("").is_none());
    let t = parse_match_id("a|b|").unwrap();
    assert!(t.paths.is_empty());
    assert!(ZedRunner.run(&t, &vec![]).is_none());
}

#[test]
fn parse_match_id_keeps_later_bars_in_paths() {
    let t = parse_match_id("zed|app|/a|b\n\n/c").unwrap();
    assert_eq!(t.exec_path, "zed");
    assert_eq!(t.app_id, "app");
    assert_eq!(t.paths, strings(&["/a|b", "/c"]));
}

#[test]
fn run_refuses_mismatched_flags() {
    let t = parse_match_id("zed|app|/a\n/b").unwrap();
    assert!(ZedRunner.run(&t, &vec![true]).is_none());
    assert!(ZedRunner.run(&t, &vec![true, true, true]).is_none());
}

#[test]
fn run_multi_path_without_directories_opens_first_path() {
    let t = parse_match_id("zed|app|/a\n/b").unwrap();
    let plan = ZedRunner.run(&t, &vec![false, false]).unwrap();
    assert_eq!(plan.primary.program, "kstart");
    assert_eq!(plan.primary.args, strings(&["--application", "app", "--url", "file:///a"]));
    assert_eq!(plan.fallback.program, "zed");
    assert_eq!(plan.fallback.args, strings(&["/a"]));
}
