use krunner_zed::{
    application_dirs, channel_from_desktop, channel_from_lowercase, db_path_for_channel, db_path_for_exec,
    db_path_for_lowercase_exec, file_name_of, is_white_space, score_lowercased, dedup_instances, has_desktop_extension,
    match_score, project_name, query_projects, workspace_paths, zed_instance_from_desktop_file,
    InstanceProjects, MatchScore, ZedChannel, ZedInstance, ZedRunner, SCHEMA_HANDLER_ID,
};

fn instance(label: &str, db: &str) -> ZedInstance {
    ZedInstance {
        label: label.to_string(),
        exec_path: "/usr/bin/zed".to_string(),
        app_id: "dev.zed.Zed".to_string(),
        icon: "zed".to_string(),
        db_path: db.to_string(),
    }
}

#[test]
fn match_score_each_kind() {
    assert_eq!(match_score("", "anything", "/any"), Some(MatchScore::EmptyQuery));
    assert_eq!(match_score("My-App", "my-app", "/p/my-app"), Some(MatchScore::ExactName));
    assert_eq!(match_score("APP", "my-app", "/p/my-app"), Some(MatchScore::NameContains));
    assert_eq!(match_score("projects", "x", "/home/u/projects/x"), Some(MatchScore::PathContains));
    assert_eq!(match_score("zzz", "x", "/home/u/projects/x"), None);
    assert_eq!(match_score("ÄB", "äb", "/p"), Some(MatchScore::ExactName));
}

#[test]
fn relevance_in_tenths() {
    assert_eq!(MatchScore::ExactName.relevance_tenths(), 10);
    assert_eq!(MatchScore::NameContains.relevance_tenths(), 9);
    assert_eq!(MatchScore::PathContains.relevance_tenths(), 7);
    assert_eq!(MatchScore::EmptyQuery.relevance_tenths(), 5);
}

#[test]
fn db_path_for_exec_dev_or_stable() {
    assert_eq!(
        db_path_for_exec(Some("/home/u/.local/share"), "/usr/bin/zed"),
        "/home/u/.local/share/zed/db/0-stable/db.sqlite"
    );
    assert_eq!(
        db_path_for_exec(Some("/home/u/.local/share"), "/opt/ZED-Dev/bin/zed"),
        "/home/u/.local/share/zed/db/0-dev/db.sqlite"
    );
    assert_eq!(db_path_for_exec(None, "zed"), "~/.local/share/zed/db/0-stable/db.sqlite");
}

#[test]
fn db_path_for_each_channel() {
    assert_eq!(db_path_for_channel(Some("/d"), ZedChannel::Stable), "/d/zed/db/0-stable/db.sqlite");
    assert_eq!(db_path_for_channel(Some("/d/"), ZedChannel::Preview), "/d/zed/db/0-preview/db.sqlite");
    assert_eq!(db_path_for_channel(Some("/d"), ZedChannel::Nightly), "/d/zed/db/0-nightly/db.sqlite");
    assert_eq!(db_path_for_channel(Some(""), ZedChannel::Dev), "zed/db/0-dev/db.sqlite");
    assert_eq!(db_path_for_channel(None, ZedChannel::Dev), "~/.local/share/zed/db/0-dev/db.sqlite");
}

#[test]
fn application_dirs_home_first() {
    let dirs = vec!["/usr/local/share".to_string(), "/usr/share/".to_string()];
    assert_eq!(
        application_dirs(Some("/h/.local/share"), &dirs),
        vec![
            "/h/.local/share/applications".to_string(),
            "/usr/local/share/applications".to_string(),
            "/usr/share/applications".to_string(),
        ]
    );
    assert_eq!(application_dirs(None, &vec![]), Vec::<String>::new());
}

#[test]
fn dedup_keeps_first_per_database() {
    let kept = dedup_instances(vec![
        instance("user", "/db/a"),
        instance("other", "/db/b"),
        instance("system", "/db/a"),
    ]);
    assert_eq!(kept.len(), 2);
    assert_eq!(kept[0].label, "user");
    assert_eq!(kept[1].label, "other");
}

const PREVIEW_ENTRY: &str = "[Desktop Entry]\n\
Type=Application\n\
Name=Zed Preview\n\
Icon=zed-preview\n\
Exec=/opt/zed-preview/bin/zed %U\n\
MimeType=text/plain;x-scheme-handler/zed;\n";

#[test]
fn instance_from_a_zed_desktop_file() {
    let inst = zed_instance_from_desktop_file(
        "/usr/share/applications/dev.zed.Zed-Preview.desktop",
        PREVIEW_ENTRY,
        Some("/home/u/.local/share"),
    )
    .unwrap();
    assert_eq!(inst.label, "Zed Preview");
    assert_eq!(inst.exec_path, "/opt/zed-preview/bin/zed");
    assert_eq!(inst.app_id, "dev.zed.Zed-Preview");
    assert_eq!(inst.icon, "zed-preview");
    assert_eq!(inst.db_path, "/home/u/.local/share/zed/db/0-preview/db.sqlite");
}

#[test]
fn instance_defaults_for_missing_name_and_icon() {
    let content = "[Desktop Entry]\nExec=  /usr/bin/zed\t%U\nMimeType=x-scheme-handler/zed\n";
    let inst = zed_instance_from_desktop_file("/a/applications/zed.desktop", content, None).unwrap();
    assert_eq!(inst.label, "Zed");
    assert_eq!(inst.icon, "zed");
    assert_eq!(inst.exec_path, "/usr/bin/zed");
    assert_eq!(inst.app_id, "zed");
    assert_eq!(inst.db_path, "~/.local/share/zed/db/0-stable/db.sqlite");
}

#[test]
fn non_zed_entries_are_not_instances() {
    let no_scheme = "[Desktop Entry]\nName=Editor\nExec=/usr/bin/ed\nMimeType=text/plain;\n";
    assert!(zed_instance_from_desktop_file("/a/applications/ed.desktop", no_scheme, None).is_none());
    let no_exec = "[Desktop Entry]\nName=Zed\nMimeType=x-scheme-handler/zed;\n";
    assert!(zed_instance_from_desktop_file("/a/applications/z.desktop", no_exec, None).is_none());
    let broken = "[Desktop Entry\nName=Zed\n";
    assert!(zed_instance_from_desktop_file("/a/applications/z.desktop", broken, None).is_none());
    assert!(zed_instance_from_desktop_file("/a/applications/z.txt", PREVIEW_ENTRY, None).is_none());
    assert_eq!(SCHEMA_HANDLER_ID, "x-scheme-handler/zed");
}

#[test]
fn whitespace_only_exec_is_kept_whole() {
    let content = "[Desktop Entry]\nExec=   \nMimeType=x-scheme-handler/zed;\n";
    let inst = zed_instance_from_desktop_file("/a/applications/zed.desktop", content, None).unwrap();
    assert_eq!(inst.exec_path, "  ");
}

#[test]
fn project_names_from_file_names() {
    let paths = vec!["/a/b/c/".to_string(), "/".to_string(), "x/..".to_string()];
    assert_eq!(project_name(&paths), "c, /, x/..");
    assert_eq!(project_name(&vec![]), "");
}

#[test]
fn desktop_extension() {
    assert!(has_desktop_extension("/x/a.desktop"));
    assert!(has_desktop_extension("/x/a.b.desktop"));
    assert!(!has_desktop_extension("/x/.desktop"));
    assert!(!has_desktop_extension("/x/a.Desktop"));
    assert!(!has_desktop_extension("/x/a.desktop.bak"));
    assert!(!has_desktop_extension("/"));
}

#[test]
fn workspace_paths_are_non_empty_lines() {
    assert_eq!(
        workspace_paths("/a\n\n/b c\n"),
        vec!["/a".to_string(), "/b c".to_string()]
    );
    assert!(workspace_paths("").is_empty());
    assert!(workspace_paths("\n\n").is_empty());
}

#[test]
fn home_replacement_follows_str_replace() {
    let projects = query_projects(&vec![vec![("/hh/x/hh".to_string(), true)]]);
    let srcs = vec![InstanceProjects { instance: instance("Zed", "/db"), projects }];
    let m = ZedRunner.match_query("", &srcs, Some("/hh"));
    assert_eq!(m[0].subtext, "~/x~");
    let m = ZedRunner.match_query("", &srcs, Some(""));
    assert_eq!(m[0].subtext, "/hh/x/hh".replace("", "~"));
}

#[test]
fn channel_from_lowercased_text() {
    assert_eq!(channel_from_lowercase("zed nightly", "/usr/bin/zed"), ZedChannel::Nightly);
    assert_eq!(channel_from_lowercase("zed preview", "/opt/zed-dev/zed"), ZedChannel::Preview);
    assert_eq!(channel_from_lowercase("zed", "/opt/zed-dev/zed"), ZedChannel::Dev);
    assert_eq!(channel_from_lowercase("zed", "/usr/bin/zed-preview"), ZedChannel::Preview);
    assert_eq!(channel_from_lowercase("zed", "/usr/bin/zed"), ZedChannel::Stable);
    assert_eq!(channel_from_lowercase("Zed Nightly", "/usr/bin/zed"), ZedChannel::Stable);
}

#[test]
fn score_from_lowercased_text() {
    assert_eq!(score_lowercased(true, "", "x", "/x"), Some(MatchScore::EmptyQuery));
    assert_eq!(score_lowercased(false, "alpha", "alpha", "/p"), Some(MatchScore::ExactName));
    assert_eq!(score_lowercased(false, "alp", "alpha", "/p"), Some(MatchScore::NameContains));
    assert_eq!(score_lowercased(false, "src", "alpha", "/src/alpha"), Some(MatchScore::PathContains));
    assert_eq!(score_lowercased(false, "ALPHA", "alpha", "/p/alpha"), None);
    assert_eq!(match_score("ALPHA", "alpha", "/p"), Some(MatchScore::ExactName));
}

#[test]
fn db_path_from_lowercased_exec() {
    assert_eq!(
        db_path_for_lowercase_exec(Some("/d"), "/opt/zed-dev/zed"),
        "/d/zed/db/0-dev/db.sqlite"
    );
    assert_eq!(db_path_for_lowercase_exec(Some("/d"), "/opt/ZED-DEV/zed"), "/d/zed/db/0-stable/db.sqlite");
    assert_eq!(db_path_for_exec(Some("/d"), "/opt/ZED-DEV/zed"), "/d/zed/db/0-dev/db.sqlite");
}

#[test]
fn file_name_agrees_with_std_path() {
    let cases = [
        "", "/", "//", "a", "/a", "a/", "/a/b", "/a/b/", "a//b", "/a/./", "/a/.", ".", "./",
        "..", "/a/..", "a/../b", "/a/b/..", "/x/.hidden", "/x/y.desktop", "a/b/./c/.", "...",
        "/a/...", "x/./.", "./x", "../x", "/./", "/ä/ö.txt",
    ];
    for c in cases.iter() {
        let expected = std::path::Path::new(c)
            .file_name()
            .map(|n| n.to_string_lossy().into_owned());
        assert_eq!(file_name_of(c), expected, "file name of {:?}", c);
    }
}

#[test]
fn white_space_agrees_with_std_char() {
    for u in 0u32..=0x10FFFF {
        if let Some(c) = char::from_u32(u) {
            assert_eq!(is_white_space(c), c.is_whitespace(), "code point {:x}", u);
        }
    }
}

#[test]
fn ascii_case_is_ignored() {
    for exec in ["/opt/zed-dev/zed", "/usr/bin/zed", "/usr/bin/zed-nightly"] {
        let base = db_path_for_exec(Some("/d"), exec);
        assert_eq!(db_path_for_exec(Some("/d"), &exec.to_ascii_uppercase()), base);
        assert_eq!(db_path_for_exec(Some("/d"), &exec.to_ascii_lowercase()), base);
    }
    assert_eq!(db_path_for_exec(None, "/opt/Zed-DeV/zed"), "~/.local/share/zed/db/0-dev/db.sqlite");
    assert_eq!(db_path_for_exec(None, "/usr/bin/zed-nightly"), "~/.local/share/zed/db/0-stable/db.sqlite");
    assert_eq!(channel_from_desktop("ZED NIGHTLY", "/usr/bin/zed"), ZedChannel::Nightly);
    assert_eq!(channel_from_desktop("zed", "/OPT/ZED-PREVIEW/ZED"), ZedChannel::Preview);
    for (q, n, p) in [("My-App", "my-app", "/p/my-app"), ("proj", "x", "/home/u/Projects/x"), ("zz", "a", "/b")] {
        let base = match_score(q, n, p);
        assert_eq!(match_score(&q.to_uppercase(), &n.to_uppercase(), &p.to_uppercase()), base);
        assert_eq!(match_score(&q.to_lowercase(), &n.to_lowercase(), &p.to_lowercase()), base);
    }
}

#[test]
fn longer_path_keeps_the_match() {
    assert_eq!(match_score("proj", "x", "/home/u/projects/x"), Some(MatchScore::PathContains));
    assert_eq!(match_score("proj", "x", "/mnt/home/u/projects/x/src"), Some(MatchScore::PathContains));
    assert_eq!(match_score("x", "x", "/a"), Some(MatchScore::ExactName));
    assert_eq!(match_score("x", "x", "/pre/a/post"), Some(MatchScore::ExactName));
}

#[test]
fn gettext_domain_keeps_the_stored_name() {
    let content = "[Desktop Entry]\nName=Zed Nightly\nX-Ubuntu-Gettext-Domain=zed\nExec=/usr/bin/zed\nMimeType=x-scheme-handler/zed;\n";
    let inst = zed_instance_from_desktop_file("/a/applications/zed.desktop", content, Some("/d")).unwrap();
    assert_eq!(inst.label, "Zed Nightly");
    assert_eq!(inst.db_path, "/d/zed/db/0-nightly/db.sqlite");

    let nul = "[Desktop Entry]\nName=A\u{0}B\nX-Ubuntu-Gettext-Domain=d\nExec=zed\nMimeType=x-scheme-handler/zed;\n";
    let inst = zed_instance_from_desktop_file("a.desktop", nul, None).unwrap();
    assert_eq!(inst.label, "A\u{0}B");
    assert_eq!(inst.exec_path, "zed");
}
