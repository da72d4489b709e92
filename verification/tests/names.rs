use token_leaderboard::config::{build_name_map, name_paths, project_paths};
use token_leaderboard::names::{
    add_archive_names, apply_renames, decode_fallback, is_orchestrator, project_name_from_dir,
    resolve_name, shorten_path, NameMap,
};

fn map_of(paths: &[&str]) -> NameMap {
    name_paths(Some(paths.iter().map(|p| p.to_string()).collect()), "robot")
}

#[test]
fn paths_are_shortened() {
    assert_eq!(shorten_path("/syncthing/Sync/Projects/a/b"), "a/b");
    assert_eq!(shorten_path("/home/osso/Projects/a"), "a");
    assert_eq!(shorten_path("/home/osso/Repos/a"), "a");
    assert_eq!(shorten_path("/home/osso/a"), "osso/a");
    assert_eq!(shorten_path("/syncthing/Sync/a"), "Sync/a");
    assert_eq!(shorten_path("/home/osso/"), "osso/");
    assert_eq!(shorten_path("/home/osso"), "/home/osso");
    assert_eq!(shorten_path("/home/osso/Projects"), "osso/Projects");
    assert_eq!(shorten_path("/tmp/x"), "/tmp/x");
    assert_eq!(shorten_path(""), "");
}

#[test]
fn directories_are_decoded() {
    assert_eq!(decode_fallback("-home-osso-Projects-a-b"), "a/b");
    assert_eq!(decode_fallback("-home-osso--config-x"), "osso/.config/x");
    assert_eq!(decode_fallback("home-user"), "/home/user");
    assert_eq!(decode_fallback("---x"), "/x");
    assert_eq!(decode_fallback("-a---b"), "/a/./b");
    assert_eq!(decode_fallback("-a----b"), "/a/./.b");
    assert_eq!(decode_fallback(""), "/");
}

#[test]
fn decoding_returns_paths() {
    for path in ["/usr/lib/x", "/a/.b/c", "/x/.y", "/opt/b/"] {
        let dir = path.replace('.', "-").replace('/', "-");
        assert_eq!(decode_fallback(&dir), path);
    }
    for path in ["/", "/.a/b.c", "/a/../b", "/v1.0/"] {
        assert_eq!(decode_fallback(&path.replace('/', "-")), path);
    }
}

#[test]
fn renamed_projects_are_followed() {
    let engine = "-syncthing-Sync-Projects-world-of-osso-game-engine";
    assert_eq!(apply_renames("-syncthing-Sync-Projects-wow-wow-engine", "robot"), engine);
    assert_eq!(apply_renames("-syncthing-Sync-Projects-wow-game-engine", "robot"), engine);
    assert_eq!(
        apply_renames("-syncthing-Sync-Projects-wow-game-launcher", "robot"),
        "-syncthing-Sync-Projects-world-of-osso-game-launcher"
    );
    assert_eq!(
        apply_renames("-syncthing-Sync-Projects-wow-website", "robot"),
        "-syncthing-Sync-Projects-world-of-osso-website"
    );
    assert_eq!(
        apply_renames("-syncthing-Sync-Projects-wow-wow-engine--robot-worktrees-x", "robot"),
        engine
    );
    assert_eq!(
        apply_renames("-syncthing-Sync-Projects-wow-wow-engine-2", "robot"),
        "-syncthing-Sync-Projects-wow-wow-engine-2"
    );
    assert_eq!(apply_renames(engine, "robot"), engine);
    assert_eq!(
        resolve_name("-syncthing-Sync-Projects-wow-website--robot-worktrees-x", &map_of(&[]), "robot"),
        "world/of/osso/website"
    );
}

#[test]
fn known_directories_have_their_names() {
    let names = map_of(&["/home/osso/Projects/my-app", "/srv/data-sets"]);
    assert_eq!(resolve_name("-home-osso-Projects-my-app", &names, "robot"), "my-app");
    assert_eq!(resolve_name("-srv-data-sets", &names, "robot"), "/srv/data-sets");
    assert_eq!(resolve_name("-home-osso-Projects-other-app", &names, "robot"), "other/app");
}

#[test]
fn worktrees_have_the_name_of_their_project() {
    let names = map_of(&["/home/osso/Projects/my-app"]);
    assert_eq!(
        resolve_name("-home-osso-Projects-my-app--robot-worktrees-fix-1", &names, "robot"),
        "my-app"
    );
    assert_eq!(
        resolve_name("-home-osso-Projects-other--robot-worktrees-a--robot-worktrees-b", &names, "robot"),
        "other"
    );
    assert_eq!(
        resolve_name("-home-osso-Projects-other--else-worktrees-a", &names, "robot"),
        "other/.else/worktrees/a"
    );
}

#[test]
fn orchestrators_are_recognised() {
    for dir in [
        "-tmp",
        "-tmp-x",
        "-work-1",
        "subagents",
        "-home-robot-sessions-worktrees-7",
        "-x-orch-dev-y",
    ] {
        assert!(is_orchestrator(dir, "robot"), "{dir}");
        assert_eq!(project_name_from_dir(dir, &NameMap::new(), "robot"), "[orchestrator]");
    }
    for dir in ["", "tmp", "-home-tmp", "subagents2", "-robot-sessions-worktrees", "-orch-dev"] {
        assert!(!is_orchestrator(dir, "robot"), "{dir}");
    }
    assert_eq!(project_name_from_dir("-home-osso-x", &NameMap::new(), "robot"), "osso/x");
}

#[test]
fn archived_projects_are_known() {
    let mut names = NameMap::new();
    add_archive_names(&mut names, "robot");
    for (dir, name) in [
        ("-syncthing-Sync-Projects-globalcomix-gc-sentry", "globalcomix/gc-sentry"),
        (
            "-syncthing-Sync-Projects-globalcomix-gc-phpstan-baseline-fixes-5",
            "globalcomix/gc-phpstan-baseline-fixes-5",
        ),
        ("-syncthing-Sync-Projects-globalcomix-gc-api-v2", "globalcomix/gc-api-v2"),
        ("-syncthing-Sync-Projects-robot-robot-sessions-blinc", "robot/robot-sessions-blinc"),
        ("-syncthing-Sync-Projects-robot-robot-sessions-tauri", "robot/robot-sessions-tauri"),
        ("-syncthing-Sync-Projects-robot-robot-architect-viewer", "robot/robot-architect-viewer"),
        ("-syncthing-Sync-Projects-robot-agent-bus", "robot/agent-bus"),
    ] {
        assert_eq!(names.get(dir).as_deref(), Some(name));
    }
    assert_eq!(names.get("-syncthing-Sync-Projects-robot"), None);
}

#[test]
fn configurations_list_projects() {
    let content = r#"{"x": 1, "projects": {"/b/c": {}, "/a": null, "/b": [1]}}"#;
    assert_eq!(
        project_paths(content),
        Some(vec!["/a".to_string(), "/b".to_string(), "/b/c".to_string()])
    );
    assert_eq!(project_paths(r#"{"projects": {}}"#), Some(vec![]));
    assert_eq!(project_paths(r#"{"projects": []}"#), None);
    assert_eq!(project_paths(r#"{"project": {"/a": 1}}"#), None);
    assert_eq!(project_paths(r#"["projects"]"#), None);
    assert_eq!(project_paths("{"), None);
    assert_eq!(project_paths(""), None);
}

#[test]
fn name_maps_come_from_configurations() {
    let names = build_name_map(
        Some(r#"{"projects": {"/home/osso/Projects/my-app": {}, "/srv/x": 1}}"#),
        "robot",
    );
    assert_eq!(names.get("-home-osso-Projects-my-app").as_deref(), Some("my-app"));
    assert_eq!(names.get("-srv-x").as_deref(), Some("/srv/x"));
    assert_eq!(
        names.get("-syncthing-Sync-Projects-globalcomix-gc-sentry").as_deref(),
        Some("globalcomix/gc-sentry")
    );
    for content in [None, Some("no json"), Some("{}"), Some(r#"{"projects": 1}"#)] {
        let names = build_name_map(content, "robot");
        assert_eq!(names.get("-syncthing-Sync-Projects-globalcomix-gc-sentry"), None);
    }
}

#[test]
fn later_paths_take_the_directory() {
    let names = build_name_map(Some(r#"{"projects": {"/a/b": 1, "/a-b": 1}}"#), "robot");
    assert_eq!(names.get("-a-b").as_deref(), Some("/a/b"));
    let names = map_of(&["/a/b", "/a-b"]);
    assert_eq!(names.get("-a-b").as_deref(), Some("/a-b"));
}

#[test]
fn worktree_marks_end_at_the_first() {
    let names = map_of(&["/home/osso/Projects/app"]);
    let dir = "-home-osso-Projects-app--robot-worktrees";
    assert_eq!(
        resolve_name(&format!("{dir}--robot-worktrees-x"), &names, "robot"),
        "app"
    );
    assert_eq!(resolve_name(dir, &names, "robot"), "app/.robot/worktrees");
}

#[test]
fn configured_projects_are_reported_by_their_paths() {
    let paths = ["/srv/my-app/v1.0", "/home/osso/Repos/a-b"];
    let names = map_of(&paths);
    for path in paths {
        let dir = path.replace('/', "-");
        assert_eq!(project_name_from_dir(&dir, &names, "robot"), shorten_path(path));
    }
}

#[test]
fn renames_are_applied_once() {
    for dir in ["-syncthing-Sync-Projects-wow-website", "-home-x", ""] {
        let once = apply_renames(dir, "robot");
        assert_eq!(apply_renames(once, "robot"), once);
    }
}
