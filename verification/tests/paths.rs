use myspace::utils::context::{find_workspace_root, workspace_candidates};
use myspace::order::Rel;
use myspace::utils::paths::{
    compare_paths, path_components,
    file_name_or_empty, get_bare_repos_dir, get_config_path, get_logs_dir, join_path,
    myspace_home, myspace_home_in, parent, path_within, registry_path, repo_lock_path, space_lock_path,
};

#[test]
fn join_like_pathbuf() {
    assert_eq!(join_path("/a", "b"), "/a/b");
    assert_eq!(join_path("/a/", "b"), "/a/b");
    assert_eq!(join_path("", "b"), "b");
    assert_eq!(join_path("/a", "/b"), "/b");
}

#[test]
fn parents_and_file_names() {
    assert_eq!(parent("/a/b"), Some("/a".to_string()));
    assert_eq!(parent("/a"), Some("/".to_string()));
    assert_eq!(parent("/"), None);
    assert_eq!(parent("a"), Some(String::new()));
    assert_eq!(parent(""), None);
    assert_eq!(file_name_or_empty("/a/b"), "b");
    assert_eq!(file_name_or_empty("/"), "");
    assert_eq!(file_name_or_empty("/a/.."), "");
}

#[test]
fn within_is_component_wise() {
    assert!(path_within("/a/b", "/a"));
    assert!(path_within("/a", "/a"));
    assert!(!path_within("/ab", "/a"));
    assert!(path_within("/a/b", "/"));
    assert!(!path_within("/a", "/a/b"));
}

#[test]
fn myspace_home_prefers_the_variable() {
    assert_eq!(
        myspace_home_in(Some("/custom".to_string()), Some("/home/u".to_string())),
        Some("/custom".to_string())
    );
    assert_eq!(
        myspace_home_in(Some(String::new()), Some("/home/u".to_string())),
        Some("/home/u/.myspace".to_string())
    );
    assert_eq!(myspace_home_in(None, Some("/home/u".to_string())), Some("/home/u/.myspace".to_string()));
    assert_eq!(myspace_home_in(None, None), None);
}

#[test]
fn global_state_layout() {
    assert_eq!(get_config_path("/h/.myspace"), "/h/.myspace/config.toml");
    assert_eq!(get_bare_repos_dir("/h/.myspace"), "/h/.myspace/repos");
    assert_eq!(get_logs_dir("/h/.myspace"), "/h/.myspace/logs");
    assert_eq!(registry_path("/h/.myspace"), "/h/.myspace/spaces.toml");
}

#[test]
fn lock_paths() {
    assert_eq!(
        repo_lock_path("/c/github.com/o/r"),
        Some("/c/github.com/o/r.lock".to_string())
    );
    assert_eq!(repo_lock_path("/"), None);
    assert_eq!(repo_lock_path("/c/.."), None);
    assert_eq!(space_lock_path("/s/ws"), "/s/ws/.myspace/lock");
}

#[test]
fn workspace_root_is_the_nearest_marked_ancestor() {
    let cands = workspace_candidates("/s/ws/repo/src");
    assert_eq!(cands, vec!["/s/ws/repo/src", "/s/ws/repo", "/s/ws", "/s", "/"]);
    let marked = vec![false, false, true, true, false];
    assert_eq!(find_workspace_root("/s/ws/repo/src", &marked), Some("/s/ws".to_string()));
    assert_eq!(find_workspace_root("/s/ws/repo/src", &vec![false; 5]), None);
}

#[test]
fn myspace_home_from_the_environment() {
    assert_eq!(myspace_home(Some("/custom".to_string())), Some("/custom".to_string()));
    if let Some(h) = myspace_home(None) {
        assert!(h.ends_with("/.myspace"), "{}", h);
    }
    if let Some(h) = myspace_home(Some(String::new())) {
        assert!(h.ends_with("/.myspace"), "{}", h);
    }
}

fn comps(p: &str) -> Vec<String> {
    path_components(p).into_iter().map(|c| c.into_iter().collect()).collect()
}

#[test]
fn components_like_path() {
    assert_eq!(comps("/a//b/./c/"), vec!["/", "a", "b", "c"]);
    assert_eq!(comps("./a"), vec![".", "a"]);
    assert_eq!(comps("a/../b"), vec!["a", "..", "b"]);
    assert_eq!(comps(""), Vec::<String>::new());
    assert_eq!(comps("/"), vec!["/"]);
    // Joining a valid component adds exactly that component.
    assert_eq!(comps(&join_path("/a/b/", "c")), vec!["/", "a", "b", "c"]);
    assert_eq!(parent(&join_path("/a/b", "c")), Some("/a/b".to_string()));
}

#[test]
fn paths_compare_by_components() {
    assert_eq!(compare_paths("/x/ws", "/x/ws/"), Rel::Equal);
    assert_eq!(compare_paths("/a", "/a/b"), Rel::Less);
    assert_eq!(compare_paths("/a/b", "/a-b"), Rel::Less);
    assert_eq!(compare_paths("/a/..", "/a/-x"), Rel::Less);
    assert_eq!(compare_paths("b", "/a"), Rel::Greater);
    assert_eq!(compare_paths("./x", "a"), Rel::Less);
}
