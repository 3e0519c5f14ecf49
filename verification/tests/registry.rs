use myspace::utils::registry::{register_space, registered_spaces, sort_paths, unregister_space, Registry};

fn reg(v: &[&str]) -> Registry {
    Registry { spaces: v.iter().map(|s| s.to_string()).collect() }
}

#[test]
fn register_adds_once_and_sorts() {
    let mut r = reg(&[]);
    assert!(register_space(&mut r, "/s/zeta"));
    assert!(register_space(&mut r, "/s/alpha"));
    assert_eq!(r.spaces, vec!["/s/alpha", "/s/zeta"]);
    // Registering again changes nothing.
    assert!(!register_space(&mut r, "/s/zeta"));
    assert_eq!(r.spaces, vec!["/s/alpha", "/s/zeta"]);
}

#[test]
fn paths_sort_component_wise() {
    let v = vec!["/a/b".to_string(), "/a-b".to_string(), "/a".to_string()];
    // As PathBufs: `/a` < `/a/b` < `/a-b` (components compare before bytes).
    assert_eq!(sort_paths(&v), vec!["/a", "/a/b", "/a-b"]);
}

#[test]
fn unregister_removes_every_copy() {
    let mut r = reg(&["/s/a", "/s/b", "/s/a"]);
    unregister_space(&mut r, "/s/a");
    assert_eq!(r.spaces, vec!["/s/b"]);
    unregister_space(&mut r, "/s/missing");
    assert_eq!(r.spaces, vec!["/s/b"]);
}

#[test]
fn registered_spaces_prunes_stale_entries() {
    let mut r = reg(&["/s/a", "/s/b", "/s/c"]);
    let (live, changed) = registered_spaces(&mut r, &vec![true, false, true]);
    assert_eq!(live, vec!["/s/a", "/s/c"]);
    assert!(changed);
    assert_eq!(r.spaces, vec!["/s/a", "/s/c"]);
    let (live, changed) = registered_spaces(&mut r, &vec![true, true]);
    assert_eq!(live, vec!["/s/a", "/s/c"]);
    assert!(!changed);
}

#[test]
fn register_then_unregister_forgets_the_space() {
    let mut r = reg(&["/s/b"]);
    register_space(&mut r, "/s/a");
    assert!(r.spaces.contains(&"/s/a".to_string()));
    unregister_space(&mut r, "/s/a");
    assert_eq!(r.spaces, vec!["/s/b"]);
}

#[test]
fn registry_compares_paths_by_components() {
    let mut r = reg(&["/x/ws/"]);
    // `/x/ws` and `/x/ws/` are the same path.
    assert!(!register_space(&mut r, "/x/ws"));
    assert_eq!(r.spaces, vec!["/x/ws/"]);
    assert!(!register_space(&mut r, "/x//ws/."));
    unregister_space(&mut r, "/x/ws");
    assert!(r.spaces.is_empty());
}

#[test]
fn parent_components_sort_before_names() {
    // `..` is a ParentDir component, which sorts before every normal name.
    let v = vec!["/a/-x".to_string(), "/a/..".to_string(), "/a/b".to_string()];
    assert_eq!(sort_paths(&v), vec!["/a/..", "/a/-x", "/a/b"]);
}

#[test]
fn sorting_is_stable_for_equal_paths() {
    let v = vec!["/b".to_string(), "/a/".to_string(), "/a".to_string()];
    assert_eq!(sort_paths(&v), vec!["/a/", "/a", "/b"]);
}
