use myspace::models::config::{default_host, expand_tilde, GlobalConfig, HostConfig};
use myspace::models::manifest::{RepoMap, WorkspaceManifest};
use myspace::models::state::SpaceState;

#[test]
fn repo_map_keeps_names_sorted() {
    let mut m = RepoMap::new();
    assert!(m.is_empty());
    for n in ["zeta", "alpha", "mid"] {
        m.insert(n.to_string(), format!("github.com/o/{}", n));
    }
    assert_eq!(m.len(), 3);
    assert_eq!(m.keys(), vec!["alpha", "mid", "zeta"]);
    assert_eq!(
        m.entries(),
        vec![
            ("alpha".to_string(), "github.com/o/alpha".to_string()),
            ("mid".to_string(), "github.com/o/mid".to_string()),
            ("zeta".to_string(), "github.com/o/zeta".to_string()),
        ]
    );
}

#[test]
fn repo_map_reads_back_what_was_written() {
    let mut m = RepoMap::new();
    m.insert("a".to_string(), "h/o/a".to_string());
    assert_eq!(m.get("a"), Some("h/o/a".to_string()));
    assert!(m.contains_key("a"));
    m.insert("a".to_string(), "h/p/a".to_string());
    assert_eq!(m.get("a"), Some("h/p/a".to_string()));
    assert_eq!(m.len(), 1);
    m.remove("a");
    assert_eq!(m.get("a"), None);
    assert!(m.is_empty());
    m.remove("missing");
    assert!(m.is_empty());
}

#[test]
fn new_manifest_is_empty() {
    let m = WorkspaceManifest::new("ws".to_string(), Some("Workspace ws".to_string()));
    assert_eq!(m.workspace.name, "ws");
    assert_eq!(m.workspace.description.as_deref(), Some("Workspace ws"));
    assert!(m.repositories.is_empty());
}

#[test]
fn ssh_keys_are_tilde_expanded() {
    assert_eq!(default_host(), "github.com");
    let mut c = GlobalConfig::new(default_host(), "me".to_string());
    c.set_host("github.com".to_string(), HostConfig::new(Some("~/.ssh/work_ed25519".to_string())));
    c.set_host("bitbucket.org".to_string(), HostConfig::new(None));
    assert_eq!(
        c.ssh_key_for_home("github.com", Some("/home/u".to_string())),
        Some("/home/u/.ssh/work_ed25519".to_string())
    );
    assert_eq!(c.ssh_key_for_home("bitbucket.org", Some("/home/u".to_string())), None);
    assert_eq!(c.ssh_key_for_home("gitlab.com", Some("/home/u".to_string())), None);
    assert_eq!(
        c.ssh_key_for_home("github.com", None),
        Some("~/.ssh/work_ed25519".to_string())
    );
    let k = c.ssh_key_for("github.com").unwrap();
    assert!(k.ends_with(".ssh/work_ed25519"));
}

#[test]
fn tilde_expansion() {
    assert_eq!(expand_tilde("~/k", Some("/h".to_string())), "/h/k");
    assert_eq!(expand_tilde("~k", Some("/h".to_string())), "~k");
    assert_eq!(expand_tilde("/abs", Some("/h".to_string())), "/abs");
}

#[test]
fn view_state() {
    let s = SpaceState::default();
    assert_eq!(s.view_label(), "trunk");
    assert!(!s.is_viewing("feat"));
    let s = SpaceState { view: Some("feat".to_string()) };
    assert_eq!(s.view_label(), "feat");
    assert!(s.is_viewing("feat"));
}
