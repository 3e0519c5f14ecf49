use myspace::git::engine::{
    branch_holder, conventional_key_names, credential_choice, ensure_branch_disposable,
    free_worktree_name, held_branch_message, identity_agent_hint, local_ref, needs_push, plan_retarget,
    ssh_auth_help, ssh_candidates, tracking_ref, trunk_ref, worktree_at, CredentialChoice,
    Retarget, SshCandidate, TrunkError,
};
use myspace::ops::error::OpsError;

fn strings(v: &[&str]) -> Vec<String> {
    v.iter().map(|s| s.to_string()).collect()
}

#[test]
fn refs_of_a_branch() {
    assert_eq!(local_ref("ws/feat"), "refs/heads/ws/feat");
    assert_eq!(tracking_ref("main"), "refs/remotes/origin/main");
}

#[test]
fn trunk_ref_follows_symbolic_head() {
    assert_eq!(trunk_ref(Some("refs/heads/main")), Ok("refs/remotes/origin/main".to_string()));
    assert_eq!(trunk_ref(Some("refs/heads/release/1")), Ok("refs/remotes/origin/release/1".to_string()));
    assert_eq!(trunk_ref(None), Err(TrunkError::HeadNotSymbolic));
    assert_eq!(
        trunk_ref(Some("refs/tags/v1")),
        Err(TrunkError::HeadOutsideHeads("refs/tags/v1".to_string()))
    );
    assert_eq!(TrunkError::HeadNotSymbolic.message(), "Bare repo HEAD is not a symbolic ref");
    assert_eq!(
        TrunkError::HeadOutsideHeads("refs/tags/v1".to_string()).message(),
        "Bare repo HEAD points outside refs/heads: refs/tags/v1"
    );
}

#[test]
fn only_unmerged_unpushed_existing_branches_need_push() {
    assert!(needs_push(true, false, false));
    assert!(!needs_push(false, false, false));
    assert!(!needs_push(true, true, false));
    assert!(!needs_push(true, false, true));
}

#[test]
fn disposable_branches() {
    assert_eq!(ensure_branch_disposable("ws/feat", false), Ok(()));
    let err = ensure_branch_disposable("ws/feat", true).unwrap_err();
    assert_eq!(err, OpsError::NotDisposable("ws/feat".to_string()));
    assert!(err.message().contains("neither merged"));
}

#[test]
fn ssh_candidates_order() {
    let present = strings(&["/h/.ssh/id_ed25519", "/h/.ssh/id_rsa"]);
    assert_eq!(
        ssh_candidates(None, &present),
        vec![
            SshCandidate::Agent,
            SshCandidate::Key("/h/.ssh/id_ed25519".to_string()),
            SshCandidate::Key("/h/.ssh/id_rsa".to_string()),
        ]
    );
    assert_eq!(
        ssh_candidates(Some("/k".to_string()), &present),
        vec![SshCandidate::Key("/k".to_string())]
    );
    assert_eq!(
        conventional_key_names(),
        vec!["id_ed25519", "id_ed25519_sk", "id_ecdsa", "id_ecdsa_sk", "id_rsa"]
    );
}

#[test]
fn credentials_walk_the_candidates() {
    let c = ssh_candidates(None, &strings(&["/k1"]));
    assert_eq!(credential_choice(&c, 0, true, false, false), CredentialChoice::Agent);
    assert_eq!(credential_choice(&c, 1, true, false, false), CredentialChoice::Key("/k1".to_string()));
    assert_eq!(credential_choice(&c, 2, true, true, true), CredentialChoice::Exhausted);
    assert_eq!(credential_choice(&c, 0, false, true, false), CredentialChoice::Default);
    assert_eq!(credential_choice(&c, 0, false, false, true), CredentialChoice::Default);
    assert_eq!(credential_choice(&c, 0, false, false, false), CredentialChoice::Unavailable);
}

#[test]
fn agent_only_credentials() {
    // An agent-only callback: SSH asks go to the agent, then give up.
    let c = vec![SshCandidate::Agent];
    assert_eq!(credential_choice(&c, 0, true, false, false), CredentialChoice::Agent);
    assert_eq!(credential_choice(&c, 1, true, false, false), CredentialChoice::Exhausted);
}

#[test]
fn auth_help_names_the_agent() {
    let with = ssh_auth_help(Some("/tmp/agent.sock".to_string()));
    assert!(with.starts_with("SSH authentication failed: no usable identity."));
    assert!(with.contains("~/.ssh/config sets IdentityAgent /tmp/agent.sock"));
    assert!(with.ends_with("ssh_agent = \"/tmp/agent.sock\"\n"));
    let without = ssh_auth_help(None);
    assert!(without.contains("Load a key with `ssh-add <key>`"));
    assert!(without.ends_with("ssh_key = \"~/.ssh/id_ed25519\"\n"));
}

#[test]
fn identity_agent_from_ssh_config() {
    let config = "# comment\n\nHost *\n  IdentityAgent \"~/Library/agent.sock\"\n";
    assert_eq!(identity_agent_hint(config), Some("~/Library/agent.sock".to_string()));
    assert_eq!(identity_agent_hint("identityagent /a\nIdentityAgent /b\n"), Some("/a".to_string()));
    assert_eq!(identity_agent_hint("IDENTITYAGENT\t  /x  "), Some("/x".to_string()));
    assert_eq!(identity_agent_hint("Host x\r\n  IdentityAgent /y\r\n"), Some("/y".to_string()));
}

#[test]
fn identity_agent_absent() {
    assert_eq!(identity_agent_hint(""), None);
    assert_eq!(identity_agent_hint("# IdentityAgent /a\n"), None);
    assert_eq!(identity_agent_hint("IdentityAgent\nHost *\n"), None);
    assert_eq!(identity_agent_hint("IdentityAgentX /a\n"), None);
}

#[test]
fn free_names_for_worktrees() {
    assert_eq!(free_worktree_name("myrepo", &strings(&[])), "myrepo");
    assert_eq!(free_worktree_name("myrepo", &strings(&["other"])), "myrepo");
    assert_eq!(free_worktree_name("myrepo", &strings(&["myrepo"])), "myrepo-2");
    assert_eq!(
        free_worktree_name("myrepo", &strings(&["myrepo", "myrepo-2", "myrepo-3"])),
        "myrepo-4"
    );
    assert_eq!(free_worktree_name("r", &strings(&["r", "r-3"])), "r-2");
    let mut taken = strings(&["r"]);
    for i in 2..=11 {
        taken.push(format!("r-{}", i));
    }
    assert_eq!(free_worktree_name("r", &taken), "r-12");
}

#[test]
fn branch_holders() {
    let heads = vec![
        ("/s/a".to_string(), None),
        ("/s/b".to_string(), Some("refs/heads/ws/other".to_string())),
        ("/s/c".to_string(), Some("refs/heads/ws/feat".to_string())),
        ("/s/d".to_string(), Some("refs/heads/ws/feat".to_string())),
    ];
    assert_eq!(branch_holder("ws/feat", &heads), Some("/s/c".to_string()));
    assert_eq!(branch_holder("ws/none", &heads), None);
    assert_eq!(
        held_branch_message("ws/feat", "/s/c"),
        "branch 'ws/feat' is already checked out at /s/c \u{2014} a branch can live in only one worktree; pick a different name or work there"
    );
}

#[test]
fn worktree_lookup_by_path() {
    let paths = strings(&["/a/x", "/a/y", "/a/y"]);
    assert_eq!(worktree_at(&paths, "/a/y"), Some(1));
    assert_eq!(worktree_at(&paths, "/a/z"), None);
}

#[test]
fn dirty_views_are_never_retargeted() {
    assert_eq!(
        plan_retarget("/s/ws/repo-a", true, false),
        Err("\"/s/ws/repo-a\" has local changes \u{2014} commit, stash, or discard them first".to_string())
    );
    assert!(plan_retarget("/s/ws/repo-a", true, true).is_err());
    assert_eq!(plan_retarget("/s/ws/repo-a", false, true), Ok(Retarget::AlreadyThere));
    assert_eq!(plan_retarget("/s/ws/repo-a", false, false), Ok(Retarget::Checkout));
}
