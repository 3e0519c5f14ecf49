use myspace::engine::target_parser::ResolvedRepo;
use myspace::models::manifest::WorkspaceManifest;
use myspace::ops::error::OpsError;
use myspace::ops::plan::{
    check_from_name, check_repo_name, check_set_name, check_tracked,
    check_within, identity_host, member_identity, pick_fallback_dir, plan_add, plan_branch,
    plan_branch_delete, plan_branch_repo, plan_create, plan_delete, plan_remove, plan_init, plan_refresh, select_view,
    sync_failure_message, BranchRepoStep, RefreshAction, SetWorktree, TeardownStep, ViewTarget,
};
use myspace::ops::{
    check_space_name, render_status, repo_statuses, space_branch, space_config_path,
    space_state_path, space_trees_dir, validate_identity, validate_workspace_subpath,
    BranchRepoStatus, BranchSetStatus, RepoStatus, SpaceStatus,
};

fn manifest(name: &str, repos: &[(&str, &str)]) -> WorkspaceManifest {
    let mut m = WorkspaceManifest::new(name.to_string(), None);
    for (n, id) in repos {
        m.repositories.insert(n.to_string(), id.to_string());
    }
    m
}

fn resolved(repo: &str, git_ref: Option<&str>) -> ResolvedRepo {
    ResolvedRepo {
        url: format!("git@github.com:o/{}.git", repo),
        host: "github.com".to_string(),
        org: "o".to_string(),
        repo: repo.to_string(),
        git_ref: git_ref.map(str::to_string),
    }
}

#[test]
fn space_layout() {
    assert_eq!(space_config_path("/s/ws"), "/s/ws/.myspace/config.toml");
    assert_eq!(space_state_path("/s/ws"), "/s/ws/.myspace/state.toml");
    assert_eq!(space_trees_dir("/s/ws"), "/s/ws/.myspace/trees");
}

#[test]
fn identities_must_be_clean() {
    assert_eq!(validate_identity("github.com/o/r"), Ok(()));
    for bad in ["github.com/o", "github.com/o/r/x", "github.com/../r", "a//b", "h/o/r@x", ""] {
        assert_eq!(validate_identity(bad), Err(OpsError::InvalidIdentity(bad.to_string())));
    }
    assert_eq!(identity_host("github.com/o/r"), "github.com");
    assert_eq!(identity_host("nohost"), "nohost");
}

#[test]
fn branch_namespace() {
    let m = manifest("ws", &[]);
    assert_eq!(space_branch(&m, "feat"), Ok("ws/feat".to_string()));
    let bad = manifest("bad name", &[]);
    let err = space_branch(&bad, "feat").unwrap_err();
    assert!(err.message().contains("branch namespace"));
    assert_eq!(check_space_name("ws"), Ok(()));
    assert_eq!(check_space_name("a b"), Err(OpsError::UnusableSpaceName("a b".to_string())));
}

#[test]
fn workspace_subpaths() {
    assert_eq!(validate_workspace_subpath("ws"), Ok(()));
    assert_eq!(validate_workspace_subpath("a/b"), Ok(()));
    assert_eq!(validate_workspace_subpath("a..b"), Ok(()));
    assert_eq!(validate_workspace_subpath("../x"), Err(OpsError::NotRelativeSubpath));
    assert_eq!(validate_workspace_subpath("a/../b"), Err(OpsError::NotRelativeSubpath));
    assert_eq!(validate_workspace_subpath("a/.."), Err(OpsError::NotRelativeSubpath));
    assert_eq!(validate_workspace_subpath("/abs"), Err(OpsError::NotRelativeSubpath));
}

#[test]
fn create_rejects_escapes() {
    assert_eq!(plan_create("ws", false), Ok(()));
    assert_eq!(plan_create("ws", true), Err(OpsError::DirectoryExists("ws".to_string())));
    assert_eq!(plan_create("../escape", false), Err(OpsError::NotRelativeSubpath));
    assert_eq!(plan_create("/abs/path", false), Err(OpsError::NotRelativeSubpath));
    assert_eq!(
        plan_create("nested/space", false),
        Err(OpsError::UnusableSpaceName("nested/space".to_string()))
    );
    assert_eq!(plan_create("bad name", false), Err(OpsError::UnusableSpaceName("bad name".to_string())));
}

#[test]
fn init_names_the_space_after_the_directory() {
    assert_eq!(plan_init(false, "/s/ws"), Ok("ws".to_string()));
    assert_eq!(plan_init(true, "/s/ws"), Err(OpsError::AlreadySpace));
    let err = plan_init(false, "/s/bad name").unwrap_err();
    assert!(err.message().contains("branch namespace"));
}

#[test]
fn add_checks() {
    let m = manifest("ws", &[("myrepo", "github.com/otherorg/myrepo")]);
    assert_eq!(
        plan_add(&m, "/s/ws", &resolved("myrepo", None), false).unwrap_err().message(),
        "'myrepo' already tracks github.com/otherorg/myrepo \u{2014} remove it first or pick a different repo"
    );
    let err = plan_add(&m, "/s/ws", &resolved("x", Some("v1.0.0")), false).unwrap_err();
    assert_eq!(err, OpsError::RefPinned);
    assert!(err.message().contains("not usable"));
    assert!(!err.message().contains("--dep"));
    assert_eq!(
        plan_add(&m, "/s/ws", &resolved("x", None), true),
        Err(OpsError::WorktreeExists("/s/ws/x".to_string()))
    );
    let p = plan_add(&m, "/s/ws", &resolved("x", None), false).unwrap();
    assert_eq!(p.worktree_name, "x");
    assert_eq!(p.worktree_path, "/s/ws/x");
    assert_eq!(p.identity, "github.com/o/x");
    // Re-adding the same identity is allowed.
    let same = manifest("ws", &[("x", "github.com/o/x")]);
    assert!(plan_add(&same, "/s/ws", &resolved("x", None), false).is_ok());
}

#[test]
fn name_checks() {
    assert_eq!(check_set_name("feat"), Ok(()));
    assert_eq!(check_set_name("a/b"), Err(OpsError::InvalidSetName("a/b".to_string())));
    assert_eq!(check_from_name(None), Ok(()));
    assert_eq!(check_from_name(Some("..")), Err(OpsError::InvalidFromName("..".to_string())));
    assert_eq!(check_repo_name("r"), Ok(()));
    assert_eq!(check_repo_name("r x"), Err(OpsError::InvalidRepoName("r x".to_string())));
    let m = manifest("ws", &[("a", "h/o/a")]);
    assert_eq!(check_tracked(&m, "a"), Ok(()));
    assert_eq!(check_tracked(&m, "b"), Err(OpsError::NotTracked("b".to_string())));
}

#[test]
fn branch_plans() {
    let m = manifest("ws", &[("repo-b", "h/o/repo-b"), ("repo-a", "h/o/repo-a")]);
    let p = plan_branch(&m, "feat", &vec![], None).unwrap();
    assert_eq!(p.full_branch, "ws/feat");
    assert_eq!(p.from_branch, None);
    assert_eq!(p.repos, vec!["repo-a", "repo-b"]);
    let p = plan_branch(&m, "feat", &vec!["repo-b".to_string()], Some("base")).unwrap();
    assert_eq!(p.from_branch, Some("ws/base".to_string()));
    assert_eq!(p.repos, vec!["repo-b"]);
    assert_eq!(plan_branch(&manifest("ws", &[]), "feat", &vec![], None).err(), Some(OpsError::NoRepos));
    assert_eq!(
        member_identity(&m, "ghost").unwrap_err().message(),
        "'ghost' is not a member of this space \u{2014} `myspace add` it first"
    );
    assert_eq!(member_identity(&m, "repo-a"), Ok("h/o/repo-a".to_string()));
    let broken = manifest("ws", &[("r", "not-an-identity")]);
    assert_eq!(
        member_identity(&broken, "r"),
        Err(OpsError::InvalidIdentity("not-an-identity".to_string()))
    );
}

#[test]
fn view_selection() {
    assert_eq!(select_view("trunk", false), Ok(None));
    assert_eq!(select_view("feat", true), Ok(Some("feat".to_string())));
    assert_eq!(select_view("nope", false), Err(OpsError::NoSuchViewSet("nope".to_string())));
    assert_eq!(select_view("a/b", true), Err(OpsError::InvalidViewTarget("a/b".to_string())));
}

#[test]
fn refresh_plans() {
    assert_eq!(
        plan_refresh("ws", "a", &Some("feat".to_string()), true, true, true),
        RefreshAction::Retarget(ViewTarget::Branch("ws/feat".to_string()))
    );
    assert_eq!(
        plan_refresh("ws", "a", &Some("feat".to_string()), true, true, false),
        RefreshAction::Retarget(ViewTarget::Trunk)
    );
    assert_eq!(plan_refresh("ws", "a", &None, true, true, true), RefreshAction::Retarget(ViewTarget::Trunk));
    assert_eq!(plan_refresh("ws", "a", &None, false, true, true), RefreshAction::Skip);
    assert_eq!(
        plan_refresh("ws", "a", &None, true, false, false),
        RefreshAction::Warn("a: not a linked worktree, skipped".to_string())
    );
    assert_eq!(
        plan_refresh("ws", "../a", &None, true, true, false),
        RefreshAction::Warn("../a: invalid name in manifest, skipped".to_string())
    );
}

fn wt(path: &str, linked: bool, dirty: bool, needs_push: bool) -> SetWorktree {
    SetWorktree { path: path.to_string(), linked, dirty, needs_push }
}

#[test]
fn teardown_refusal_touches_nothing() {
    let wts = vec![wt("/t/a", true, false, false), wt("/t/b", true, true, false)];
    let err = plan_branch_delete("ws/feat", &wts, false, false).unwrap_err();
    assert_eq!(err, OpsError::Dirty("/t/b".to_string()));
    assert!(err.message().contains("uncommitted"));
    let wts = vec![wt("/t/a", true, false, true)];
    let err = plan_branch_delete("ws/feat", &wts, false, false).unwrap_err();
    assert!(err.message().contains("neither merged"));
    let wts = vec![wt("/t/a", false, false, false)];
    assert_eq!(
        plan_branch_delete("ws/feat", &wts, false, false),
        Err(OpsError::NotLinked("/t/a".to_string()))
    );
}

#[test]
fn teardown_steps() {
    let wts = vec![wt("/t/a", true, true, true), wt("/t/b", false, false, false)];
    let steps = plan_branch_delete("ws/feat", &wts, true, true).unwrap();
    assert_eq!(
        steps,
        vec![
            TeardownStep::RemoveLinked { path: "/t/a".to_string(), force: true, delete_branch: false },
            TeardownStep::RemoveDir { path: "/t/b".to_string() },
        ]
    );
    let wts = vec![wt("/t/a", true, false, false)];
    let steps = plan_branch_delete("ws/feat", &wts, false, false).unwrap();
    assert_eq!(
        steps,
        vec![TeardownStep::RemoveLinked { path: "/t/a".to_string(), force: false, delete_branch: true }]
    );
}

#[test]
fn deletion_moves_out_of_the_space() {
    assert_eq!(check_within("/s/ws", "/s"), Ok(()));
    assert_eq!(check_within("/t/ws", "/s"), Err(OpsError::OutsideCurrentDirectory));
    let c = vec!["/s/ws/home".to_string(), "/s".to_string(), "/tmp".to_string()];
    assert_eq!(pick_fallback_dir(&c, "/s/ws"), Ok("/s".to_string()));
    assert_eq!(pick_fallback_dir(&vec!["/s/ws".to_string()], "/s/ws"), Err(OpsError::NoSafeDirectory));
}

#[test]
fn status_rendering() {
    let m = manifest("ws", &[("repo-a", "h/o/repo-a"), ("repo-b", "h/o/repo-b")]);
    let repos = repo_statuses(&m, "/s/ws", &vec![true, false], &vec![Some(true), Some(true)]);
    assert_eq!(repos[0].dirty, Some(true));
    assert_eq!(repos[1].dirty, None);
    assert_eq!(repos[1].path, "/s/ws/repo-b");
    let set = BranchSetStatus::new(
        "ws",
        "feat".to_string(),
        vec![BranchRepoStatus {
            name: "repo-a".to_string(),
            path: "/s/ws/.myspace/trees/feat/repo-a".to_string(),
            dirty: Some(true),
            needs_push: Some(true),
        }],
    );
    assert_eq!(set.branch, "ws/feat");
    let s = SpaceStatus {
        name: "ws".to_string(),
        root: "/s/ws".to_string(),
        view: "feat".to_string(),
        repos,
        branch_sets: vec![set],
    };
    let text = render_status(&vec![s]);
    assert_eq!(
        text,
        "space ws (/s/ws) \u{2014} viewing feat\n  repo-a  h/o/repo-a  dirty\n  repo-b  h/o/repo-b  missing\n  branch feat (ws/feat)\n    repo-a  /s/ws/.myspace/trees/feat/repo-a  [dirty, needs push]\n"
    );
    let clean = RepoStatus {
        name: "r".to_string(),
        identity: "h/o/r".to_string(),
        path: "/x/r".to_string(),
        present: true,
        dirty: Some(false),
    };
    let s = SpaceStatus {
        name: "x".to_string(),
        root: "/x".to_string(),
        view: "trunk".to_string(),
        repos: vec![clean],
        branch_sets: vec![],
    };
    assert_eq!(render_status(&vec![s]), "space x (/x) \u{2014} viewing trunk\n  r  h/o/r  clean\n");
}

#[test]
fn every_error_has_its_message() {
    let cases: Vec<(OpsError, &str)> = vec![
        (OpsError::NotInSpace, "Not in a myspace workspace"),
        (OpsError::AlreadySpace, "The current directory is already a myspace space"),
        (OpsError::DirectoryExists("ws".to_string()), "Directory ws already exists"),
        (OpsError::NotRelativeSubpath, "Workspace name must be a relative path under the current directory"),
        (OpsError::OutsideCurrentDirectory, "Workspace path must stay within the current directory"),
        (OpsError::UnusableSpaceName("a b".to_string()), "Space name 'a b' is not usable as a branch namespace \u{2014} fix it with `myspace edit`"),
        (OpsError::InvalidIdentity("x".to_string()), "Manifest contains invalid repo identity 'x' \u{2014} fix it with `myspace edit`"),
        (OpsError::WorktreeExists("/s/r".to_string()), "\"/s/r\" already exists in the workspace"),
        (OpsError::InvalidRepoName("r x".to_string()), "Invalid repository name 'r x'"),
        (OpsError::NotTracked("r".to_string()), "'r' is not tracked in this workspace"),
        (OpsError::InvalidManifestName("..".to_string()), "Manifest contains invalid repository name '..' \u{2014} fix it with `myspace edit`"),
        (OpsError::InvalidSetName("a/b".to_string()), "Invalid branch set name 'a/b'"),
        (OpsError::InvalidFromName("a/b".to_string()), "Invalid --from name 'a/b'"),
        (OpsError::NoRepos, "This space has no repos \u{2014} `myspace add` some first"),
        (OpsError::NoSuchSet("f".to_string()), "No branch set named 'f' in this space"),
        (OpsError::NoSuchViewSet("f".to_string()), "No branch set named 'f' in this space (use `myspace branch f <repos>` to create it, or `myspace view trunk`)"),
        (OpsError::InvalidViewTarget("a/b".to_string()), "Invalid view target 'a/b'"),
        (OpsError::NotLinked("/t/a".to_string()), "\"/t/a\" is not a linked worktree \u{2014} use --force to delete anyway"),
        (OpsError::Dirty("/t/a".to_string()), "Worktree at \"/t/a\" has uncommitted changes; use --force to discard them"),
        (OpsError::NoSafeDirectory, "Cannot determine a safe directory outside the workspace"),
    ];
    for (e, m) in cases {
        assert_eq!(e.message(), m);
    }
}

#[test]
fn branch_repo_steps() {
    let m = manifest("ws", &[("repo-a", "h/o/repo-a"), ("bad", "nope")]);
    assert_eq!(plan_branch_repo(&m, "repo-a", false, true), Ok(BranchRepoStep::Create("h/o/repo-a".to_string())));
    assert_eq!(plan_branch_repo(&m, "repo-a", true, false), Ok(BranchRepoStep::Skip));
    let err = plan_branch_repo(&m, "repo-a", false, false).unwrap_err();
    assert_eq!(err, OpsError::NoCache("repo-a".to_string(), "h/o/repo-a".to_string()));
    assert_eq!(
        err.message(),
        "No cached repo for 'repo-a' (h/o/repo-a) \u{2014} run `myspace sync` first"
    );
    assert!(plan_branch_repo(&m, "ghost", false, true).unwrap_err().message().contains("not a member"));
    assert_eq!(
        plan_branch_repo(&m, "bad", true, true),
        Err(OpsError::InvalidIdentity("nope".to_string()))
    );
}

#[test]
fn sync_failures_are_listed() {
    assert_eq!(
        sync_failure_message(&vec!["/s/a: boom".to_string(), "/s/b: bang".to_string()]),
        "sync failed for:\n  /s/a: boom\n  /s/b: bang"
    );
    assert_eq!(sync_failure_message(&vec![]), "sync failed for:");
}

#[test]
fn remove_plans() {
    assert_eq!(
        plan_remove("/s/ws/r", true, false, false, false),
        Err(OpsError::NotLinked("/s/ws/r".to_string()))
    );
    assert!(plan_remove("/s/ws/r", true, false, false, false).unwrap_err().message().contains("--force"));
    assert_eq!(
        plan_remove("/s/ws/r", true, false, false, true),
        Ok(Some(TeardownStep::RemoveDir { path: "/s/ws/r".to_string() }))
    );
    assert_eq!(plan_remove("/s/ws/r", true, true, true, false), Err(OpsError::Dirty("/s/ws/r".to_string())));
    assert_eq!(
        plan_remove("/s/ws/r", true, true, true, true),
        Ok(Some(TeardownStep::RemoveLinked { path: "/s/ws/r".to_string(), force: true, delete_branch: false }))
    );
    assert_eq!(
        plan_remove("/s/ws/r", true, true, false, false),
        Ok(Some(TeardownStep::RemoveLinked { path: "/s/ws/r".to_string(), force: false, delete_branch: false }))
    );
}

#[test]
fn remove_reconciles_a_hand_deleted_checkout() {
    // The checkout is gone: nothing to tear down, and no refusal, whatever
    // the other facts and with or without --force.
    assert_eq!(plan_remove("/s/ws/myrepo", false, false, false, false), Ok(None));
    assert_eq!(plan_remove("/s/ws/myrepo", false, false, false, true), Ok(None));
}

#[test]
fn delete_tears_down_views_and_branch_sets() {
    let m = manifest("ws", &[("repo-a", "h/o/repo-a"), ("repo-b", "h/o/repo-b"), ("repo-c", "h/o/repo-c")]);
    let sets = vec![wt("/s/ws/.myspace/trees/feat/repo-a", true, false, false)];
    let (steps, refused) = plan_delete(&m, "/s/ws", &vec![true, true, false], &vec![true, false, false], &sets);
    assert_eq!(refused, None);
    assert_eq!(
        steps,
        vec![
            TeardownStep::RemoveLinked { path: "/s/ws/repo-a".to_string(), force: true, delete_branch: false },
            TeardownStep::RemoveDir { path: "/s/ws/repo-b".to_string() },
            TeardownStep::RemoveLinked {
                path: "/s/ws/.myspace/trees/feat/repo-a".to_string(),
                force: true,
                delete_branch: false
            },
        ]
    );
}

#[test]
fn delete_stops_at_an_invalid_manifest_name() {
    let m = manifest("ws", &[("a", "h/o/a"), ("b c", "h/o/x"), ("d", "h/o/d")]);
    let sets = vec![wt("/s/ws/.myspace/trees/feat/a", true, false, false)];
    let (steps, refused) = plan_delete(&m, "/s/ws", &vec![true, false, true], &vec![true, false, true], &sets);
    assert_eq!(refused, Some(OpsError::InvalidManifestName("b c".to_string())));
    assert_eq!(
        steps,
        vec![TeardownStep::RemoveLinked { path: "/s/ws/a".to_string(), force: true, delete_branch: false }]
    );
}

#[test]
fn paths_in_messages_are_debug_quoted() {
    assert_eq!(
        OpsError::Dirty("/t/a\"b".to_string()).message(),
        "Worktree at \"/t/a\\\"b\" has uncommitted changes; use --force to discard them"
    );
    assert_eq!(
        OpsError::WorktreeExists("/s/ws/tab\there".to_string()).message(),
        "\"/s/ws/tab\\there\" already exists in the workspace"
    );
}
