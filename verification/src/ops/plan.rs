//! What each space command decides, from the facts its filesystem and git
//! work gathered: which names are usable, which repos take part, what a
//! teardown may destroy, and where each view should point.
use vstd::prelude::*;
use crate::engine::target_parser::{self, is_valid_component, ResolvedRepo};
use crate::models::manifest::WorkspaceManifest;
use crate::ops::error::{OpsError, OpsErrorView};
use crate::ops::{self as space, space_branch, validate_identity};
use crate::text::{self, push_char, push_str};
use crate::utils::paths::{self, join_path};

verus! {

/// A branch-set or repo name given on the command line must be one valid
/// component.
pub fn check_set_name(name: &str) -> (r: Result<(), OpsError>)
    ensures
        r is Ok <==> target_parser::spec_valid_component(name@),
        r matches Err(e) ==> e@ == OpsErrorView::InvalidSetName(name@),
{
    if is_valid_component(name) {
        Ok(())
    } else {
        Err(OpsError::InvalidSetName(String::from_str(name)))
    }
}

/// The `--from` set of `branch` must be one valid component.
pub fn check_from_name(from: Option<&str>) -> (r: Result<(), OpsError>)
    ensures
        r is Ok <==> (from is None || target_parser::spec_valid_component(from->0@)),
        r matches Err(e) ==> e@ == OpsErrorView::InvalidFromName(from->0@),
{
    match from {
        Some(f) => if is_valid_component(f) {
            Ok(())
        } else {
            Err(OpsError::InvalidFromName(String::from_str(f)))
        },
        None => Ok(()),
    }
}

/// The repo name given to `remove` must be one valid component.
pub fn check_repo_name(name: &str) -> (r: Result<(), OpsError>)
    ensures
        r is Ok <==> target_parser::spec_valid_component(name@),
        r matches Err(e) ==> e@ == OpsErrorView::InvalidRepoName(name@),
{
    if is_valid_component(name) {
        Ok(())
    } else {
        Err(OpsError::InvalidRepoName(String::from_str(name)))
    }
}

/// `remove` only removes members.
pub fn check_tracked(manifest: &WorkspaceManifest, name: &str) -> (r: Result<(), OpsError>)
    ensures
        r is Ok <==> manifest.repositories@.contains_key(name@),
        r matches Err(e) ==> e@ == OpsErrorView::NotTracked(name@),
{
    if manifest.repositories.contains_key(name) {
        Ok(())
    } else {
        Err(OpsError::NotTracked(String::from_str(name)))
    }
}

/// What `add` records: the worktree name (the repo name) and the identity.
#[derive(Debug, PartialEq, Eq)]
pub struct AddPlan {
    pub worktree_name: String,
    pub worktree_path: String,
    pub identity: String,
}

/// The member name of `resolved` already tracks another identity.
pub open spec fn spec_conflicting_member(
    repos: Map<Seq<char>, Seq<char>>,
    resolved: ResolvedRepo,
) -> bool {
    repos.contains_key(resolved.repo@) && repos[resolved.repo@] != target_parser::spec_identity(
        resolved.host@,
        resolved.org@,
        resolved.repo@,
    )
}

/// Decides whether `add` may proceed for a resolved repo: ref pins are not
/// usable yet, a member name may not switch to another identity, and the
/// worktree directory must not exist yet.
pub fn plan_add(
    manifest: &WorkspaceManifest,
    workspace_root: &str,
    resolved: &ResolvedRepo,
    worktree_exists: bool,
) -> (r: Result<AddPlan, OpsError>)
    ensures
        match r {
            Ok(p) => {
                &&& resolved.git_ref is None
                &&& !spec_conflicting_member(manifest.repositories@, *resolved)
                &&& !worktree_exists
                &&& p.worktree_name@ == resolved.repo@
                &&& p.worktree_path@ == paths::spec_join(workspace_root@, resolved.repo@)
                &&& p.identity@ == target_parser::spec_identity(
                    resolved.host@,
                    resolved.org@,
                    resolved.repo@,
                )
            },
            Err(e) => if resolved.git_ref is Some {
                e@ == OpsErrorView::RefPinned
            } else if spec_conflicting_member(manifest.repositories@, *resolved) {
                e@ == OpsErrorView::AlreadyTracks(
                    resolved.repo@,
                    manifest.repositories@[resolved.repo@],
                )
            } else {
                worktree_exists && e@ == OpsErrorView::WorktreeExists(
                    paths::spec_join(workspace_root@, resolved.repo@),
                )
            },
        },
{
    if resolved.git_ref.is_some() {
        return Err(OpsError::RefPinned);
    }
    let identity = resolved.identity();
    match manifest.repositories.get(resolved.repo.as_str()) {
        Some(existing) => {
            if !text::str_eq(existing.as_str(), identity.as_str()) {
                return Err(OpsError::AlreadyTracks(resolved.repo.clone(), existing));
            }
        },
        None => {},
    }
    let worktree_path = join_path(workspace_root, resolved.repo.as_str());
    if worktree_exists {
        return Err(OpsError::WorktreeExists(worktree_path));
    }
    Ok(AddPlan { worktree_name: resolved.repo.clone(), worktree_path, identity })
}

/// What `branch` works through: the namespaced branch, the branch it stacks
/// on (if any), and the repos that join the set.
#[derive(Debug, PartialEq, Eq)]
pub struct BranchPlan {
    pub full_branch: String,
    pub from_branch: Option<String>,
    pub repos: Vec<String>,
}

/// Decides the branch, the base and the participating repos of a branch set.
/// With no repos requested, every member joins.
pub fn plan_branch(
    manifest: &WorkspaceManifest,
    name: &str,
    requested: &Vec<String>,
    from: Option<&str>,
) -> (r: Result<BranchPlan, OpsError>)
    ensures
        r matches Err(e) ==> if !target_parser::spec_valid_component(manifest.workspace.name@) {
            e@ == OpsErrorView::UnusableSpaceName(manifest.workspace.name@)
        } else {
            manifest.repositories@.len() == 0 && e@ == OpsErrorView::NoRepos
        },
        r is Ok <==> target_parser::spec_valid_component(manifest.workspace.name@)
            && manifest.repositories@.len() > 0,
        r matches Ok(p) ==> {
            &&& p.full_branch@ == space::spec_space_branch(manifest.workspace.name@, name@)
            &&& match from {
                Some(f) => p.from_branch is Some && p.from_branch->0@ == space::spec_space_branch(
                    manifest.workspace.name@,
                    f@,
                ),
                None => p.from_branch is None,
            }
            &&& requested.len() > 0 ==> p.repos@ == requested@
            &&& requested.len() == 0 ==> {
                &&& p.repos.len() == manifest.repositories.pairs().len()
                &&& forall|i: int|
                    0 <= i < p.repos.len() ==> #[trigger] p.repos@[i]@
                        == manifest.repositories.pairs()[i].0
            }
        },
{
    let full_branch = match space_branch(manifest, name) {
        Ok(b) => b,
        Err(e) => return Err(e),
    };
    if manifest.repositories.is_empty() {
        return Err(OpsError::NoRepos);
    }
    let from_branch = match from {
        Some(f) => match space_branch(manifest, f) {
            Ok(b) => Some(b),
            Err(e) => return Err(e),
        },
        None => None,
    };
    let repos = if requested.len() == 0 {
        manifest.repositories.keys()
    } else {
        clone_names(requested)
    };
    Ok(BranchPlan { full_branch, from_branch, repos })
}

fn clone_names(v: &Vec<String>) -> (r: Vec<String>)
    ensures
        r@ == v@,
{
    let mut r: Vec<String> = Vec::new();
    for i in 0..v.len()
        invariant
            r@ == v@.subrange(0, i as int),
    {
        r.push(v[i].clone());
    }
    assert(r@ =~= v@);
    r
}

/// The identity of a repo that joins a branch set: it must be a member with
/// a clean `host/org/repo` identity.
pub fn member_identity(manifest: &WorkspaceManifest, repo: &str) -> (r: Result<String, OpsError>)
    ensures
        !manifest.repositories@.contains_key(repo@) ==> (r matches Err(e) && e@
            == OpsErrorView::NotMember(repo@)),
        manifest.repositories@.contains_key(repo@) ==> match r {
            Ok(id) => id@ == manifest.repositories@[repo@] && space::spec_valid_identity(id@),
            Err(e) => !space::spec_valid_identity(manifest.repositories@[repo@]) && e@
                == OpsErrorView::InvalidIdentity(manifest.repositories@[repo@]),
        },
{
    match manifest.repositories.get(repo) {
        None => Err(OpsError::NotMember(String::from_str(repo))),
        Some(id) => match validate_identity(id.as_str()) {
            Ok(()) => Ok(id),
            Err(e) => Err(e),
        },
    }
}

/// What `branch` does for one repo of the set.
#[derive(Debug, PartialEq, Eq)]
pub enum BranchRepoStep {
    /// The repo already has its worktree in the set.
    Skip,
    /// Create the worktree from the cached repo of this identity.
    Create(String),
}

/// Decides what `branch` does for one repo: it must be a member with a clean
/// identity; a repo whose worktree is already in the set is skipped; the
/// others need their cached bare repo.
pub fn plan_branch_repo(
    manifest: &WorkspaceManifest,
    repo: &str,
    worktree_exists: bool,
    cache_is_dir: bool,
) -> (r: Result<BranchRepoStep, OpsError>)
    ensures
        !manifest.repositories@.contains_key(repo@) ==> (r matches Err(e) && e@
            == OpsErrorView::NotMember(repo@)),
        manifest.repositories@.contains_key(repo@) ==> {
            let id = manifest.repositories@[repo@];
            if !space::spec_valid_identity(id) {
                r matches Err(e) && e@ == OpsErrorView::InvalidIdentity(id)
            } else if worktree_exists {
                r == Ok::<BranchRepoStep, OpsError>(BranchRepoStep::Skip)
            } else if !cache_is_dir {
                r matches Err(e) && e@ == OpsErrorView::NoCache(repo@, id)
            } else {
                r matches Ok(BranchRepoStep::Create(c)) && c@ == id
            }
        },
{
    let identity = match member_identity(manifest, repo) {
        Ok(id) => id,
        Err(e) => return Err(e),
    };
    if worktree_exists {
        return Ok(BranchRepoStep::Skip);
    }
    if !cache_is_dir {
        return Err(OpsError::NoCache(String::from_str(repo), identity));
    }
    Ok(BranchRepoStep::Create(identity))
}

/// The report of a `sync` that failed for some spaces: one line per failure.
pub open spec fn spec_sync_failure_message(failures: Seq<Seq<char>>) -> Seq<char> {
    "sync failed for:"@ + failures.map_values(|f: Seq<char>| "\n  "@ + f).flatten()
}

pub fn sync_failure_message(failures: &Vec<String>) -> (r: String)
    ensures
        r@ == spec_sync_failure_message(failures@.map_values(|f: String| f@)),
{
    let mut r = String::from_str("sync failed for:");
    let ghost head = r@;
    let ghost lines = failures@.map_values(|f: String| f@).map_values(|f: Seq<char>| "\n  "@ + f);
    for i in 0..failures.len()
        invariant
            lines == failures@.map_values(|f: String| f@).map_values(|f: Seq<char>| "\n  "@ + f),
            r@ == head + lines.take(i as int).flatten(),
    {
        let ghost before = r@;
        push_str(&mut r, "\n  ");
        push_str(&mut r, failures[i].as_str());
        proof {
            assert(r@ =~= before + lines[i as int]);
            assert(lines.take(i + 1) =~= lines.take(i as int).push(lines[i as int]));
            lines.take(i as int).lemma_flatten_push(lines[i as int]);
        }
    }
    assert(lines.take(lines.len() as int) =~= lines);
    r
}

/// Where a view should point: trunk, or the tip of a branch.
#[derive(Debug, PartialEq, Eq)]
pub enum ViewTarget {
    Trunk,
    Branch(String),
}

/// What refreshing one member view does.
#[derive(Debug, PartialEq, Eq)]
pub enum RefreshAction {
    /// Nothing to refresh (no checkout on disk).
    Skip,
    /// Leave the view alone and report why.
    Warn(String),
    /// Re-detach the view at the target's tip.
    Retarget(ViewTarget),
}

pub open spec fn spec_refresh_action(
    space: Seq<char>,
    repo: Seq<char>,
    view: Option<Seq<char>>,
    is_dir: bool,
    linked: bool,
    in_set: bool,
) -> Result<Option<Option<Seq<char>>>, Seq<char>> {
    if !target_parser::spec_valid_component(repo) {
        Err(repo + ": invalid name in manifest, skipped"@)
    } else if !is_dir {
        Ok(None)
    } else if !linked {
        Err(repo + ": not a linked worktree, skipped"@)
    } else if view is Some && in_set {
        Ok(Some(Some(space::spec_space_branch(space, view->0))))
    } else {
        Ok(Some(None))
    }
}

pub open spec fn refresh_action_view(a: RefreshAction) -> Result<Option<Option<Seq<char>>>, Seq<char>> {
    match a {
        RefreshAction::Skip => Ok(None),
        RefreshAction::Warn(w) => Err(w@),
        RefreshAction::Retarget(ViewTarget::Trunk) => Ok(Some(None)),
        RefreshAction::Retarget(ViewTarget::Branch(b)) => Ok(Some(Some(b@))),
    }
}

/// A member view follows the active branch set only when the repo is in
/// that set: it is pointed at the set's `<space>/<set>` branch exactly when
/// a set is viewed, the repo is in it, and its checkout is a linked
/// worktree under a valid name; every other present, linked view goes to
/// trunk; a missing checkout is left alone; an invalid name or an unlinked
/// checkout is reported and left alone.
pub proof fn lemma_refresh_follows_set(
    space: Seq<char>,
    repo: Seq<char>,
    view: Option<Seq<char>>,
    is_dir: bool,
    linked: bool,
    in_set: bool,
)
    ensures
        ({
            let a = spec_refresh_action(space, repo, view, is_dir, linked, in_set);
            let valid = target_parser::spec_valid_component(repo);
            &&& (a matches Ok(Some(Some(b))) ==> view is Some && in_set && b == space + seq!['/']
                + view->0)
            &&& (valid && is_dir && linked && view is Some && in_set) ==> a == Ok::<
                Option<Option<Seq<char>>>,
                Seq<char>,
            >(Some(Some(space + seq!['/'] + view->0)))
            &&& (valid && is_dir && linked && !(view is Some && in_set)) ==> a == Ok::<
                Option<Option<Seq<char>>>,
                Seq<char>,
            >(Some(None))
            &&& (valid && !is_dir) ==> a == Ok::<Option<Option<Seq<char>>>, Seq<char>>(None)
            &&& a is Err <==> (!valid || (is_dir && !linked))
        }),
{
}

/// Decides what refreshing the canonical view of one member does: invalid
/// names and unlinked checkouts are reported, missing checkouts skipped, and
/// the rest point at the active set's branch when the repo is in the set,
/// else at trunk.
pub fn plan_refresh(
    space: &str,
    repo: &str,
    view: &Option<String>,
    is_dir: bool,
    linked: bool,
    in_set: bool,
) -> (r: RefreshAction)
    ensures
        refresh_action_view(r) == spec_refresh_action(
            space@,
            repo@,
            text::opt_view(*view),
            is_dir,
            linked,
            in_set,
        ),
{
    if !is_valid_component(repo) {
        let mut w = String::from_str(repo);
        push_str(&mut w, ": invalid name in manifest, skipped");
        return RefreshAction::Warn(w);
    }
    if !is_dir {
        return RefreshAction::Skip;
    }
    if !linked {
        let mut w = String::from_str(repo);
        push_str(&mut w, ": not a linked worktree, skipped");
        return RefreshAction::Warn(w);
    }
    match view {
        Some(set) => if in_set {
            let mut b = String::from_str(space);
            push_char(&mut b, '/');
            push_str(&mut b, set.as_str());
            assert(b@ =~= space::spec_space_branch(space@, set@));
            RefreshAction::Retarget(ViewTarget::Branch(b))
        } else {
            RefreshAction::Retarget(ViewTarget::Trunk)
        },
        None => RefreshAction::Retarget(ViewTarget::Trunk),
    }
}

/// Decides the view `view` switches to: `trunk`, or an existing branch set.
pub fn select_view(target: &str, set_exists: bool) -> (r: Result<Option<String>, OpsError>)
    ensures
        target@ == "trunk"@ ==> r == Ok::<Option<String>, OpsError>(None),
        target@ != "trunk"@ ==> match r {
            Ok(v) => target_parser::spec_valid_component(target@) && set_exists && v is Some
                && v->0@ == target@,
            Err(e) => if !target_parser::spec_valid_component(target@) {
                e@ == OpsErrorView::InvalidViewTarget(target@)
            } else {
                !set_exists && e@ == OpsErrorView::NoSuchViewSet(target@)
            },
        },
{
    if text::str_eq(target, "trunk") {
        return Ok(None);
    }
    if !is_valid_component(target) {
        return Err(OpsError::InvalidViewTarget(String::from_str(target)));
    }
    if !set_exists {
        return Err(OpsError::NoSuchViewSet(String::from_str(target)));
    }
    Ok(Some(String::from_str(target)))
}

/// What is known of one worktree of a branch set before tearing it down.
pub struct SetWorktree {
    pub path: String,
    /// It is a linked worktree whose bare repo still exists.
    pub linked: bool,
    /// It has uncommitted or untracked changes.
    pub dirty: bool,
    /// Its branch has commits neither merged into trunk nor pushed.
    pub needs_push: bool,
}

/// One step of tearing down a worktree (of a branch set, or a member view).
#[derive(Debug, PartialEq, Eq)]
pub enum TeardownStep {
    /// Deregister the linked worktree (discarding changes when `force`),
    /// then delete the set's branch when `delete_branch`.
    RemoveLinked { path: String, force: bool, delete_branch: bool },
    /// Delete a directory that is not a linked worktree.
    RemoveDir { path: String },
}

/// A teardown step, with its path as a character sequence.
pub enum StepView {
    Linked(Seq<char>, bool, bool),
    Dir(Seq<char>),
}

pub open spec fn step_view(s: TeardownStep) -> StepView {
    match s {
        TeardownStep::RemoveLinked { path, force, delete_branch } => StepView::Linked(
            path@,
            force,
            delete_branch,
        ),
        TeardownStep::RemoveDir { path } => StepView::Dir(path@),
    }
}

/// Decides how `remove` takes a member's checkout at `path` away. A
/// checkout that no longer exists (deleted by hand) needs no step: the
/// member is simply dropped, so `remove` doubles as reconciliation. A
/// linked worktree is deregistered, but with changes only under `force`; a
/// directory that is not a linked worktree (its cache is gone, so nothing
/// can tell whether it holds changes) is deleted only under `force`.
pub fn plan_remove(path: &str, exists: bool, linked: bool, dirty: bool, force: bool) -> (r: Result<
    Option<TeardownStep>,
    OpsError,
>)
    ensures
        !exists ==> r is Ok && r->Ok_0 is None,
        exists && !linked && !force ==> (r matches Err(e) && e@ == OpsErrorView::NotLinked(path@)),
        exists && !linked && force ==> (r matches Ok(Some(s)) && step_view(s) == StepView::Dir(
            path@,
        )),
        exists && linked && dirty && !force ==> (r matches Err(e) && e@ == OpsErrorView::Dirty(
            path@,
        )),
        exists && linked && (force || !dirty) ==> (r matches Ok(Some(s)) && step_view(s)
            == StepView::Linked(path@, force, false)),
{
    if !exists {
        return Ok(None);
    }
    if !linked {
        if force {
            return Ok(Some(TeardownStep::RemoveDir { path: String::from_str(path) }));
        }
        return Err(OpsError::NotLinked(String::from_str(path)));
    }
    if dirty && !force {
        return Err(OpsError::Dirty(String::from_str(path)));
    }
    Ok(Some(TeardownStep::RemoveLinked { path: String::from_str(path), force, delete_branch: false }))
}

/// How a space deletion takes one worktree away: forced, keeping branches.
pub open spec fn spec_forced_step(path: Seq<char>, linked: bool) -> StepView {
    if linked {
        StepView::Linked(path, true, false)
    } else {
        StepView::Dir(path)
    }
}

/// The steps for the member views of `names` (in order) that are present.
pub open spec fn spec_view_steps(
    root: Seq<char>,
    names: Seq<Seq<char>>,
    present: Seq<bool>,
    linked: Seq<bool>,
) -> Seq<StepView>
    decreases names.len(),
{
    if names.len() == 0 || present.len() < names.len() || linked.len() < names.len() {
        Seq::empty()
    } else {
        let n = names.len() - 1;
        let rest = spec_view_steps(root, names.drop_last(), present.take(n), linked.take(n));
        if present[n] {
            rest.push(spec_forced_step(paths::spec_join(root, names[n]), linked[n]))
        } else {
            rest
        }
    }
}

/// The steps for the worktrees of every branch set.
pub open spec fn spec_set_steps(sets: Seq<SetWorktree>) -> Seq<StepView> {
    sets.map_values(|w: SetWorktree| spec_forced_step(w.path@, w.linked))
}

/// Decides how a space is torn down before its directory is deleted: every
/// member view that is present (`present[i]`, `linked[i]` for the `i`-th
/// member in name order) and then every branch-set worktree is taken away,
/// forced and keeping the branches, so that no cache keeps a registration
/// of a worktree that is gone. Member names come from the hand-editable
/// manifest: the views before the first name that is not a valid component
/// are still taken away, and that name is then reported.
pub fn plan_delete(
    manifest: &WorkspaceManifest,
    workspace_root: &str,
    present: &Vec<bool>,
    linked: &Vec<bool>,
    set_worktrees: &Vec<SetWorktree>,
) -> (r: (Vec<TeardownStep>, Option<OpsError>))
    requires
        present.len() == manifest.repositories.pairs().len(),
        linked.len() == manifest.repositories.pairs().len(),
    ensures
        ({
            let names = manifest.repositories.pairs().map_values(
                |p: (Seq<char>, Seq<char>)| p.0,
            );
            let steps = r.0@.map_values(|s: TeardownStep| step_view(s));
            match r.1 {
                Some(e) => exists|k: int|
                    0 <= k < names.len() && !target_parser::spec_valid_component(names[k])
                        && (forall|j: int|
                        0 <= j < k ==> target_parser::spec_valid_component(#[trigger] names[j]))
                        && e@ == OpsErrorView::InvalidManifestName(names[k]) && steps
                        == spec_view_steps(
                        workspace_root@,
                        names.take(k),
                        present@.take(k),
                        linked@.take(k),
                    ),
                None => (forall|j: int|
                    0 <= j < names.len() ==> target_parser::spec_valid_component(#[trigger] names[j]))
                    && steps == spec_view_steps(workspace_root@, names, present@, linked@)
                    + spec_set_steps(set_worktrees@),
            }
        }),
{
    let keys = manifest.repositories.keys();
    let ghost names = manifest.repositories.pairs().map_values(|p: (Seq<char>, Seq<char>)| p.0);
    assert(keys@.map_values(|k: String| k@) =~= names);
    let mut steps: Vec<TeardownStep> = Vec::new();
    for i in 0..keys.len()
        invariant
            keys.len() == names.len(),
            present.len() == names.len(),
            linked.len() == names.len(),
            names == manifest.repositories.pairs().map_values(|p: (Seq<char>, Seq<char>)| p.0),
            forall|j: int| 0 <= j < keys.len() ==> #[trigger] keys@[j]@ == names[j],
            forall|j: int| 0 <= j < i ==> target_parser::spec_valid_component(#[trigger] names[j]),
            steps@.map_values(|s: TeardownStep| step_view(s)) == spec_view_steps(
                workspace_root@,
                names.take(i as int),
                present@.take(i as int),
                linked@.take(i as int),
            ),
    {
        let ghost before = steps@.map_values(|s: TeardownStep| step_view(s));
        proof {
            assert(names.take(i + 1).drop_last() =~= names.take(i as int));
            assert(present@.take(i + 1).take(i as int) =~= present@.take(i as int));
            assert(linked@.take(i + 1).take(i as int) =~= linked@.take(i as int));
        }
        if !is_valid_component(keys[i].as_str()) {
            assert(keys@[i as int]@ == names[i as int]);
            return (steps, Some(OpsError::InvalidManifestName(keys[i].clone())));
        }
        if present[i] {
            let path = join_path(workspace_root, keys[i].as_str());
            if linked[i] {
                steps.push(TeardownStep::RemoveLinked { path, force: true, delete_branch: false });
            } else {
                steps.push(TeardownStep::RemoveDir { path });
            }
            assert(steps@.map_values(|s: TeardownStep| step_view(s)) =~= before.push(
                spec_forced_step(paths::spec_join(workspace_root@, names[i as int]), linked@[i as int]),
            ));
        } else {
            assert(steps@.map_values(|s: TeardownStep| step_view(s)) =~= before);
        }
    }
    proof {
        assert(names.take(names.len() as int) =~= names);
        assert(present@.take(names.len() as int) =~= present@);
        assert(linked@.take(names.len() as int) =~= linked@);
    }
    let ghost views = steps@.map_values(|s: TeardownStep| step_view(s));
    let n = steps.len();
    for i in 0..set_worktrees.len()
        invariant
            n <= steps.len(),
            steps.len() == n + i,
            views.len() == n,
            forall|j: int| 0 <= j < n ==> step_view(#[trigger] steps@[j]) == views[j],
            forall|j: int|
                0 <= j < i ==> step_view(#[trigger] steps@[n + j]) == spec_forced_step(
                    set_worktrees@[j].path@,
                    set_worktrees@[j].linked,
                ),
    {
        let w = &set_worktrees[i];
        if w.linked {
            steps.push(TeardownStep::RemoveLinked { path: w.path.clone(), force: true, delete_branch: false });
        } else {
            steps.push(TeardownStep::RemoveDir { path: w.path.clone() });
        }
    }
    proof {
        let all = steps@.map_values(|s: TeardownStep| step_view(s));
        let want = views + spec_set_steps(set_worktrees@);
        assert(all.len() == want.len());
        assert forall|k: int| 0 <= k < all.len() implies all[k] == want[k] by {
            if k >= n {
                assert(step_view(steps@[n + (k - n)]) == spec_forced_step(
                    set_worktrees@[k - n].path@,
                    set_worktrees@[k - n].linked,
                ));
            } else {
                assert(step_view(steps@[k]) == views[k]);
            }
        }
        assert(all =~= want);
    }
    (steps, None)
}

/// Why an unforced teardown must not touch a worktree, if it must not.
pub open spec fn spec_refusal(w: SetWorktree, branch: Seq<char>) -> Option<OpsErrorView> {
    if !w.linked {
        Some(OpsErrorView::NotLinked(w.path@))
    } else if w.needs_push {
        Some(OpsErrorView::NotDisposable(branch))
    } else if w.dirty {
        Some(OpsErrorView::Dirty(w.path@))
    } else {
        None
    }
}

pub open spec fn spec_step_matches(s: TeardownStep, w: SetWorktree, force: bool, keep_branch: bool) -> bool {
    if w.linked {
        s == TeardownStep::RemoveLinked { path: w.path, force, delete_branch: !keep_branch }
    } else {
        s == TeardownStep::RemoveDir { path: w.path }
    }
}

/// An unforced teardown refuses a worktree exactly when it is not a linked
/// worktree, has local changes, or its branch holds unpushed work.
pub proof fn lemma_refusal_conditions(w: SetWorktree, branch: Seq<char>)
    ensures
        spec_refusal(w, branch) is None <==> (w.linked && !w.dirty && !w.needs_push),
{
}

/// What tearing down one worktree of a branch set does: a linked worktree
/// is deregistered at its own path, forced exactly when the teardown is,
/// and its branch is deleted exactly when `--keep-branch` was not given,
/// whether or not the teardown is forced; any other directory is deleted.
pub proof fn lemma_teardown_step(s: TeardownStep, w: SetWorktree, force: bool, keep_branch: bool)
    requires
        spec_step_matches(s, w, force, keep_branch),
    ensures
        w.linked ==> (s matches TeardownStep::RemoveLinked { path, force: f, delete_branch: d }
            && path == w.path && f == force && d == !keep_branch),
        !w.linked ==> (s matches TeardownStep::RemoveDir { path } && path == w.path),
        s matches TeardownStep::RemoveLinked { delete_branch: d, .. } ==> d == !keep_branch,
{
}

/// Decides how a branch set is torn down. Unforced, every worktree is
/// checked before any is touched: one that is not a linked worktree, whose
/// branch holds unpushed work, or that is dirty refuses the whole teardown
/// (the first such worktree is reported). Otherwise each worktree is removed
/// in order, with its branch unless `keep_branch`.
pub fn plan_branch_delete(
    branch: &str,
    worktrees: &Vec<SetWorktree>,
    force: bool,
    keep_branch: bool,
) -> (r: Result<Vec<TeardownStep>, OpsError>)
    ensures
        match r {
            Ok(steps) => {
                &&& !force ==> forall|i: int|
                    0 <= i < worktrees.len() ==> spec_refusal(#[trigger] worktrees@[i], branch@) is None
                &&& steps.len() == worktrees.len()
                &&& forall|i: int|
                    0 <= i < steps.len() ==> (#[trigger] steps@[i] matches TeardownStep::RemoveLinked {
                        delete_branch: d,
                        ..
                    } ==> d == !keep_branch)
                &&& forall|i: int|
                    0 <= i < steps.len() ==> spec_step_matches(
                        #[trigger] steps@[i],
                        worktrees@[i],
                        force,
                        keep_branch,
                    )
            },
            Err(e) => !force && exists|i: int|
                0 <= i < worktrees.len() && spec_refusal(worktrees@[i], branch@) == Some(e@)
                    && forall|j: int|
                    0 <= j < i ==> spec_refusal(#[trigger] worktrees@[j], branch@) is None,
        },
{
    if !force {
        for i in 0..worktrees.len()
            invariant
                !force,
                forall|j: int|
                    0 <= j < i ==> spec_refusal(#[trigger] worktrees@[j], branch@) is None,
        {
            let w = &worktrees[i];
            if !w.linked {
                return Err(OpsError::NotLinked(w.path.clone()));
            }
            if w.needs_push {
                return Err(OpsError::NotDisposable(String::from_str(branch)));
            }
            if w.dirty {
                return Err(OpsError::Dirty(w.path.clone()));
            }
        }
    }
    let mut steps: Vec<TeardownStep> = Vec::new();
    for i in 0..worktrees.len()
        invariant
            steps.len() == i,
            forall|j: int|
                0 <= j < i ==> spec_step_matches(#[trigger] steps@[j], worktrees@[j], force, keep_branch),
    {
        let w = &worktrees[i];
        if w.linked {
            steps.push(
                TeardownStep::RemoveLinked {
                    path: w.path.clone(),
                    force,
                    delete_branch: !keep_branch,
                },
            );
        } else {
            steps.push(TeardownStep::RemoveDir { path: w.path.clone() });
        }
    }
    Ok(steps)
}

/// The host of a `host/org/repo` identity: everything before the first
/// `/` (the whole string when there is none).
pub open spec fn spec_identity_host(identity: Seq<char>) -> Seq<char> {
    match text::spec_split_once(identity, '/') {
        Some((h, _)) => h,
        None => identity,
    }
}

/// The host part of an identity, used to look up its SSH settings.
pub fn identity_host(identity: &str) -> (r: String)
    ensures
        r@ == spec_identity_host(identity@),
{
    let v = text::chars_of(identity);
    match text::split_once(&v, '/') {
        Some((h, _)) => text::string_from(&h),
        None => String::from_str(identity),
    }
}

/// Decides whether the current directory may become a space and under
/// which name: not when it already is one, and only when its name is usable
/// as a branch namespace. Returns the space name.
pub fn plan_init(already_space: bool, cwd: &str) -> (r: Result<String, OpsError>)
    ensures
        match r {
            Ok(name) => !already_space && name@ == spec_dir_name(cwd@)
                && target_parser::spec_valid_component(name@),
            Err(e) => if already_space {
                e@ == OpsErrorView::AlreadySpace
            } else {
                !target_parser::spec_valid_component(spec_dir_name(cwd@)) && e@
                    == OpsErrorView::UnusableSpaceName(spec_dir_name(cwd@))
            },
        },
{
    if already_space {
        return Err(OpsError::AlreadySpace);
    }
    let name = paths::file_name_or_empty(cwd);
    match space::check_space_name(name.as_str()) {
        Ok(()) => Ok(name),
        Err(e) => Err(e),
    }
}

/// The name a directory gives a space: its last component, or empty.
pub open spec fn spec_dir_name(dir: Seq<char>) -> Seq<char> {
    match paths::spec_file_name(dir) {
        Some(n) => n,
        None => Seq::<char>::empty(),
    }
}

/// Decides whether `create` may provision a space named `name` under the
/// current directory: the name must be a relative path that stays below the
/// current directory, usable as a branch namespace, and not exist yet.
pub fn plan_create(name: &str, exists: bool) -> (r: Result<(), OpsError>)
    ensures
        match r {
            Ok(()) => space::spec_is_subpath(name@) && target_parser::spec_valid_component(name@)
                && !exists,
            Err(e) => if !space::spec_is_subpath(name@) {
                e@ == OpsErrorView::NotRelativeSubpath
            } else if !target_parser::spec_valid_component(name@) {
                e@ == OpsErrorView::UnusableSpaceName(name@)
            } else {
                exists && e@ == OpsErrorView::DirectoryExists(name@)
            },
        },
{
    match space::validate_workspace_subpath(name) {
        Ok(()) => {},
        Err(e) => return Err(e),
    }
    match space::check_space_name(name) {
        Ok(()) => {},
        Err(e) => return Err(e),
    }
    if exists {
        return Err(OpsError::DirectoryExists(String::from_str(name)));
    }
    Ok(())
}

/// A named space must resolve to a directory at or below the current
/// directory (both canonical).
pub fn check_within(workspace_root: &str, cwd: &str) -> (r: Result<(), OpsError>)
    ensures
        r is Ok <==> paths::spec_path_within(workspace_root@, cwd@),
        r matches Err(e) ==> e@ == OpsErrorView::OutsideCurrentDirectory,
{
    if paths::path_within(workspace_root, cwd) {
        Ok(())
    } else {
        Err(OpsError::OutsideCurrentDirectory)
    }
}

/// Picks where to move before deleting a space that contains the current
/// directory: the first candidate (home, the space's parent, the temp dir)
/// that lies outside the space.
pub fn pick_fallback_dir(candidates: &Vec<String>, workspace_root: &str) -> (r: Result<
    String,
    OpsError,
>)
    ensures
        match r {
            Ok(d) => exists|i: int|
                0 <= i < candidates.len() && candidates@[i]@ == d@ && !paths::spec_path_within(
                    d@,
                    workspace_root@,
                ) && forall|j: int|
                    0 <= j < i ==> paths::spec_path_within(
                        #[trigger] candidates@[j]@,
                        workspace_root@,
                    ),
            Err(e) => e@ == OpsErrorView::NoSafeDirectory && forall|j: int|
                0 <= j < candidates.len() ==> paths::spec_path_within(
                    #[trigger] candidates@[j]@,
                    workspace_root@,
                ),
        },
{
    for i in 0..candidates.len()
        invariant
            forall|j: int|
                0 <= j < i ==> paths::spec_path_within(#[trigger] candidates@[j]@, workspace_root@),
    {
        if !paths::path_within(candidates[i].as_str(), workspace_root) {
            return Ok(candidates[i].clone());
        }
    }
    Err(OpsError::NoSafeDirectory)
}

} // verus!
