//! The rules of space operations: where a space keeps its machinery, which
//! names and identities are usable, and what each command decides before
//! and between its git and filesystem work.
pub mod error;
pub mod gitignore;
pub mod plan;

use vstd::prelude::*;
use crate::engine::target_parser::{self, is_valid_component};
use crate::models::manifest::WorkspaceManifest;
use crate::ops::error::OpsError;
use crate::text::{self, chars_of, push_char, push_str, split_once};
use crate::utils::paths::{self, join_path};

verus! {

/// Ambient state for command execution, passed explicitly so commands can be
/// exercised against temp directories instead of the real cwd, config, and
/// cache locations.
pub struct Context {
    pub cwd: String,
    pub config_path: String,
    pub cache_dir: String,
    pub registry_path: String,
}

/// `<space>/.myspace/config.toml`: the manifest.
pub open spec fn spec_space_config_path(root: Seq<char>) -> Seq<char> {
    paths::spec_join(paths::spec_join(root, ".myspace"@), "config.toml"@)
}

/// `<space>/.myspace/state.toml`: the local view state.
pub open spec fn spec_space_state_path(root: Seq<char>) -> Seq<char> {
    paths::spec_join(paths::spec_join(root, ".myspace"@), "state.toml"@)
}

/// `<space>/.myspace/trees`: the branch-set worktrees.
pub open spec fn spec_space_trees_dir(root: Seq<char>) -> Seq<char> {
    paths::spec_join(paths::spec_join(root, ".myspace"@), "trees"@)
}

/// Where the manifest of the space rooted at `space_root` lives.
pub fn space_config_path(space_root: &str) -> (r: String)
    ensures
        r@ == spec_space_config_path(space_root@),
{
    let d = join_path(space_root, ".myspace");
    join_path(d.as_str(), "config.toml")
}

/// Where the local state of the space rooted at `space_root` lives.
pub fn space_state_path(space_root: &str) -> (r: String)
    ensures
        r@ == spec_space_state_path(space_root@),
{
    let d = join_path(space_root, ".myspace");
    join_path(d.as_str(), "state.toml")
}

/// Where the branch sets of the space rooted at `space_root` live.
pub fn space_trees_dir(space_root: &str) -> (r: String)
    ensures
        r@ == spec_space_trees_dir(space_root@),
{
    let d = join_path(space_root, ".myspace");
    join_path(d.as_str(), "trees")
}

/// A clean `host/org/repo` identity: three valid components.
pub open spec fn spec_valid_identity(s: Seq<char>) -> bool {
    exists|h: Seq<char>, o: Seq<char>, r: Seq<char>|
        #![trigger target_parser::spec_identity(h, o, r)]
        target_parser::spec_valid_component(h) && target_parser::spec_valid_component(o)
            && target_parser::spec_valid_component(r) && s == target_parser::spec_identity(h, o, r)
}

/// Manifest identities are hand-editable; refuse anything that isn't a clean
/// `host/org/repo` before joining it into a filesystem path.
pub fn validate_identity(identity: &str) -> (r: Result<(), OpsError>)
    ensures
        r is Ok <==> spec_valid_identity(identity@),
        r matches Err(e) ==> e@ == crate::ops::error::OpsErrorView::InvalidIdentity(identity@),
{
    let v = chars_of(identity);
    let ok = match split_once(&v, '/') {
        Some((h, rest)) => match split_once(&rest, '/') {
            Some((o, r)) => {
                let good = is_component(&h) && is_component(&o) && is_component(&r);
                proof {
                    text::lemma_split_parts(v@, '/');
                    text::lemma_split_parts(rest@, '/');
                    if good {
                        assert(v@ =~= target_parser::spec_identity(h@, o@, r@));
                    } else {
                        lemma_identity_split(v@);
                    }
                }
                good
            },
            None => {
                proof {
                    text::lemma_split_parts(v@, '/');
                    text::lemma_split_parts(rest@, '/');
                    lemma_identity_split(v@);
                }
                false
            },
        },
        None => {
            proof {
                text::lemma_split_parts(v@, '/');
                lemma_identity_split(v@);
            }
            false
        },
    };
    if ok {
        Ok(())
    } else {
        Err(OpsError::InvalidIdentity(text::string_from(&v)))
    }
}

fn is_component(v: &Vec<char>) -> (r: bool)
    ensures
        r == target_parser::spec_valid_component(v@),
{
    let s = text::string_from(v);
    is_valid_component(s.as_str())
}

/// A valid identity splits at its two slashes into its three components.
proof fn lemma_identity_split(s: Seq<char>)
    ensures
        spec_valid_identity(s) ==> ({
            &&& text::spec_split_once(s, '/') matches Some((h, rest))
            &&& text::spec_split_once(rest, '/') matches Some((o, r))
            &&& target_parser::spec_valid_component(h)
            &&& target_parser::spec_valid_component(o)
            &&& target_parser::spec_valid_component(r)
        }),
{
    if spec_valid_identity(s) {
        let (h, o, r) = choose|h: Seq<char>, o: Seq<char>, r: Seq<char>|
            #![trigger target_parser::spec_identity(h, o, r)]
            target_parser::spec_valid_component(h) && target_parser::spec_valid_component(o)
                && target_parser::spec_valid_component(r) && s == target_parser::spec_identity(
                h,
                o,
                r,
            );
        target_parser::lemma_component_free(h);
        target_parser::lemma_component_free(o);
        let rest = o + seq!['/'] + r;
        assert(s =~= h + seq!['/'] + rest);
        text::lemma_split_concat(h, '/', rest);
        text::lemma_split_concat(o, '/', r);
    }
}

/// The identity recorded for a resolved repo is always accepted when the
/// manifest is read back: what `add` writes, `branch` and `sync` can use.
pub proof fn lemma_identity_roundtrip(host: Seq<char>, org: Seq<char>, repo: Seq<char>)
    requires
        target_parser::spec_valid_component(host),
        target_parser::spec_valid_component(org),
        target_parser::spec_valid_component(repo),
    ensures
        spec_valid_identity(target_parser::spec_identity(host, org, repo)),
{
    assert(target_parser::spec_valid_component(host) && target_parser::spec_valid_component(org)
        && target_parser::spec_valid_component(repo) && target_parser::spec_identity(host, org, repo)
        == target_parser::spec_identity(host, org, repo));
}

/// `<space>/<name>`: a branch-set branch, namespaced by the space.
pub open spec fn spec_space_branch(space: Seq<char>, name: Seq<char>) -> Seq<char> {
    space + seq!['/'] + name
}

/// The space's branch namespace prefix, from the manifest's space name.
pub fn space_branch(manifest: &WorkspaceManifest, name: &str) -> (r: Result<String, OpsError>)
    ensures
        match r {
            Ok(b) => target_parser::spec_valid_component(manifest.workspace.name@) && b@
                == spec_space_branch(manifest.workspace.name@, name@),
            Err(e) => !target_parser::spec_valid_component(manifest.workspace.name@) && e@
                == crate::ops::error::OpsErrorView::UnusableSpaceName(manifest.workspace.name@),
        },
{
    let space = &manifest.workspace.name;
    if !is_valid_component(space.as_str()) {
        return Err(OpsError::UnusableSpaceName(space.clone()));
    }
    let mut b = space.clone();
    push_char(&mut b, '/');
    push_str(&mut b, name);
    Ok(b)
}

/// A space name doubles as its branch namespace, so it must be one valid
/// component.
pub fn check_space_name(name: &str) -> (r: Result<(), OpsError>)
    ensures
        r is Ok <==> target_parser::spec_valid_component(name@),
        r matches Err(e) ==> e@ == crate::ops::error::OpsErrorView::UnusableSpaceName(name@),
{
    if is_valid_component(name) {
        Ok(())
    } else {
        Err(OpsError::UnusableSpaceName(String::from_str(name)))
    }
}

/// `s` is an absolute path.
pub open spec fn spec_is_absolute(s: Seq<char>) -> bool {
    s.len() > 0 && s[0] == '/'
}

/// A `..` component starts at position `i` of `s`.
pub open spec fn spec_parent_component_at(s: Seq<char>, i: int) -> bool {
    &&& 0 <= i
    &&& i + 2 <= s.len()
    &&& s[i] == '.'
    &&& s[i + 1] == '.'
    &&& (i == 0 || s[i - 1] == '/')
    &&& (i + 2 == s.len() || s[i + 2] == '/')
}

/// A path that stays under the directory it is joined to: relative, and
/// without a `..` component.
pub open spec fn spec_is_subpath(s: Seq<char>) -> bool {
    !spec_is_absolute(s) && !(exists|i: int| spec_parent_component_at(s, i))
}

/// Refuses names that are absolute or climb out with `..`.
pub fn validate_workspace_subpath(name: &str) -> (r: Result<(), OpsError>)
    ensures
        r is Ok <==> spec_is_subpath(name@),
        r matches Err(e) ==> e == OpsError::NotRelativeSubpath,
{
    let v = chars_of(name);
    let n = v.len();
    if n > 0 && v[0] == '/' {
        return Err(OpsError::NotRelativeSubpath);
    }
    let mut i: usize = 0;
    while i < n
        invariant
            i <= n,
            n == v@.len(),
            v@ == name@,
            forall|j: int| 0 <= j < i ==> !spec_parent_component_at(v@, j),
        decreases n - i,
    {
        if i + 1 < n && v[i] == '.' && v[i + 1] == '.' && (i == 0 || v[i - 1] == '/') && (i + 2 == n || v[i
            + 2] == '/') {
            assert(spec_parent_component_at(v@, i as int));
            return Err(OpsError::NotRelativeSubpath);
        }
        i = i + 1;
    }
    assert(!(exists|j: int| spec_parent_component_at(v@, j))) by {
        if exists|j: int| spec_parent_component_at(v@, j) {
            let j = choose|j: int| spec_parent_component_at(v@, j);
            assert(j < i);
        }
    }
    Ok(())
}

/// Snapshot of one space, derived entirely from git metadata + the manifest
/// at call time — nothing here is stored state that could drift.
pub struct SpaceStatus {
    pub name: String,
    pub root: String,
    /// "trunk" or the active branch set name.
    pub view: String,
    pub repos: Vec<RepoStatus>,
    pub branch_sets: Vec<BranchSetStatus>,
}

pub struct RepoStatus {
    pub name: String,
    pub identity: String,
    pub path: String,
    pub present: bool,
    /// Whether the checkout has local changes; `None` when there is no
    /// checkout or git could not tell.
    pub dirty: Option<bool>,
}

pub struct BranchSetStatus {
    pub name: String,
    /// The namespaced git branch, `<space>/<name>`.
    pub branch: String,
    pub repos: Vec<BranchRepoStatus>,
}

pub struct BranchRepoStatus {
    pub name: String,
    pub path: String,
    /// Whether the worktree has local changes; `None` when git could not
    /// tell.
    pub dirty: Option<bool>,
    /// Commits neither merged into trunk nor pushed to origin; `None` when
    /// git could not tell.
    pub needs_push: Option<bool>,
}

/// The member statuses of a space, one per manifest entry in name order,
/// given for each whether its checkout is present and whether it is dirty.
pub fn repo_statuses(
    manifest: &WorkspaceManifest,
    space_root: &str,
    present: &Vec<bool>,
    dirty: &Vec<Option<bool>>,
) -> (r: Vec<RepoStatus>)
    requires
        present.len() == manifest.repositories.pairs().len(),
        dirty.len() == manifest.repositories.pairs().len(),
    ensures
        r.len() == manifest.repositories.pairs().len(),
        forall|i: int|
            0 <= i < r.len() ==> {
                &&& (#[trigger] r@[i]).name@ == manifest.repositories.pairs()[i].0
                &&& r@[i].identity@ == manifest.repositories.pairs()[i].1
                &&& r@[i].path@ == paths::spec_join(space_root@, manifest.repositories.pairs()[i].0)
                &&& r@[i].present == present@[i]
                &&& r@[i].dirty == (if present@[i] {
                    dirty@[i]
                } else {
                    None
                })
            },
{
    let entries = manifest.repositories.entries();
    let ghost p = manifest.repositories.pairs();
    assert(entries@.map_values(|e: (String, String)| crate::models::manifest::entry_view(e)).len()
        == p.len());
    let mut r: Vec<RepoStatus> = Vec::new();
    for i in 0..entries.len()
        invariant
            entries@.map_values(|e: (String, String)| crate::models::manifest::entry_view(e)) == p,
            entries.len() == p.len(),
            present.len() == p.len(),
            dirty.len() == p.len(),
            r.len() == i,
            forall|j: int|
                0 <= j < i ==> {
                    &&& (#[trigger] r@[j]).name@ == p[j].0
                    &&& r@[j].identity@ == p[j].1
                    &&& r@[j].path@ == paths::spec_join(space_root@, p[j].0)
                    &&& r@[j].present == present@[j]
                    &&& r@[j].dirty == (if present@[j] {
                        dirty@[j]
                    } else {
                        None
                    })
                },
    {
        let (name, identity) = &entries[i];
        assert(crate::models::manifest::entry_view(entries@[i as int]) == p[i as int]);
        let path = join_path(space_root, name.as_str());
        let d = if present[i] {
            dirty[i]
        } else {
            None
        };
        r.push(
            RepoStatus {
                name: name.clone(),
                identity: identity.clone(),
                path,
                present: present[i],
                dirty: d,
            },
        );
    }
    r
}

impl BranchSetStatus {
    /// The status of the branch set `name` of space `space`: its branch is
    /// `<space>/<name>`.
    pub fn new(space: &str, name: String, repos: Vec<BranchRepoStatus>) -> (r: Self)
        ensures
            r.name == name,
            r.branch@ == spec_space_branch(space@, name@),
            r.repos == repos,
    {
        let mut branch = String::from_str(space);
        push_char(&mut branch, '/');
        push_str(&mut branch, name.as_str());
        assert(branch@ =~= spec_space_branch(space@, name@));
        BranchSetStatus { name, branch, repos }
    }
}

/// How a member is flagged in the status listing.
pub open spec fn spec_repo_flag(present: bool, dirty: Option<bool>) -> Seq<char> {
    if !present {
        "missing"@
    } else if dirty == Some(true) {
        "dirty"@
    } else {
        "clean"@
    }
}

/// How a branch-set worktree is flagged in the status listing.
pub open spec fn spec_set_repo_flags(dirty: Option<bool>, needs_push: Option<bool>) -> Seq<char> {
    if dirty == Some(true) && needs_push == Some(true) {
        "dirty, needs push"@
    } else if dirty == Some(true) {
        "dirty"@
    } else if needs_push == Some(true) {
        "needs push"@
    } else {
        "clean"@
    }
}

pub open spec fn spec_repo_line(r: RepoStatus) -> Seq<char> {
    "  "@ + r.name@ + "  "@ + r.identity@ + "  "@ + spec_repo_flag(r.present, r.dirty) + "\n"@
}

pub open spec fn spec_set_repo_line(r: BranchRepoStatus) -> Seq<char> {
    "    "@ + r.name@ + "  "@ + r.path@ + "  ["@ + spec_set_repo_flags(r.dirty, r.needs_push)
        + "]\n"@
}

pub open spec fn spec_set_text(b: BranchSetStatus) -> Seq<char> {
    "  branch "@ + b.name@ + " ("@ + b.branch@ + ")\n"@ + b.repos@.map_values(
        |r: BranchRepoStatus| spec_set_repo_line(r),
    ).flatten()
}

pub open spec fn spec_space_text(s: SpaceStatus) -> Seq<char> {
    "space "@ + s.name@ + " ("@ + s.root@ + ") \u{2014} viewing "@ + s.view@ + "\n"@
        + s.repos@.map_values(|r: RepoStatus| spec_repo_line(r)).flatten() + s.branch_sets@.map_values(
        |b: BranchSetStatus| spec_set_text(b),
    ).flatten()
}

/// A branch-set worktree's flags name each condition that holds: they
/// mention `needs push` exactly when the branch holds unpushed work, and
/// `dirty` exactly when the worktree has local changes, and they read
/// `clean` exactly when neither is known to hold.
pub proof fn lemma_set_flags_name_conditions(dirty: Option<bool>, needs_push: Option<bool>)
    ensures
        crate::ops::gitignore::spec_holds_text(spec_set_repo_flags(dirty, needs_push), "needs push"@)
            <==> needs_push == Some(true),
        crate::ops::gitignore::spec_holds_text(spec_set_repo_flags(dirty, needs_push), "dirty"@)
            <==> dirty == Some(true),
        (spec_set_repo_flags(dirty, needs_push) == "clean"@) <==> (dirty != Some(true)
            && needs_push != Some(true)),
{
    reveal_strlit("dirty, needs push");
    reveal_strlit("dirty");
    reveal_strlit("needs push");
    reveal_strlit("clean");
    let f = spec_set_repo_flags(dirty, needs_push);
    let np = "needs push"@;
    let d = "dirty"@;
    if dirty == Some(true) && needs_push == Some(true) {
        assert(crate::ops::gitignore::is_match_at(f, np, 7)) by {
            assert(f.subrange(7, 17) =~= np);
        }
        assert(crate::ops::gitignore::is_match_at(f, d, 0)) by {
            assert(f.subrange(0, 5) =~= d);
        }
    } else if dirty == Some(true) {
        assert(crate::ops::gitignore::is_match_at(f, d, 0)) by {
            assert(f.subrange(0, 5) =~= d);
        }
        assert(!crate::ops::gitignore::spec_holds_text(f, np));
    } else if needs_push == Some(true) {
        assert(crate::ops::gitignore::is_match_at(f, np, 0)) by {
            assert(f.subrange(0, 10) =~= np);
        }
        assert forall|j: int| !crate::ops::gitignore::is_match_at(f, d, j) by {
            if crate::ops::gitignore::is_match_at(f, d, j) {
                assert(f.subrange(j, j + 5)[0] == f[j]);
                assert(f.subrange(j, j + 5)[1] == f[j + 1]);
            }
        }
        assert(f != "clean"@);
    } else {
        assert(!crate::ops::gitignore::spec_holds_text(f, np));
        assert forall|j: int| !crate::ops::gitignore::is_match_at(f, d, j) by {
            if crate::ops::gitignore::is_match_at(f, d, j) {
                assert(f.subrange(j, j + 5)[0] == f[j]);
            }
        }
    }
    if f == "clean"@ {
        if dirty == Some(true) || needs_push == Some(true) {
            assert(f.len() != 5 || f[0] != 'c');
        }
    }
}

/// A member's flag says what holds of its checkout: `missing` exactly when
/// there is none, `dirty` exactly when it is present with local changes,
/// and `clean` otherwise.
pub proof fn lemma_repo_flag_names_condition(present: bool, dirty: Option<bool>)
    ensures
        (spec_repo_flag(present, dirty) == "missing"@) <==> !present,
        (spec_repo_flag(present, dirty) == "dirty"@) <==> (present && dirty == Some(true)),
        (spec_repo_flag(present, dirty) == "clean"@) <==> (present && dirty != Some(true)),
{
    reveal_strlit("missing");
    reveal_strlit("dirty");
    reveal_strlit("clean");
    assert("missing"@.len() == 7 && "dirty"@.len() == 5 && "clean"@.len() == 5);
    assert("dirty"@[0] != "clean"@[0]);
}

/// The human-readable status listing of the given spaces.
pub open spec fn spec_status_text(statuses: Seq<SpaceStatus>) -> Seq<char> {
    statuses.map_values(|s: SpaceStatus| spec_space_text(s)).flatten()
}

fn push_repo_line(out: &mut String, r: &RepoStatus)
    ensures
        final(out)@ == old(out)@ + spec_repo_line(*r),
{
    let ghost start = out@;
    push_str(out, "  ");
    push_str(out, r.name.as_str());
    push_str(out, "  ");
    push_str(out, r.identity.as_str());
    push_str(out, "  ");
    if !r.present {
        push_str(out, "missing");
    } else if r.dirty == Some(true) {
        push_str(out, "dirty");
    } else {
        push_str(out, "clean");
    }
    push_str(out, "\n");
    assert(out@ =~= start + spec_repo_line(*r));
}

fn push_set_repo_line(out: &mut String, r: &BranchRepoStatus)
    ensures
        final(out)@ == old(out)@ + spec_set_repo_line(*r),
{
    let ghost start = out@;
    push_str(out, "    ");
    push_str(out, r.name.as_str());
    push_str(out, "  ");
    push_str(out, r.path.as_str());
    push_str(out, "  [");
    let dirty = r.dirty == Some(true);
    let push = r.needs_push == Some(true);
    if dirty && push {
        push_str(out, "dirty, needs push");
    } else if dirty {
        push_str(out, "dirty");
    } else if push {
        push_str(out, "needs push");
    } else {
        push_str(out, "clean");
    }
    push_str(out, "]\n");
    assert(out@ =~= start + spec_set_repo_line(*r));
}

fn push_set_text(out: &mut String, b: &BranchSetStatus)
    ensures
        final(out)@ == old(out)@ + spec_set_text(*b),
{
    let ghost start = out@;
    push_str(out, "  branch ");
    push_str(out, b.name.as_str());
    push_str(out, " (");
    push_str(out, b.branch.as_str());
    push_str(out, ")\n");
    let ghost head = out@;
    let ghost lines = b.repos@.map_values(|r: BranchRepoStatus| spec_set_repo_line(r));
    for i in 0..b.repos.len()
        invariant
            lines == b.repos@.map_values(|r: BranchRepoStatus| spec_set_repo_line(r)),
            out@ == head + lines.take(i as int).flatten(),
    {
        push_set_repo_line(out, &b.repos[i]);
        proof {
            assert(lines.take(i + 1) =~= lines.take(i as int).push(lines[i as int]));
            lines.take(i as int).lemma_flatten_push(lines[i as int]);
        }
    }
    assert(lines.take(lines.len() as int) =~= lines);
    assert(out@ =~= start + spec_set_text(*b));
}

fn push_space_text(out: &mut String, s: &SpaceStatus)
    ensures
        final(out)@ == old(out)@ + spec_space_text(*s),
{
    let ghost start = out@;
    push_str(out, "space ");
    push_str(out, s.name.as_str());
    push_str(out, " (");
    push_str(out, s.root.as_str());
    push_str(out, ") \u{2014} viewing ");
    push_str(out, s.view.as_str());
    push_str(out, "\n");
    let ghost head = out@;
    let ghost lines = s.repos@.map_values(|r: RepoStatus| spec_repo_line(r));
    for i in 0..s.repos.len()
        invariant
            lines == s.repos@.map_values(|r: RepoStatus| spec_repo_line(r)),
            out@ == head + lines.take(i as int).flatten(),
    {
        push_repo_line(out, &s.repos[i]);
        proof {
            assert(lines.take(i + 1) =~= lines.take(i as int).push(lines[i as int]));
            lines.take(i as int).lemma_flatten_push(lines[i as int]);
        }
    }
    assert(lines.take(lines.len() as int) =~= lines);
    let ghost mid = out@;
    let ghost sets = s.branch_sets@.map_values(|b: BranchSetStatus| spec_set_text(b));
    for i in 0..s.branch_sets.len()
        invariant
            sets == s.branch_sets@.map_values(|b: BranchSetStatus| spec_set_text(b)),
            out@ == mid + sets.take(i as int).flatten(),
    {
        push_set_text(out, &s.branch_sets[i]);
        proof {
            assert(sets.take(i + 1) =~= sets.take(i as int).push(sets[i as int]));
            sets.take(i as int).lemma_flatten_push(sets[i as int]);
        }
    }
    assert(sets.take(sets.len() as int) =~= sets);
    assert(out@ =~= start + spec_space_text(*s));
}

/// Read-only orientation: spaces, members, branch sets, views, dirt — the
/// text `status` prints.
pub fn render_status(statuses: &Vec<SpaceStatus>) -> (r: String)
    ensures
        r@ == spec_status_text(statuses@),
{
    let mut out = String::new();
    let ghost texts = statuses@.map_values(|s: SpaceStatus| spec_space_text(s));
    for i in 0..statuses.len()
        invariant
            texts == statuses@.map_values(|s: SpaceStatus| spec_space_text(s)),
            out@ == texts.take(i as int).flatten(),
    {
        push_space_text(&mut out, &statuses[i]);
        proof {
            assert(texts.take(i + 1) =~= texts.take(i as int).push(texts[i as int]));
            texts.take(i as int).lemma_flatten_push(texts[i as int]);
        }
    }
    assert(texts.take(texts.len() as int) =~= texts);
    out
}

} // verus!
