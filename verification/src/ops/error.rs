//! Why a space operation is refused.
use vstd::prelude::*;
use crate::text::{self, push_str};

verus! {

/// Why a space operation is refused. Each variant carries the name, path or
/// identity its message reports.
#[derive(Debug, PartialEq, Eq)]
pub enum OpsError {
    NotInSpace,
    AlreadySpace,
    DirectoryExists(String),
    NotRelativeSubpath,
    OutsideCurrentDirectory,
    UnusableSpaceName(String),
    InvalidIdentity(String),
    RefPinned,
    AlreadyTracks(String, String),
    WorktreeExists(String),
    InvalidRepoName(String),
    NotTracked(String),
    InvalidManifestName(String),
    InvalidSetName(String),
    InvalidFromName(String),
    NoRepos,
    NotMember(String),
    NoSuchSet(String),
    NoSuchViewSet(String),
    InvalidViewTarget(String),
    NotLinked(String),
    Dirty(String),
    NotDisposable(String),
    NoSafeDirectory,
    NoCache(String, String),
}

pub enum OpsErrorView {
    NotInSpace,
    AlreadySpace,
    DirectoryExists(Seq<char>),
    NotRelativeSubpath,
    OutsideCurrentDirectory,
    UnusableSpaceName(Seq<char>),
    InvalidIdentity(Seq<char>),
    RefPinned,
    AlreadyTracks(Seq<char>, Seq<char>),
    WorktreeExists(Seq<char>),
    InvalidRepoName(Seq<char>),
    NotTracked(Seq<char>),
    InvalidManifestName(Seq<char>),
    InvalidSetName(Seq<char>),
    InvalidFromName(Seq<char>),
    NoRepos,
    NotMember(Seq<char>),
    NoSuchSet(Seq<char>),
    NoSuchViewSet(Seq<char>),
    InvalidViewTarget(Seq<char>),
    NotLinked(Seq<char>),
    Dirty(Seq<char>),
    NotDisposable(Seq<char>),
    NoSafeDirectory,
    NoCache(Seq<char>, Seq<char>),
}

impl View for OpsError {
    type V = OpsErrorView;

    open spec fn view(&self) -> OpsErrorView {
        match self {
            OpsError::NotInSpace => OpsErrorView::NotInSpace,
            OpsError::AlreadySpace => OpsErrorView::AlreadySpace,
            OpsError::DirectoryExists(s) => OpsErrorView::DirectoryExists(s@),
            OpsError::NotRelativeSubpath => OpsErrorView::NotRelativeSubpath,
            OpsError::OutsideCurrentDirectory => OpsErrorView::OutsideCurrentDirectory,
            OpsError::UnusableSpaceName(s) => OpsErrorView::UnusableSpaceName(s@),
            OpsError::InvalidIdentity(s) => OpsErrorView::InvalidIdentity(s@),
            OpsError::RefPinned => OpsErrorView::RefPinned,
            OpsError::AlreadyTracks(a, b) => OpsErrorView::AlreadyTracks(a@, b@),
            OpsError::WorktreeExists(s) => OpsErrorView::WorktreeExists(s@),
            OpsError::InvalidRepoName(s) => OpsErrorView::InvalidRepoName(s@),
            OpsError::NotTracked(s) => OpsErrorView::NotTracked(s@),
            OpsError::InvalidManifestName(s) => OpsErrorView::InvalidManifestName(s@),
            OpsError::InvalidSetName(s) => OpsErrorView::InvalidSetName(s@),
            OpsError::InvalidFromName(s) => OpsErrorView::InvalidFromName(s@),
            OpsError::NoRepos => OpsErrorView::NoRepos,
            OpsError::NotMember(s) => OpsErrorView::NotMember(s@),
            OpsError::NoSuchSet(s) => OpsErrorView::NoSuchSet(s@),
            OpsError::NoSuchViewSet(s) => OpsErrorView::NoSuchViewSet(s@),
            OpsError::InvalidViewTarget(s) => OpsErrorView::InvalidViewTarget(s@),
            OpsError::NotLinked(s) => OpsErrorView::NotLinked(s@),
            OpsError::Dirty(s) => OpsErrorView::Dirty(s@),
            OpsError::NotDisposable(s) => OpsErrorView::NotDisposable(s@),
            OpsError::NoSafeDirectory => OpsErrorView::NoSafeDirectory,
            OpsError::NoCache(a, b) => OpsErrorView::NoCache(a@, b@),
        }
    }
}

/// The human-readable form of an error.
pub open spec fn spec_ops_message(e: OpsErrorView) -> Seq<char> {
    match e {
        OpsErrorView::NotInSpace => "Not in a myspace workspace"@,
        OpsErrorView::AlreadySpace => "The current directory is already a myspace space"@,
        OpsErrorView::DirectoryExists(s) => "Directory "@ + s + " already exists"@,
        OpsErrorView::NotRelativeSubpath => "Workspace name must be a relative path under the current directory"@,
        OpsErrorView::OutsideCurrentDirectory => "Workspace path must stay within the current directory"@,
        OpsErrorView::UnusableSpaceName(s) => "Space name '"@ + s
            + "' is not usable as a branch namespace \u{2014} fix it with `myspace edit`"@,
        OpsErrorView::InvalidIdentity(s) => "Manifest contains invalid repo identity '"@ + s
            + "' \u{2014} fix it with `myspace edit`"@,
        OpsErrorView::RefPinned => "@ref pins are not usable yet: pinned dependency checkouts are not implemented"@,
        OpsErrorView::AlreadyTracks(a, b) => "'"@ + a + "' already tracks "@ + b
            + " \u{2014} remove it first or pick a different repo"@,
        OpsErrorView::WorktreeExists(s) => text::spec_debug_quoted(s) + " already exists in the workspace"@,
        OpsErrorView::InvalidRepoName(s) => "Invalid repository name '"@ + s + "'"@,
        OpsErrorView::NotTracked(s) => "'"@ + s + "' is not tracked in this workspace"@,
        OpsErrorView::InvalidManifestName(s) => "Manifest contains invalid repository name '"@ + s
            + "' \u{2014} fix it with `myspace edit`"@,
        OpsErrorView::InvalidSetName(s) => "Invalid branch set name '"@ + s + "'"@,
        OpsErrorView::InvalidFromName(s) => "Invalid --from name '"@ + s + "'"@,
        OpsErrorView::NoRepos => "This space has no repos \u{2014} `myspace add` some first"@,
        OpsErrorView::NotMember(s) => "'"@ + s
            + "' is not a member of this space \u{2014} `myspace add` it first"@,
        OpsErrorView::NoSuchSet(s) => "No branch set named '"@ + s + "' in this space"@,
        OpsErrorView::NoSuchViewSet(s) => "No branch set named '"@ + s
            + "' in this space (use `myspace branch "@ + s
            + " <repos>` to create it, or `myspace view trunk`)"@,
        OpsErrorView::InvalidViewTarget(s) => "Invalid view target '"@ + s + "'"@,
        OpsErrorView::NotLinked(s) => text::spec_debug_quoted(s)
            + " is not a linked worktree \u{2014} use --force to delete anyway"@,
        OpsErrorView::Dirty(s) => "Worktree at "@ + text::spec_debug_quoted(s)
            + " has uncommitted changes; use --force to discard them"@,
        OpsErrorView::NotDisposable(s) => "branch '"@ + s
            + "' has commits that are neither merged into trunk nor pushed \u{2014} push them or use --force to discard"@,
        OpsErrorView::NoSafeDirectory => "Cannot determine a safe directory outside the workspace"@,
        OpsErrorView::NoCache(a, b) => "No cached repo for '"@ + a + "' ("@ + b
            + ") \u{2014} run `myspace sync` first"@,
    }
}

impl OpsError {
    /// The human-readable form of the error.
    pub fn message(&self) -> (r: String)
        ensures
            r@ == spec_ops_message(self@),
    {
        let mut r = String::new();
        match self {
            OpsError::NotInSpace => push_str(&mut r, "Not in a myspace workspace"),
            OpsError::AlreadySpace => push_str(
                &mut r,
                "The current directory is already a myspace space",
            ),
            OpsError::DirectoryExists(s) => {
                push_str(&mut r, "Directory ");
                push_str(&mut r, s.as_str());
                push_str(&mut r, " already exists");
            },
            OpsError::NotRelativeSubpath => push_str(
                &mut r,
                "Workspace name must be a relative path under the current directory",
            ),
            OpsError::OutsideCurrentDirectory => push_str(
                &mut r,
                "Workspace path must stay within the current directory",
            ),
            OpsError::UnusableSpaceName(s) => {
                push_str(&mut r, "Space name '");
                push_str(&mut r, s.as_str());
                push_str(
                    &mut r,
                    "' is not usable as a branch namespace \u{2014} fix it with `myspace edit`",
                );
            },
            OpsError::InvalidIdentity(s) => {
                push_str(&mut r, "Manifest contains invalid repo identity '");
                push_str(&mut r, s.as_str());
                push_str(&mut r, "' \u{2014} fix it with `myspace edit`");
            },
            OpsError::RefPinned => push_str(
                &mut r,
                "@ref pins are not usable yet: pinned dependency checkouts are not implemented",
            ),
            OpsError::AlreadyTracks(a, b) => {
                push_str(&mut r, "'");
                push_str(&mut r, a.as_str());
                push_str(&mut r, "' already tracks ");
                push_str(&mut r, b.as_str());
                push_str(&mut r, " \u{2014} remove it first or pick a different repo");
            },
            OpsError::WorktreeExists(s) => {
                push_str(&mut r, text::debug_quoted(s.as_str()).as_str());
                push_str(&mut r, " already exists in the workspace");
            },
            OpsError::InvalidRepoName(s) => {
                push_str(&mut r, "Invalid repository name '");
                push_str(&mut r, s.as_str());
                push_str(&mut r, "'");
            },
            OpsError::NotTracked(s) => {
                push_str(&mut r, "'");
                push_str(&mut r, s.as_str());
                push_str(&mut r, "' is not tracked in this workspace");
            },
            OpsError::InvalidManifestName(s) => {
                push_str(&mut r, "Manifest contains invalid repository name '");
                push_str(&mut r, s.as_str());
                push_str(&mut r, "' \u{2014} fix it with `myspace edit`");
            },
            OpsError::InvalidSetName(s) => {
                push_str(&mut r, "Invalid branch set name '");
                push_str(&mut r, s.as_str());
                push_str(&mut r, "'");
            },
            OpsError::InvalidFromName(s) => {
                push_str(&mut r, "Invalid --from name '");
                push_str(&mut r, s.as_str());
                push_str(&mut r, "'");
            },
            OpsError::NoRepos => push_str(
                &mut r,
                "This space has no repos \u{2014} `myspace add` some first",
            ),
            OpsError::NotMember(s) => {
                push_str(&mut r, "'");
                push_str(&mut r, s.as_str());
                push_str(&mut r, "' is not a member of this space \u{2014} `myspace add` it first");
            },
            OpsError::NoSuchSet(s) => {
                push_str(&mut r, "No branch set named '");
                push_str(&mut r, s.as_str());
                push_str(&mut r, "' in this space");
            },
            OpsError::NoSuchViewSet(s) => {
                push_str(&mut r, "No branch set named '");
                push_str(&mut r, s.as_str());
                push_str(&mut r, "' in this space (use `myspace branch ");
                push_str(&mut r, s.as_str());
                push_str(&mut r, " <repos>` to create it, or `myspace view trunk`)");
            },
            OpsError::InvalidViewTarget(s) => {
                push_str(&mut r, "Invalid view target '");
                push_str(&mut r, s.as_str());
                push_str(&mut r, "'");
            },
            OpsError::NotLinked(s) => {
                push_str(&mut r, text::debug_quoted(s.as_str()).as_str());
                push_str(&mut r, " is not a linked worktree \u{2014} use --force to delete anyway");
            },
            OpsError::Dirty(s) => {
                push_str(&mut r, "Worktree at ");
                push_str(&mut r, text::debug_quoted(s.as_str()).as_str());
                push_str(&mut r, " has uncommitted changes; use --force to discard them");
            },
            OpsError::NotDisposable(s) => {
                push_str(&mut r, "branch '");
                push_str(&mut r, s.as_str());
                push_str(
                    &mut r,
                    "' has commits that are neither merged into trunk nor pushed \u{2014} push them or use --force to discard",
                );
            },
            OpsError::NoSafeDirectory => push_str(
                &mut r,
                "Cannot determine a safe directory outside the workspace",
            ),
            OpsError::NoCache(a, b) => {
                push_str(&mut r, "No cached repo for '");
                push_str(&mut r, a.as_str());
                push_str(&mut r, "' (");
                push_str(&mut r, b.as_str());
                push_str(&mut r, ") \u{2014} run `myspace sync` first");
            },
        }
        assert(r@ =~= spec_ops_message(self@));
        r
    }
}

} // verus!
