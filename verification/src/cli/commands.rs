//! The commands of the `myspace` tool and the rules on how their flags
//! combine. Reading them off the command line is the program's own work;
//! this module holds what was read.
use vstd::prelude::*;

verus! {

/// A parsed command line.
pub struct Cli {
    pub command: Commands,
}

/// One invocation of the tool.
pub enum Commands {
    /// Bootstraps the current directory as an empty space.
    Init,
    /// Provisions a new workspace directory structure and manifest.
    Create { name: String },
    /// Opens the workspace manifest (or, with `ignore`, the space
    /// `.gitignore`) in `$EDITOR`.
    Edit { name: Option<String>, ignore: bool },
    /// Resolves the target, clones, and provisions a worktree.
    Add { target: String },
    /// Removes a repository worktree from the workspace; `force` removes it
    /// even with uncommitted changes.
    Remove { name: String, force: bool },
    /// Safely tears down worktrees and deletes the workspace directory.
    Delete { name: Option<String> },
    /// Fetches the space's cached repos and refreshes its views; `all` syncs
    /// every registered space.
    Sync { all: bool },
    /// Creates or grows a branch set; `delete` tears one down.
    Branch {
        name: String,
        repos: Vec<String>,
        from: Option<String>,
        delete: bool,
        force: bool,
        keep_branch: bool,
    },
    /// Points the space's canonical views at a branch set, or back at trunk.
    View { target: String },
    /// Shows spaces, members, branch sets, views, and their state.
    Status { all: bool, json: bool },
}

/// What a `branch` invocation asks for, once its flags are checked.
#[derive(Debug, PartialEq, Eq, Structural)]
pub enum BranchAction {
    /// Create or grow the set.
    Grow,
    /// Tear the set down.
    TearDown,
}

/// A `branch` invocation whose flags do not go together.
#[derive(Debug, PartialEq, Eq, Structural)]
pub enum FlagError {
    /// `-d` was given repos or `--from`.
    DeleteTakesOnlyName,
    /// `--force` or `--keep-branch` was given without `-d`.
    DeleteOnlyFlags,
}

pub open spec fn spec_flag_message(e: FlagError) -> Seq<char> {
    match e {
        FlagError::DeleteTakesOnlyName => "-d takes only the branch set name"@,
        FlagError::DeleteOnlyFlags => "--force and --keep-branch only apply with -d"@,
    }
}

impl FlagError {
    /// The message the refusal is reported with.
    pub fn message(&self) -> (r: String)
        ensures
            r@ == spec_flag_message(*self),
    {
        match self {
            FlagError::DeleteTakesOnlyName => String::from_str("-d takes only the branch set name"),
            FlagError::DeleteOnlyFlags => String::from_str(
                "--force and --keep-branch only apply with -d",
            ),
        }
    }
}

/// The action of a `branch` invocation: with `-d` it tears the set down and
/// takes no repos and no `--from`; without it, it grows the set and takes
/// neither `--force` nor `--keep-branch`.
pub open spec fn spec_branch_action(
    n_repos: nat,
    has_from: bool,
    delete: bool,
    force: bool,
    keep_branch: bool,
) -> Result<BranchAction, FlagError> {
    if delete {
        if n_repos > 0 || has_from {
            Err(FlagError::DeleteTakesOnlyName)
        } else {
            Ok(BranchAction::TearDown)
        }
    } else if force || keep_branch {
        Err(FlagError::DeleteOnlyFlags)
    } else {
        Ok(BranchAction::Grow)
    }
}

/// `-d` tears the set down exactly when it is given alone with the set
/// name; without `-d` the set grows exactly when neither `--force` nor
/// `--keep-branch` is given; no other combination is accepted.
pub proof fn lemma_branch_flags(n_repos: nat, has_from: bool, delete: bool, force: bool, keep_branch: bool)
    ensures
        spec_branch_action(n_repos, has_from, delete, force, keep_branch) == Ok::<
            BranchAction,
            FlagError,
        >(BranchAction::TearDown) <==> (delete && n_repos == 0 && !has_from),
        spec_branch_action(n_repos, has_from, delete, force, keep_branch) == Ok::<
            BranchAction,
            FlagError,
        >(BranchAction::Grow) <==> (!delete && !force && !keep_branch),
{
}

/// Checks how the flags of a `branch` invocation combine.
pub fn branch_action(
    repos: &Vec<String>,
    from: &Option<String>,
    delete: bool,
    force: bool,
    keep_branch: bool,
) -> (r: Result<BranchAction, FlagError>)
    ensures
        r == spec_branch_action(repos.len() as nat, from is Some, delete, force, keep_branch),
{
    if delete {
        if repos.len() > 0 || from.is_some() {
            Err(FlagError::DeleteTakesOnlyName)
        } else {
            Ok(BranchAction::TearDown)
        }
    } else if force || keep_branch {
        Err(FlagError::DeleteOnlyFlags)
    } else {
        Ok(BranchAction::Grow)
    }
}

} // verus!
