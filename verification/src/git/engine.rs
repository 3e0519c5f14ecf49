//! Decisions of the git layer. The git work itself (libgit2 calls on the
//! cached bare repos and their worktrees) is done by the caller, which
//! hands the facts it gathered to these functions.
use vstd::prelude::*;
use crate::ops::error::{OpsError, OpsErrorView};
use crate::text::{self, chars_of, push_char, push_str, Strip};
use crate::utils::registry;

verus! {

/// `refs/heads/<branch>`: the local branch ref.
pub open spec fn spec_local_ref(branch: Seq<char>) -> Seq<char> {
    "refs/heads/"@ + branch
}

/// `refs/remotes/origin/<branch>`: the remote-tracking ref the cache keeps.
pub open spec fn spec_tracking_ref(branch: Seq<char>) -> Seq<char> {
    "refs/remotes/origin/"@ + branch
}

/// The local ref of a branch.
pub fn local_ref(branch: &str) -> (r: String)
    ensures
        r@ == spec_local_ref(branch@),
{
    let mut r = String::from_str("refs/heads/");
    push_str(&mut r, branch);
    r
}

/// The remote-tracking ref of a branch.
pub fn tracking_ref(branch: &str) -> (r: String)
    ensures
        r@ == spec_tracking_ref(branch@),
{
    let mut r = String::from_str("refs/remotes/origin/");
    push_str(&mut r, branch);
    r
}

/// Why the trunk of a cached repo cannot be determined.
#[derive(Debug, PartialEq, Eq)]
pub enum TrunkError {
    /// The bare repo's HEAD is not a symbolic ref.
    HeadNotSymbolic,
    /// The bare repo's HEAD points outside `refs/heads/`.
    HeadOutsideHeads(String),
}

impl TrunkError {
    pub fn message(&self) -> (r: String)
        ensures
            r@ == match self {
                TrunkError::HeadNotSymbolic => "Bare repo HEAD is not a symbolic ref"@,
                TrunkError::HeadOutsideHeads(t) => "Bare repo HEAD points outside refs/heads: "@
                    + t@,
            },
    {
        match self {
            TrunkError::HeadNotSymbolic => String::from_str("Bare repo HEAD is not a symbolic ref"),
            TrunkError::HeadOutsideHeads(t) => {
                let mut r = String::from_str("Bare repo HEAD points outside refs/heads: ");
                push_str(&mut r, t.as_str());
                r
            },
        }
    }
}

/// The trunk ref of a cached bare repo, from its HEAD: HEAD is a symbolic
/// ref to `refs/heads/<default>` (set from the remote's HEAD at clone
/// time), and trunk is `refs/remotes/origin/<default>`.
pub open spec fn spec_trunk_ref(head_target: Option<Seq<char>>) -> Result<Seq<char>, Seq<char>> {
    match head_target {
        None => Err(Seq::empty()),
        Some(t) => if text::spec_starts_with(t, "refs/heads/"@) {
            Ok(spec_tracking_ref(t.skip("refs/heads/"@.len() as int)))
        } else {
            Err(t)
        },
    }
}

/// Trunk is the remote-tracking ref of the branch HEAD points at: a HEAD at
/// `refs/heads/<b>` gives `refs/remotes/origin/<b>`, and a HEAD that is not
/// symbolic or points outside `refs/heads/` gives no trunk.
pub proof fn lemma_trunk_follows_head(b: Seq<char>, t: Seq<char>)
    ensures
        spec_trunk_ref(Some("refs/heads/"@ + b)) == Ok::<Seq<char>, Seq<char>>(
            "refs/remotes/origin/"@ + b,
        ),
        spec_trunk_ref(None) is Err,
        !text::spec_starts_with(t, "refs/heads/"@) ==> spec_trunk_ref(Some(t)) == Err::<
            Seq<char>,
            Seq<char>,
        >(t),
{
    let h = "refs/heads/"@ + b;
    assert(h.take("refs/heads/"@.len() as int) =~= "refs/heads/"@);
    assert(h.skip("refs/heads/"@.len() as int) =~= b);
}

/// Decides which ref is trunk, given HEAD's symbolic target (`None` when
/// HEAD is not symbolic).
pub fn trunk_ref(head_target: Option<&str>) -> (r: Result<String, TrunkError>)
    ensures
        match (r, spec_trunk_ref(
            match head_target {
                Some(t) => Some(t@),
                None => None,
            },
        )) {
            (Ok(a), Ok(b)) => a@ == b,
            (Err(TrunkError::HeadNotSymbolic), Err(_)) => head_target is None,
            (Err(TrunkError::HeadOutsideHeads(a)), Err(b)) => head_target is Some && a@ == b,
            _ => false,
        },
{
    match head_target {
        None => Err(TrunkError::HeadNotSymbolic),
        Some(t) => {
            let v = chars_of(t);
            let p = chars_of("refs/heads/");
            let n = p.len();
            if v.len() >= n && text::chars_eq(&text::slice_of(&v, 0, n), &p) {
                assert(v@.take(n as int) =~= v@.subrange(0, n as int));
                let branch = text::string_of(&v, n, v.len());
                assert(branch@ =~= t@.skip(n as int));
                Ok(tracking_ref(branch.as_str()))
            } else {
                assert(!text::spec_starts_with(t@, "refs/heads/"@)) by {
                    if text::spec_starts_with(t@, "refs/heads/"@) {
                        assert(v@.subrange(0, n as int) =~= v@.take(n as int));
                    }
                }
                Err(TrunkError::HeadOutsideHeads(String::from_str(t)))
            }
        },
    }
}

/// A branch holds work that would be lost when it exists, is not merged
/// into trunk, and is not fully pushed to origin. A missing branch has
/// nothing to lose.
pub fn needs_push(exists: bool, merged_into_trunk: bool, pushed: bool) -> (r: bool)
    ensures
        r == (exists && !merged_into_trunk && !pushed),
{
    exists && !merged_into_trunk && !pushed
}

/// Errors unless a branch is merged into trunk or fully pushed to origin —
/// the `git branch -d` safety equivalent for branch sets. `needs_push` is
/// what [`needs_push`] decided for the branch.
pub fn ensure_branch_disposable(branch: &str, needs_push: bool) -> (r: Result<(), OpsError>)
    ensures
        r is Ok <==> !needs_push,
        r matches Err(e) ==> e@ == OpsErrorView::NotDisposable(branch@),
{
    if needs_push {
        return Err(OpsError::NotDisposable(String::from_str(branch)));
    }
    Ok(())
}

/// One way to authenticate over SSH, tried in order until one succeeds.
#[derive(Debug, PartialEq, Eq)]
pub enum SshCandidate {
    Agent,
    Key(String),
}

/// The conventional private-key file names under `~/.ssh`, in the order
/// they are tried.
pub fn conventional_key_names() -> (r: Vec<&'static str>)
    ensures
        r.len() == 5,
        r@[0]@ == "id_ed25519"@,
        r@[1]@ == "id_ed25519_sk"@,
        r@[2]@ == "id_ecdsa"@,
        r@[3]@ == "id_ecdsa_sk"@,
        r@[4]@ == "id_rsa"@,
{
    let mut r: Vec<&'static str> = Vec::new();
    r.push("id_ed25519");
    r.push("id_ed25519_sk");
    r.push("id_ecdsa");
    r.push("id_ecdsa_sk");
    r.push("id_rsa");
    r
}

/// libgit2 knows nothing of `~/.ssh/config`: it can consult the agent at
/// `$SSH_AUTH_SOCK` or read a key file directly. An explicitly configured
/// key wins outright (IdentitiesOnly semantics); otherwise the agent, then
/// the conventional key files that exist (`present_keys`, in order).
pub fn ssh_candidates(explicit_key: Option<String>, present_keys: &Vec<String>) -> (r: Vec<SshCandidate>)
    ensures
        explicit_key is Some ==> r.len() == 1 && r@[0] == SshCandidate::Key(explicit_key->0),
        explicit_key is None ==> {
            &&& r.len() == present_keys.len() + 1
            &&& r@[0] == SshCandidate::Agent
            &&& forall|i: int|
                0 <= i < present_keys.len() ==> #[trigger] r@[i + 1] == SshCandidate::Key(
                    present_keys@[i],
                )
        },
{
    let mut r: Vec<SshCandidate> = Vec::new();
    match explicit_key {
        Some(k) => {
            r.push(SshCandidate::Key(k));
            return r;
        },
        None => {},
    }
    r.push(SshCandidate::Agent);
    for i in 0..present_keys.len()
        invariant
            r.len() == i + 1,
            r@[0] == SshCandidate::Agent,
            forall|j: int| 0 <= j < i ==> #[trigger] r@[j + 1] == SshCandidate::Key(present_keys@[j]),
    {
        r.push(SshCandidate::Key(present_keys[i].clone()));
    }
    r
}

/// What to answer libgit2's `attempt`-th (from 0) request for credentials.
#[derive(Debug, PartialEq, Eq)]
pub enum CredentialChoice {
    /// Ask the SSH agent.
    Agent,
    /// Read this key file.
    Key(String),
    /// Every SSH candidate was rejected: fail with guidance.
    Exhausted,
    /// Use libgit2's default credentials.
    Default,
    /// No kind of credential libgit2 asked for is available.
    Unavailable,
}

/// libgit2 re-asks after each rejected credential, so SSH requests walk the
/// candidate list one entry per request and fail with guidance once every
/// option is spent; plaintext or default requests get the default
/// credentials.
pub fn credential_choice(
    candidates: &Vec<SshCandidate>,
    attempt: usize,
    ssh_key_allowed: bool,
    plaintext_allowed: bool,
    default_allowed: bool,
) -> (r: CredentialChoice)
    ensures
        ssh_key_allowed ==> (if attempt < candidates.len() {
            match candidates@[attempt as int] {
                SshCandidate::Agent => r == CredentialChoice::Agent,
                SshCandidate::Key(k) => r == CredentialChoice::Key(k),
            }
        } else {
            r == CredentialChoice::Exhausted
        }),
        !ssh_key_allowed ==> (if plaintext_allowed || default_allowed {
            r == CredentialChoice::Default
        } else {
            r == CredentialChoice::Unavailable
        }),
{
    if ssh_key_allowed {
        if attempt < candidates.len() {
            match &candidates[attempt] {
                SshCandidate::Agent => CredentialChoice::Agent,
                SshCandidate::Key(k) => CredentialChoice::Key(k.clone()),
            }
        } else {
            CredentialChoice::Exhausted
        }
    } else if plaintext_allowed || default_allowed {
        CredentialChoice::Default
    } else {
        CredentialChoice::Unavailable
    }
}

/// What re-pointing a detached view at a commit does.
#[derive(Debug, PartialEq, Eq)]
pub enum Retarget {
    /// The view is already at the commit: nothing to do.
    AlreadyThere,
    /// Check the commit out (safely) and detach HEAD there.
    Checkout,
}

/// Why a view was left where it is: it has local changes.
pub open spec fn spec_local_changes_message(path: Seq<char>) -> Seq<char> {
    text::spec_debug_quoted(path) + " has local changes \u{2014} commit, stash, or discard them first"@
}

/// Decides how the view at `path` is re-pointed. A view with local changes
/// is never touched — views are surfaced, never destroyed; one already at
/// the commit is left alone; the rest are checked out.
pub fn plan_retarget(path: &str, dirty: bool, at_target: bool) -> (r: Result<Retarget, String>)
    ensures
        dirty ==> (r matches Err(m) && m@ == spec_local_changes_message(path@)),
        !dirty && at_target ==> r == Ok::<Retarget, String>(Retarget::AlreadyThere),
        !dirty && !at_target ==> r == Ok::<Retarget, String>(Retarget::Checkout),
{
    if dirty {
        let mut m = text::debug_quoted(path);
        push_str(&mut m, " has local changes \u{2014} commit, stash, or discard them first");
        assert(m@ =~= spec_local_changes_message(path@));
        return Err(m);
    }
    if at_target {
        Ok(Retarget::AlreadyThere)
    } else {
        Ok(Retarget::Checkout)
    }
}

/// The `i`-th alternative worktree name for `base`: `<base>-<i>`.
pub open spec fn spec_candidate(base: Seq<char>, i: nat) -> Seq<char> {
    base + seq!['-'] + text::spec_decimal(i)
}

proof fn lemma_candidate_injective(base: Seq<char>, a: nat, b: nat)
    requires
        spec_candidate(base, a) == spec_candidate(base, b),
    ensures
        a == b,
{
    let n = base.len() + 1;
    assert(spec_candidate(base, a).skip(n as int) =~= text::spec_decimal(a));
    assert(spec_candidate(base, b).skip(n as int) =~= text::spec_decimal(b));
    text::lemma_decimal_injective(a, b);
}

/// A worktree registration name that is free in a bare repo, given the
/// names already `taken` there (registered worktrees and local branches):
/// `base` itself when free, else `<base>-<i>` for the least `i >= 2` whose
/// name is free. Registrations are keyed by name, so two workspaces holding
/// the same repo need distinct names even though both worktrees are called
/// e.g. `myrepo` on disk.
pub fn free_worktree_name(base: &str, taken: &Vec<String>) -> (r: String)
    ensures
        !registry::paths_view(taken@).contains(r@),
        !registry::paths_view(taken@).contains(base@) ==> r@ == base@,
        registry::paths_view(taken@).contains(base@) ==> exists|i: nat|
            {
                &&& i >= 2
                &&& r@ == spec_candidate(base@, i)
                &&& forall|j: nat|
                    2 <= j < i ==> registry::paths_view(taken@).contains(
                        #[trigger] spec_candidate(base@, j),
                    )
            },
{
    let ghost tv = registry::paths_view(taken@);
    if !text::contains_str(taken, base) {
        return String::from_str(base);
    }
    let mut i: u128 = 2;
    let ghost mut seen: Set<Seq<char>> = Set::empty();
    proof {
        tv.lemma_cardinality_of_set();
    }
    loop
        invariant
            tv == registry::paths_view(taken@),
            tv.contains(base@),
            2 <= i <= taken.len() + 2,
            seen.finite(),
            seen.len() == i - 2,
            seen.subset_of(tv.to_set()),
            forall|x: Seq<char>|
                #[trigger] seen.contains(x) ==> exists|j: nat|
                    2 <= j < i && x == spec_candidate(base@, j),
            forall|j: nat| 2 <= j < i ==> tv.contains(#[trigger] spec_candidate(base@, j)),
            tv.to_set().len() <= tv.len(),
        decreases taken.len() + 2 - i,
    {
        let mut c = String::from_str(base);
        push_char(&mut c, '-');
        let d = text::decimal(i);
        push_str(&mut c, d.as_str());
        assert(c@ =~= spec_candidate(base@, i as nat));
        if !text::contains_str(taken, c.as_str()) {
            return c;
        }
        proof {
            let ci = spec_candidate(base@, i as nat);
            if seen.contains(ci) {
                let j = choose|j: nat| 2 <= j < i && ci == spec_candidate(base@, j);
                lemma_candidate_injective(base@, j, i as nat);
            }
            assert(tv.to_set().contains(ci));
            let old_seen = seen;
            seen = seen.insert(ci);
            assert forall|x: Seq<char>| #[trigger] seen.contains(x) implies exists|j: nat|
                2 <= j < i + 1 && x == spec_candidate(base@, j) by {
                if x != ci {
                    assert(old_seen.contains(x));
                    let j = choose|j: nat| 2 <= j < i && x == spec_candidate(base@, j);
                    assert(2 <= j < i + 1 && x == spec_candidate(base@, j));
                } else {
                    assert(2 <= i < i + 1 && x == spec_candidate(base@, i as nat));
                }
            }
            vstd::set_lib::lemma_len_subset(seen, tv.to_set());
        }
        i = i + 1;
    }
}

/// The worktree that has `branch` checked out, from each registered
/// worktree's path and the symbolic target of its HEAD (`None` where HEAD is
/// detached or could not be read): the first whose HEAD is
/// `refs/heads/<branch>`.
pub fn branch_holder(branch: &str, heads: &Vec<(String, Option<String>)>) -> (r: Option<String>)
    ensures
        match r {
            Some(p) => exists|i: int|
                0 <= i < heads.len() && heads@[i].0@ == p@ && spec_holds(heads@[i].1, branch@)
                    && forall|j: int| 0 <= j < i ==> !spec_holds(#[trigger] heads@[j].1, branch@),
            None => forall|i: int| 0 <= i < heads.len() ==> !spec_holds(#[trigger] heads@[i].1, branch@),
        },
{
    let want = local_ref(branch);
    for i in 0..heads.len()
        invariant
            want@ == spec_local_ref(branch@),
            forall|j: int| 0 <= j < i ==> !spec_holds(#[trigger] heads@[j].1, branch@),
    {
        match &heads[i].1 {
            Some(t) => {
                if text::str_eq(t.as_str(), want.as_str()) {
                    return Some(heads[i].0.clone());
                }
            },
            None => {},
        }
    }
    None
}

/// A HEAD with this symbolic target has `branch` checked out.
pub open spec fn spec_holds(head: Option<String>, branch: Seq<char>) -> bool {
    head is Some && head->0@ == spec_local_ref(branch)
}

/// Why a branch-set worktree cannot be created: another worktree already
/// holds its branch.
pub open spec fn spec_held_branch_message(branch: Seq<char>, holder: Seq<char>) -> Seq<char> {
    "branch '"@ + branch + "' is already checked out at "@ + holder
        + " \u{2014} a branch can live in only one worktree; pick a different name or work there"@
}

pub fn held_branch_message(branch: &str, holder: &str) -> (r: String)
    ensures
        r@ == spec_held_branch_message(branch@, holder@),
{
    let mut m = String::from_str("branch '");
    push_str(&mut m, branch);
    push_str(&mut m, "' is already checked out at ");
    push_str(&mut m, holder);
    push_str(
        &mut m,
        " \u{2014} a branch can live in only one worktree; pick a different name or work there",
    );
    assert(m@ =~= spec_held_branch_message(branch@, holder@));
    m
}

/// The registered worktree at `target`, given the (canonical) paths of the
/// registered worktrees: the index of the first one equal to it.
pub fn worktree_at(paths: &Vec<String>, target: &str) -> (r: Option<usize>)
    ensures
        match r {
            Some(i) => i < paths.len() && paths@[i as int]@ == target@ && forall|j: int|
                0 <= j < i ==> (#[trigger] paths@[j])@ != target@,
            None => forall|j: int| 0 <= j < paths.len() ==> (#[trigger] paths@[j])@ != target@,
        },
{
    for i in 0..paths.len()
        invariant
            forall|j: int| 0 <= j < i ==> (#[trigger] paths@[j])@ != target@,
    {
        if text::str_eq(paths[i].as_str(), target) {
            return Some(i);
        }
    }
    None
}

/// The directive name, compared without regard to ASCII case.
pub open spec fn spec_identity_agent_key() -> Seq<char> {
    seq!['i', 'd', 'e', 'n', 't', 'i', 't', 'y', 'a', 'g', 'e', 'n', 't']
}

/// The agent one line of `~/.ssh/config` names: the line, trimmed, is
/// neither empty nor a comment, splits at its first whitespace character
/// into a key and a value, the key is `IdentityAgent` in any ASCII case, and
/// the value, trimmed and stripped of surrounding double quotes, is the
/// agent.
pub open spec fn spec_line_agent(line: Seq<char>) -> Option<Seq<char>> {
    let t = text::spec_trim(line, Strip::Whitespace);
    if t.len() == 0 || t[0] == '#' {
        None
    } else {
        match text::spec_split_at_whitespace(t) {
            Some((key, value)) => if text::spec_eq_ignore_ascii_case(key, spec_identity_agent_key()) {
                Some(
                    text::spec_trim(text::spec_trim(value, Strip::Whitespace), Strip::Only('"')),
                )
            } else {
                None
            },
            None => None,
        }
    }
}

/// The `IdentityAgent` of an `~/.ssh/config` text: the agent of its first
/// line that names one (lines end at `\n`).
pub open spec fn spec_identity_agent(config: Seq<char>) -> Option<Seq<char>>
    decreases config.len(),
{
    match text::spec_split_once(config, '\n') {
        Some((line, rest)) => if spec_line_agent(line) is Some {
            spec_line_agent(line)
        } else {
            proof {
                text::lemma_split_parts(config, '\n');
            }
            spec_identity_agent(rest)
        },
        None => spec_line_agent(config),
    }
}

fn line_agent(line: &Vec<char>) -> (r: Option<String>)
    ensures
        text::opt_view(r) == spec_line_agent(line@),
{
    let t = text::trim_chars(line, Strip::Whitespace);
    if t.len() == 0 || t[0] == '#' {
        return None;
    }
    match text::split_at_whitespace(&t) {
        Some((key, value)) => {
            let name: Vec<char> = vec!['i', 'd', 'e', 'n', 't', 'i', 't', 'y', 'a', 'g', 'e', 'n', 't'];
            assert(name@ =~= spec_identity_agent_key());
            if text::eq_ignore_ascii_case(&key, &name) {
                let v = text::trim_chars(&value, Strip::Whitespace);
                let v = text::trim_chars(&v, Strip::Only('"'));
                Some(text::string_from(&v))
            } else {
                None
            }
        },
        None => None,
    }
}

/// The `IdentityAgent` path set in an `~/.ssh/config` text, if any. It only
/// makes the authentication-failure message actionable, so a plain
/// line-by-line reading suffices.
pub fn identity_agent_hint(config: &str) -> (r: Option<String>)
    ensures
        text::opt_view(r) == spec_identity_agent(config@),
{
    let v = chars_of(config);
    let n = v.len();
    let mut pos: usize = 0;
    assert(v@.subrange(0, n as int) =~= v@);
    loop
        invariant
            pos <= n == v.len(),
            spec_identity_agent(config@) == spec_identity_agent(v@.subrange(pos as int, n as int)),
            v@ == config@,
        decreases n - pos,
    {
        let rest = text::slice_of(&v, pos, n);
        match text::find_first(&rest, '\n') {
            Some(i) => {
                proof {
                    text::lemma_split_once_at(rest@, '\n', i as int);
                    assert(rest@.skip(i + 1) =~= v@.subrange(pos + i + 1, n as int));
                }
                let line = text::slice_of(&rest, 0, i);
                assert(line@ =~= rest@.take(i as int));
                let found = line_agent(&line);
                if found.is_some() {
                    return found;
                }
                pos = pos + i + 1;
            },
            None => {
                proof {
                    text::lemma_split_none(rest@, '\n');
                }
                return line_agent(&rest);
            },
        }
    }
}

/// The guidance given when SSH authentication runs out of identities,
/// naming the agent configured in `~/.ssh/config` when there is one.
pub open spec fn spec_ssh_auth_help(agent: Option<Seq<char>>) -> Seq<char> {
    "SSH authentication failed: no usable identity. libgit2 does not read ~/.ssh/config \u{2014} it uses the agent at $SSH_AUTH_SOCK or an explicit key file"@
        + match agent {
        Some(a) => ".\n~/.ssh/config sets IdentityAgent "@ + a
            + " \u{2014} add this to ~/.myspace/config.toml:\n\n    ssh_agent = \""@ + a + "\"\n"@,
        None => ".\nLoad a key with `ssh-add <key>`, or set an explicit identity in ~/.myspace/config.toml:\n\n    [hosts.\"github.com\"]\n    ssh_key = \"~/.ssh/id_ed25519\"\n"@,
    }
}

/// The guidance given when SSH authentication runs out of identities.
pub fn ssh_auth_help(agent: Option<String>) -> (r: String)
    ensures
        r@ == spec_ssh_auth_help(text::opt_view(agent)),
{
    let mut msg = String::from_str(
        "SSH authentication failed: no usable identity. libgit2 does not read ~/.ssh/config \u{2014} it uses the agent at $SSH_AUTH_SOCK or an explicit key file",
    );
    match &agent {
        Some(a) => {
            push_str(&mut msg, ".\n~/.ssh/config sets IdentityAgent ");
            push_str(&mut msg, a.as_str());
            push_str(&mut msg, " \u{2014} add this to ~/.myspace/config.toml:\n\n    ssh_agent = \"");
            push_str(&mut msg, a.as_str());
            push_str(&mut msg, "\"\n");
        },
        None => {
            push_str(
                &mut msg,
                ".\nLoad a key with `ssh-add <key>`, or set an explicit identity in ~/.myspace/config.toml:\n\n    [hosts.\"github.com\"]\n    ssh_key = \"~/.ssh/id_ed25519\"\n",
            );
        },
    }
    assert(msg@ =~= spec_ssh_auth_help(text::opt_view(agent)));
    msg
}

} // verus!
