//! Target strings: parsing, validation and resolution against the global
//! configuration.
use vstd::prelude::*;
use crate::models::config::GlobalConfig;
use crate::models::target::{self, ParsedTarget, TargetView};
use crate::utils::paths::{self, join_path};
use crate::text::{
    self, chars_of, contains_char, is_control, is_whitespace, push_char, push_str, rsplit_once,
    slice_of, split_once, string_from,
};

verus! {

/// Which slot of a target a component fills.
#[derive(Debug, Clone, Copy, PartialEq, Eq, Structural)]
pub enum Part {
    Host,
    Org,
    Repo,
}

/// Why a target string could not be parsed or resolved.
#[derive(Debug, PartialEq, Eq)]
pub enum TargetError {
    /// A `//` target without the `:repo` part or with more than two
    /// location segments.
    MalformedShort(String),
    /// An scp-style URL whose path has no `org/`.
    MalformedUrl(String),
    /// A bare target containing a slash.
    MalformedBare(String),
    /// A component that is not usable as a single path segment.
    InvalidComponent(Part, String),
    /// An `@ref` pin that is empty, starts with `-`, or holds a backslash,
    /// whitespace or a control character.
    InvalidRef(String),
    /// A dot-less host slot that names no configured alias.
    UnknownAlias(String),
    /// A host (or alias value) that still carries a transport (`@` or `:`).
    TransportHost(String),
    /// A host without a dot.
    HostWithoutDot(String),
}

pub enum TargetErrorView {
    MalformedShort(Seq<char>),
    MalformedUrl(Seq<char>),
    MalformedBare(Seq<char>),
    InvalidComponent(Part, Seq<char>),
    InvalidRef(Seq<char>),
    UnknownAlias(Seq<char>),
    TransportHost(Seq<char>),
    HostWithoutDot(Seq<char>),
}

impl View for TargetError {
    type V = TargetErrorView;

    open spec fn view(&self) -> TargetErrorView {
        match self {
            TargetError::MalformedShort(s) => TargetErrorView::MalformedShort(s@),
            TargetError::MalformedUrl(s) => TargetErrorView::MalformedUrl(s@),
            TargetError::MalformedBare(s) => TargetErrorView::MalformedBare(s@),
            TargetError::InvalidComponent(p, s) => TargetErrorView::InvalidComponent(*p, s@),
            TargetError::InvalidRef(s) => TargetErrorView::InvalidRef(s@),
            TargetError::UnknownAlias(s) => TargetErrorView::UnknownAlias(s@),
            TargetError::TransportHost(s) => TargetErrorView::TransportHost(s@),
            TargetError::HostWithoutDot(s) => TargetErrorView::HostWithoutDot(s@),
        }
    }
}

pub open spec fn spec_part_name(p: Part) -> Seq<char> {
    match p {
        Part::Host => "host"@,
        Part::Org => "org"@,
        Part::Repo => "repo"@,
    }
}

/// The human-readable form of an error.
pub open spec fn spec_error_message(e: TargetErrorView) -> Seq<char> {
    match e {
        TargetErrorView::MalformedShort(s) => "Invalid target '"@ + s
            + "'. Expected //hostish:repo or //hostish/org:repo"@,
        TargetErrorView::MalformedUrl(s) => "Invalid git URL '"@ + s
            + "'. Expected git@host:org/repo.git"@,
        TargetErrorView::MalformedBare(s) => "Invalid target '"@ + s
            + "'. Expected repo, //hostish{/org}:repo, or git@host:org/repo.git"@,
        TargetErrorView::InvalidComponent(p, v) => "Invalid "@ + spec_part_name(p) + " '"@ + v
            + "' in target"@,
        TargetErrorView::InvalidRef(v) => "Invalid ref '"@ + v + "' in target"@,
        TargetErrorView::UnknownAlias(a) => "'"@ + a
            + "' has no dot, so it is treated as an alias \u{2014} but no alias '"@ + a
            + "' is configured"@,
        TargetErrorView::TransportHost(h) => "'"@ + h
            + "' looks like a transport string. Hosts and alias values are bare hostnames now, e.g. \"bitbucket.org\" \u{2014} the git@/ssh part is derived"@,
        TargetErrorView::HostWithoutDot(h) => "'"@ + h + "' is not a valid host (no dot)"@,
    }
}

impl TargetError {
    /// The human-readable form of the error.
    pub fn message(&self) -> (r: String)
        ensures
            r@ == spec_error_message(self@),
    {
        let mut r = String::new();
        match self {
            TargetError::MalformedShort(s) => {
                push_str(&mut r, "Invalid target '");
                push_str(&mut r, s.as_str());
                push_str(&mut r, "'. Expected //hostish:repo or //hostish/org:repo");
            },
            TargetError::MalformedUrl(s) => {
                push_str(&mut r, "Invalid git URL '");
                push_str(&mut r, s.as_str());
                push_str(&mut r, "'. Expected git@host:org/repo.git");
            },
            TargetError::MalformedBare(s) => {
                push_str(&mut r, "Invalid target '");
                push_str(&mut r, s.as_str());
                push_str(&mut r, "'. Expected repo, //hostish{/org}:repo, or git@host:org/repo.git");
            },
            TargetError::InvalidComponent(p, v) => {
                push_str(&mut r, "Invalid ");
                match p {
                    Part::Host => push_str(&mut r, "host"),
                    Part::Org => push_str(&mut r, "org"),
                    Part::Repo => push_str(&mut r, "repo"),
                }
                push_str(&mut r, " '");
                push_str(&mut r, v.as_str());
                push_str(&mut r, "' in target");
            },
            TargetError::InvalidRef(v) => {
                push_str(&mut r, "Invalid ref '");
                push_str(&mut r, v.as_str());
                push_str(&mut r, "' in target");
            },
            TargetError::UnknownAlias(a) => {
                push_str(&mut r, "'");
                push_str(&mut r, a.as_str());
                push_str(&mut r, "' has no dot, so it is treated as an alias \u{2014} but no alias '");
                push_str(&mut r, a.as_str());
                push_str(&mut r, "' is configured");
            },
            TargetError::TransportHost(h) => {
                push_str(&mut r, "'");
                push_str(&mut r, h.as_str());
                push_str(
                    &mut r,
                    "' looks like a transport string. Hosts and alias values are bare hostnames now, e.g. \"bitbucket.org\" \u{2014} the git@/ssh part is derived",
                );
            },
            TargetError::HostWithoutDot(h) => {
                push_str(&mut r, "'");
                push_str(&mut r, h.as_str());
                push_str(&mut r, "' is not a valid host (no dot)");
            },
        }
        assert(r@ =~= spec_error_message(self@));
        r
    }
}

/// A character that may not occur in a component: a path or ref separator,
/// whitespace, or a control character.
pub open spec fn spec_forbidden_in_component(c: char) -> bool {
    ||| c == '/'
    ||| c == '\\'
    ||| c == ':'
    ||| c == '@'
    ||| text::spec_is_whitespace(c)
    ||| text::spec_is_control(c)
}

/// A component usable as a single path segment: non-empty, not `.` or `..`,
/// and free of separators, `@`, whitespace and control characters.
pub open spec fn spec_valid_component(s: Seq<char>) -> bool {
    &&& s.len() > 0
    &&& s != seq!['.']
    &&& s != seq!['.', '.']
    &&& forall|i: int| 0 <= i < s.len() ==> !spec_forbidden_in_component(#[trigger] s[i])
}

/// A usable `@ref` pin: non-empty, not starting with `-`, and free of
/// backslashes, whitespace and control characters.
pub open spec fn spec_valid_ref(s: Seq<char>) -> bool {
    &&& s.len() > 0
    &&& s[0] != '-'
    &&& forall|i: int|
        0 <= i < s.len() ==> #[trigger] s[i] != '\\' && !text::spec_is_whitespace(s[i])
            && !text::spec_is_control(s[i])
}

pub open spec fn spec_check_component(s: Seq<char>, part: Part) -> Result<(), TargetErrorView> {
    if spec_valid_component(s) {
        Ok(())
    } else {
        Err(TargetErrorView::InvalidComponent(part, s))
    }
}

/// Splits a trailing `@ref` off at the last `@`.
pub open spec fn spec_split_ref(s: Seq<char>) -> Result<
    (Seq<char>, Option<Seq<char>>),
    TargetErrorView,
> {
    match text::spec_rsplit_once(s, '@') {
        Some((path, r)) => if spec_valid_ref(r) {
            Ok((path, Some(r)))
        } else {
            Err(TargetErrorView::InvalidRef(r))
        },
        None => Ok((s, None)),
    }
}

/// `p` without a trailing `.git`.
pub open spec fn spec_strip_git(p: Seq<char>) -> Seq<char> {
    if text::spec_ends_with(p, seq!['.', 'g', 'i', 't']) {
        p.take(p.len() - 4)
    } else {
        p
    }
}

/// The target with host, org and repo checked in that order.
pub open spec fn spec_checked_target(
    host: Option<Seq<char>>,
    org: Option<Seq<char>>,
    repo: Seq<char>,
    git_ref: Option<Seq<char>>,
) -> Result<TargetView, TargetErrorView> {
    if host is Some && !spec_valid_component(host->0) {
        Err(TargetErrorView::InvalidComponent(Part::Host, host->0))
    } else if org is Some && !spec_valid_component(org->0) {
        Err(TargetErrorView::InvalidComponent(Part::Org, org->0))
    } else if !spec_valid_component(repo) {
        Err(TargetErrorView::InvalidComponent(Part::Repo, repo))
    } else {
        Ok(TargetView { host, org, repo, git_ref })
    }
}

/// The `//hostish{/org}:repo{@ref}` form; `rest` follows the `//`.
pub open spec fn spec_parse_short(s: Seq<char>, rest: Seq<char>) -> Result<
    TargetView,
    TargetErrorView,
> {
    match text::spec_split_once(rest, ':') {
        None => Err(TargetErrorView::MalformedShort(s)),
        Some((location, repo_part)) => match spec_split_ref(repo_part) {
            Err(e) => Err(e),
            Ok((repo, git_ref)) => match text::spec_split_once(location, '/') {
                None => spec_checked_target(Some(location), None, repo, git_ref),
                Some((host, org)) => if org.contains('/') {
                    Err(TargetErrorView::MalformedShort(s))
                } else {
                    spec_checked_target(Some(host), Some(org), repo, git_ref)
                },
            },
        },
    }
}

/// The scp-style `user@host:org/repo{.git}{@ref}` form, split at its first
/// `:` into `userhost` and `path`.
pub open spec fn spec_parse_url(s: Seq<char>, userhost: Seq<char>, path: Seq<char>) -> Result<
    TargetView,
    TargetErrorView,
> {
    let host = match text::spec_rsplit_once(userhost, '@') {
        Some((_, h)) => h,
        None => userhost,
    };
    match spec_split_ref(path) {
        Err(e) => Err(e),
        Ok((p, git_ref)) => match text::spec_split_once(spec_strip_git(p), '/') {
            None => Err(TargetErrorView::MalformedUrl(s)),
            Some((org, repo)) => spec_checked_target(Some(host), Some(org), repo, git_ref),
        },
    }
}

/// The bare `repo{@ref}` form.
pub open spec fn spec_parse_bare(s: Seq<char>) -> Result<TargetView, TargetErrorView> {
    match spec_split_ref(s) {
        Err(e) => Err(e),
        Ok((repo, git_ref)) => if repo.contains('/') {
            Err(TargetErrorView::MalformedBare(s))
        } else {
            spec_checked_target(None, None, repo, git_ref)
        },
    }
}

/// What parsing a target string gives: the `//` form when the string starts
/// with `//`, otherwise the URL form when it holds a `:`, otherwise the bare
/// form.
pub open spec fn spec_parse_target(s: Seq<char>) -> Result<TargetView, TargetErrorView> {
    if text::spec_starts_with(s, seq!['/', '/']) {
        spec_parse_short(s, s.skip(2))
    } else {
        match text::spec_split_once(s, ':') {
            Some((userhost, path)) => spec_parse_url(s, userhost, path),
            None => spec_parse_bare(s),
        }
    }
}

pub open spec fn target_result_view(r: Result<ParsedTarget, TargetError>) -> Result<
    TargetView,
    TargetErrorView,
> {
    match r {
        Ok(t) => Ok(t@),
        Err(e) => Err(e@),
    }
}

fn forbidden_in_component(c: char) -> (r: bool)
    ensures
        r == spec_forbidden_in_component(c),
{
    c == '/' || c == '\\' || c == ':' || c == '@' || is_whitespace(c) || is_control(c)
}

fn component_ok(v: &Vec<char>) -> (r: bool)
    ensures
        r == spec_valid_component(v@),
{
    let n = v.len();
    if n == 0 {
        return false;
    }
    if n == 1 && v[0] == '.' {
        assert(v@ =~= seq!['.']);
        return false;
    }
    if n == 2 && v[0] == '.' && v[1] == '.' {
        assert(v@ =~= seq!['.', '.']);
        return false;
    }
    assert(v@ != seq!['.']) by {
        if v@ == seq!['.'] {
            assert(v@[0] == '.');
        }
    }
    assert(v@ != seq!['.', '.']) by {
        if v@ == seq!['.', '.'] {
            assert(v@[0] == '.' && v@[1] == '.');
        }
    }
    for i in 0..n
        invariant
            n == v.len(),
            forall|j: int| 0 <= j < i ==> !spec_forbidden_in_component(#[trigger] v@[j]),
    {
        if forbidden_in_component(v[i]) {
            return false;
        }
    }
    true
}

/// Returns whether a target/name component is safe to use as a single path
/// segment. Rejects traversal (`..`), separators, `@` (the ref separator),
/// and control characters — components end up joined into worktree and
/// cache paths.
pub fn is_valid_component(value: &str) -> (r: bool)
    ensures
        r == spec_valid_component(value@),
{
    component_ok(&chars_of(value))
}

fn ref_ok(v: &Vec<char>) -> (r: bool)
    ensures
        r == spec_valid_ref(v@),
{
    let n = v.len();
    if n == 0 || v[0] == '-' {
        return false;
    }
    for i in 0..n
        invariant
            n == v.len(),
            forall|j: int|
                0 <= j < i ==> #[trigger] v@[j] != '\\' && !text::spec_is_whitespace(v@[j])
                    && !text::spec_is_control(v@[j]),
    {
        let c = v[i];
        if c == '\\' || is_whitespace(c) || is_control(c) {
            return false;
        }
    }
    true
}

/// Splits a trailing `@ref` pin off a string. Components may not contain
/// `@`, so the last `@` is always the separator.
fn split_ref(s: &Vec<char>) -> (r: Result<(Vec<char>, Option<String>), TargetError>)
    ensures
        match (r, spec_split_ref(s@)) {
            (Ok((p, g)), Ok((sp, sg))) => p@ == sp && text::opt_view(g) == sg,
            (Err(e), Err(se)) => e@ == se,
            _ => false,
        },
{
    match rsplit_once(s, '@') {
        Some((path, r)) => {
            if ref_ok(&r) {
                Ok((path, Some(string_from(&r))))
            } else {
                Err(TargetError::InvalidRef(string_from(&r)))
            }
        },
        None => {
            let p = slice_of(s, 0, s.len());
            assert(p@ =~= s@);
            Ok((p, None))
        },
    }
}

fn checked_target(
    host: Option<Vec<char>>,
    org: Option<Vec<char>>,
    repo: Vec<char>,
    git_ref: Option<String>,
) -> (r: Result<ParsedTarget, TargetError>)
    ensures
        target_result_view(r) == spec_checked_target(
            match host {
                Some(h) => Some(h@),
                None => None,
            },
            match org {
                Some(o) => Some(o@),
                None => None,
            },
            repo@,
            text::opt_view(git_ref),
        ),
{
    let host_s = match &host {
        Some(h) => {
            if !component_ok(h) {
                return Err(TargetError::InvalidComponent(Part::Host, string_from(h)));
            }
            Some(string_from(h))
        },
        None => None,
    };
    let org_s = match &org {
        Some(o) => {
            if !component_ok(o) {
                return Err(TargetError::InvalidComponent(Part::Org, string_from(o)));
            }
            Some(string_from(o))
        },
        None => None,
    };
    if !component_ok(&repo) {
        return Err(TargetError::InvalidComponent(Part::Repo, string_from(&repo)));
    }
    let t = ParsedTarget { host: host_s, org: org_s, repo: string_from(&repo), git_ref };
    proof {
        assert(t@.repo =~= repo@);
    }
    Ok(t)
}

fn strip_git(p: Vec<char>) -> (r: Vec<char>)
    ensures
        r@ == spec_strip_git(p@),
{
    let n = p.len();
    if n >= 4 && p[n - 4] == '.' && p[n - 3] == 'g' && p[n - 2] == 'i' && p[n - 1] == 't' {
        assert(p@.skip(n - 4) =~= seq!['.', 'g', 'i', 't']);
        slice_of(&p, 0, n - 4)
    } else {
        assert(!text::spec_ends_with(p@, seq!['.', 'g', 'i', 't'])) by {
            if text::spec_ends_with(p@, seq!['.', 'g', 'i', 't']) {
                assert(p@.skip(n - 4)[0] == p@[n - 4]);
                assert(p@.skip(n - 4)[1] == p@[n - 3]);
                assert(p@.skip(n - 4)[2] == p@[n - 2]);
                assert(p@.skip(n - 4)[3] == p@[n - 1]);
            }
        }
        p
    }
}

/// Parses a target. Three forms (each takes an `@ref` suffix):
///
/// - `repo` — bare, default host and org
/// - `//hostish{/org}:repo` — Bazel-style short; hostish is an alias or a
///   literal host, org defaults when omitted
/// - `git@host:org/repo.git` — a raw scp-style URL, pasteable verbatim
pub fn parse_target(s: &str) -> (r: Result<ParsedTarget, TargetError>)
    ensures
        target_result_view(r) == spec_parse_target(s@),
        r matches Ok(t) ==> spec_wf_target(t@),
{
    let v = chars_of(s);
    let r = parse_chars(&v);
    proof {
        if r is Ok {
            lemma_parsed_target_wf(s@);
        }
    }
    r
}

fn parse_chars(v: &Vec<char>) -> (r: Result<ParsedTarget, TargetError>)
    ensures
        target_result_view(r) == spec_parse_target(v@),
{
    let n = v.len();
    if n >= 2 && v[0] == '/' && v[1] == '/' {
        assert(v@.take(2) =~= seq!['/', '/']);
        let rest = slice_of(v, 2, n);
        assert(rest@ =~= v@.skip(2));
        match split_once(&rest, ':') {
            None => Err(TargetError::MalformedShort(string_from(v))),
            Some((location, repo_part)) => {
                let (repo, git_ref) = match split_ref(&repo_part) {
                    Ok(x) => x,
                    Err(e) => return Err(e),
                };
                match split_once(&location, '/') {
                    None => checked_target(Some(location), None, repo, git_ref),
                    Some((host, org)) => {
                        if contains_char(&org, '/') {
                            Err(TargetError::MalformedShort(string_from(v)))
                        } else {
                            checked_target(Some(host), Some(org), repo, git_ref)
                        }
                    },
                }
            },
        }
    } else {
        assert(!text::spec_starts_with(v@, seq!['/', '/'])) by {
            if text::spec_starts_with(v@, seq!['/', '/']) {
                assert(v@.take(2)[0] == v@[0]);
                assert(v@.take(2)[1] == v@[1]);
            }
        }
        match split_once(v, ':') {
            Some((userhost, path)) => {
                let host = match rsplit_once(&userhost, '@') {
                    Some((_, h)) => h,
                    None => userhost,
                };
                let (p, git_ref) = match split_ref(&path) {
                    Ok(x) => x,
                    Err(e) => return Err(e),
                };
                let p = strip_git(p);
                match split_once(&p, '/') {
                    None => Err(TargetError::MalformedUrl(string_from(v))),
                    Some((org, repo)) => checked_target(Some(host), Some(org), repo, git_ref),
                }
            },
            None => {
                let (repo, git_ref) = match split_ref(v) {
                    Ok(x) => x,
                    Err(e) => return Err(e),
                };
                if contains_char(&repo, '/') {
                    Err(TargetError::MalformedBare(string_from(v)))
                } else {
                    checked_target(None, None, repo, git_ref)
                }
            },
        }
    }
}

/// The shape every successfully parsed target has: valid components, an
/// org only next to a host, a ref without `@`, and — for the bare form — a
/// ref without `:`.
pub open spec fn spec_wf_target(t: TargetView) -> bool {
    &&& t.host is Some ==> spec_valid_component(t.host->0)
    &&& t.org is Some ==> spec_valid_component(t.org->0)
    &&& spec_valid_component(t.repo)
    &&& t.org is Some ==> t.host is Some
    &&& t.git_ref is Some ==> spec_valid_ref(t.git_ref->0) && !t.git_ref->0.contains('@')
    &&& (t.host is None && t.git_ref is Some) ==> !t.git_ref->0.contains(':')
}

/// Resolving fills the empty slots of a target from the configuration and
/// keeps the rest: the host is the configured default host when the target
/// names none, the named host when it holds a dot, and otherwise the host
/// its alias maps to; the org is the configured default org when the
/// target names none; repo and ref are the target's; and the clone URL is
/// `git@<host>:<org>/<repo>.git`. A target without host and org resolves
/// whenever the default host is a usable host and the default org and the
/// repo are valid components.
pub proof fn lemma_resolve_fills_defaults(t: TargetView, config: GlobalConfig)
    ensures
        spec_resolve(t, config) matches Ok(r) ==> {
            &&& t.host is None ==> r.host == config.default_host@
            &&& (t.host is Some && t.host->0.contains('.')) ==> r.host == t.host->0
            &&& (t.host is Some && !t.host->0.contains('.')) ==> config.aliases@.contains_key(
                t.host->0,
            ) && r.host == config.aliases@[t.host->0]@
            &&& t.org is None ==> r.org == config.default_org@
            &&& (t.org matches Some(o) ==> r.org == o)
            &&& r.repo == t.repo
            &&& r.git_ref == t.git_ref
            &&& r.url == seq!['g', 'i', 't', '@'] + r.host + seq![':'] + r.org + seq!['/'] + r.repo
                + seq!['.', 'g', 'i', 't']
        },
        (t.host is None && t.org is None && spec_validate_host(config.default_host@) is Ok
            && spec_valid_component(config.default_org@) && spec_valid_component(t.repo))
            ==> spec_resolve(t, config) is Ok,
{
    reveal_strlit("git@");
    reveal_strlit(".git");
    if spec_resolve(t, config) is Ok {
        let r = spec_resolve(t, config)->Ok_0;
        assert("git@"@ =~= seq!['g', 'i', 't', '@']);
        assert(".git"@ =~= seq!['.', 'g', 'i', 't']);
    }
}

/// A valid component is exactly one normal path segment and cannot escape
/// the path it is joined onto: joined onto any base, it adds one component
/// to the base's, is the file name of the result, and the result's parent
/// is the base.
pub proof fn lemma_valid_component_joins(base: Seq<char>, v: Seq<char>)
    requires
        spec_valid_component(v),
    ensures
        paths::spec_components(paths::spec_join(base, v)) == paths::spec_components(base).push(v),
        paths::spec_components(paths::spec_join(base, v)).len() == paths::spec_components(base).len()
            + 1,
        paths::spec_file_name(paths::spec_join(base, v)) == Some(v),
        paths::spec_parent(paths::spec_join(base, v)) matches Some(p) && paths::spec_components(p)
            == paths::spec_components(base),
{
    lemma_component_free(v);
    paths::lemma_join_segment(base, v);
}

/// A valid component holds no separator and does not start with `/`.
pub proof fn lemma_component_free(s: Seq<char>)
    requires
        spec_valid_component(s),
    ensures
        !s.contains('/'),
        !s.contains(':'),
        !s.contains('@'),
        s[0] != '/',
{
    if s.contains('/') {
        let k = choose|k: int| 0 <= k < s.len() && s[k] == '/';
        assert(spec_forbidden_in_component(s[k]));
    }
    if s.contains(':') {
        let k = choose|k: int| 0 <= k < s.len() && s[k] == ':';
        assert(spec_forbidden_in_component(s[k]));
    }
    if s.contains('@') {
        let k = choose|k: int| 0 <= k < s.len() && s[k] == '@';
        assert(spec_forbidden_in_component(s[k]));
    }
    assert(!spec_forbidden_in_component(s[0]));
}

/// A ref split off by [`spec_split_ref`] is valid and holds no `@`.
pub proof fn lemma_split_ref_wf(x: Seq<char>)
    requires
        spec_split_ref(x) is Ok,
    ensures
        ({
            let (p, g) = spec_split_ref(x)->Ok_0;
            &&& g is Some ==> spec_valid_ref(g->0) && !g->0.contains('@')
            &&& g is Some ==> x == p + seq!['@'] + g->0
            &&& g is None ==> p == x
        }),
{
    text::lemma_rsplit_parts(x, '@');
}

/// Every successfully parsed target is well formed.
pub proof fn lemma_parsed_target_wf(s: Seq<char>)
    requires
        spec_parse_target(s) is Ok,
    ensures
        spec_wf_target(spec_parse_target(s)->Ok_0),
{
    if text::spec_starts_with(s, seq!['/', '/']) {
        let rest = s.skip(2);
        let (location, repo_part) = text::spec_split_once(rest, ':')->0;
        lemma_split_ref_wf(repo_part);
    } else {
        match text::spec_split_once(s, ':') {
            Some((userhost, path)) => {
                lemma_split_ref_wf(path);
            },
            None => {
                text::lemma_split_parts(s, ':');
                lemma_split_ref_wf(s);
                let (p, g) = spec_split_ref(s)->Ok_0;
                if g is Some {
                    text::lemma_concat_contains(p + seq!['@'], g->0, ':');
                }
            },
        }
    }
}

/// The repo part of a rendered target splits back into repo and ref.
proof fn lemma_repo_part_splits(t: TargetView)
    requires
        spec_wf_target(t),
    ensures
        spec_split_ref(spec_repo_part(t)) == Ok::<(Seq<char>, Option<Seq<char>>), TargetErrorView>(
            (t.repo, t.git_ref),
        ),
{
    lemma_component_free(t.repo);
    match t.git_ref {
        Some(r) => {
            text::lemma_rsplit_concat(t.repo, '@', r);
        },
        None => {
            text::lemma_rsplit_parts(t.repo, '@');
        },
    }
}

/// `repo` or `repo@ref`.
pub open spec fn spec_repo_part(t: TargetView) -> Seq<char> {
    match t.git_ref {
        Some(r) => t.repo + seq!['@'] + r,
        None => t.repo,
    }
}

#[verifier::spinoff_prover]
proof fn lemma_render_parse_hosted(t: TargetView)
    requires
        spec_wf_target(t),
        t.host is Some,
    ensures
        spec_parse_target(target::spec_render(t)) == Ok::<TargetView, TargetErrorView>(t),
{
    let h = t.host->0;
    let repo_part = spec_repo_part(t);
    lemma_repo_part_splits(t);
    lemma_component_free(h);
    let location = match t.org {
        Some(o) => h + seq!['/'] + o,
        None => h,
    };
    assert(!location.contains(':')) by {
        match t.org {
            Some(o) => {
                lemma_component_free(o);
                text::lemma_concat_contains(h, seq!['/'], ':');
                text::lemma_concat_contains(h + seq!['/'], o, ':');
            },
            None => {},
        }
    }
    let s = target::spec_render(t);
    let rest = location + seq![':'] + repo_part;
    assert(s =~= seq!['/', '/'] + rest);
    assert(text::spec_starts_with(s, seq!['/', '/'])) by {
        assert(s.take(2) =~= seq!['/', '/']);
    }
    assert(s.skip(2) =~= rest);
    text::lemma_split_concat(location, ':', repo_part);
    match t.org {
        Some(o) => {
            lemma_component_free(o);
            text::lemma_split_concat(h, '/', o);
        },
        None => {
            text::lemma_split_parts(h, '/');
        },
    }
}

#[verifier::spinoff_prover]
proof fn lemma_render_parse_bare(t: TargetView)
    requires
        spec_wf_target(t),
        t.host is None,
    ensures
        spec_parse_target(target::spec_render(t)) == Ok::<TargetView, TargetErrorView>(t),
{
    lemma_component_free(t.repo);
    lemma_repo_part_splits(t);
    let s = target::spec_render(t);
    assert(s == spec_repo_part(t));
    assert(!text::spec_starts_with(s, seq!['/', '/'])) by {
        assert(s[0] == t.repo[0]);
        if text::spec_starts_with(s, seq!['/', '/']) {
            assert(s.take(2)[0] == s[0]);
        }
    }
    assert(!s.contains(':')) by {
        match t.git_ref {
            Some(r) => {
                text::lemma_concat_contains(t.repo, seq!['@'], ':');
                text::lemma_concat_contains(t.repo + seq!['@'], r, ':');
            },
            None => {},
        }
    }
    text::lemma_split_parts(s, ':');
}

/// Rendering a well-formed target and parsing the result gives the target
/// back: the display form is a faithful spelling of every target the parser
/// produces.
pub proof fn lemma_render_parse_roundtrip(t: TargetView)
    requires
        spec_wf_target(t),
    ensures
        spec_parse_target(target::spec_render(t)) == Ok::<TargetView, TargetErrorView>(t),
{
    if t.host is Some {
        lemma_render_parse_hosted(t);
    } else {
        lemma_render_parse_bare(t);
    }
}

/// Parsing is idempotent through rendering: a parsed target, rendered and
/// parsed again, is the same target.
pub proof fn lemma_parse_render_parse(s: Seq<char>)
    requires
        spec_parse_target(s) is Ok,
    ensures
        spec_parse_target(target::spec_render(spec_parse_target(s)->Ok_0)) == spec_parse_target(s),
{
    lemma_parsed_target_wf(s);
    lemma_render_parse_roundtrip(spec_parse_target(s)->Ok_0);
}

/// A target resolved against the global config: the clone URL plus the
/// host/org/repo coordinates. The identity string (`host/org/repo`) doubles
/// as the cache path and the src/ path — one dialect everywhere.
#[derive(Debug, Clone, PartialEq, Eq)]
pub struct ResolvedRepo {
    pub url: String,
    pub host: String,
    pub org: String,
    pub repo: String,
    pub git_ref: Option<String>,
}

pub struct ResolvedView {
    pub url: Seq<char>,
    pub host: Seq<char>,
    pub org: Seq<char>,
    pub repo: Seq<char>,
    pub git_ref: Option<Seq<char>>,
}

impl View for ResolvedRepo {
    type V = ResolvedView;

    open spec fn view(&self) -> ResolvedView {
        ResolvedView {
            url: self.url@,
            host: self.host@,
            org: self.org@,
            repo: self.repo@,
            git_ref: text::opt_view(self.git_ref),
        }
    }
}

/// `host/org/repo`.
pub open spec fn spec_identity(host: Seq<char>, org: Seq<char>, repo: Seq<char>) -> Seq<char> {
    host + seq!['/'] + org + seq!['/'] + repo
}

/// The scp-style SSH clone URL, `git@host:org/repo.git`.
pub open spec fn spec_url(host: Seq<char>, org: Seq<char>, repo: Seq<char>) -> Seq<char> {
    "git@"@ + host + seq![':'] + org + seq!['/'] + repo + ".git"@
}

/// `<cache>/<host>/<org>/<repo>`.
pub open spec fn spec_cache_path(
    cache_dir: Seq<char>,
    host: Seq<char>,
    org: Seq<char>,
    repo: Seq<char>,
) -> Seq<char> {
    paths::spec_join(paths::spec_join(paths::spec_join(cache_dir, host), org), repo)
}

/// A host must be a bare hostname: no transport (`@`, `:`), at least one
/// dot, and a valid component.
pub open spec fn spec_validate_host(host: Seq<char>) -> Result<(), TargetErrorView> {
    if host.contains('@') || host.contains(':') {
        Err(TargetErrorView::TransportHost(host))
    } else if !host.contains('.') {
        Err(TargetErrorView::HostWithoutDot(host))
    } else {
        spec_check_component(host, Part::Host)
    }
}

/// The host a target resolves to: the default host when the slot is empty,
/// the slot itself when it holds a dot, otherwise the alias it names.
pub open spec fn spec_resolve_host(t: TargetView, config: GlobalConfig) -> Result<
    Seq<char>,
    TargetErrorView,
> {
    match t.host {
        None => Ok(config.default_host@),
        Some(h) => if h.contains('.') {
            Ok(h)
        } else if config.aliases@.contains_key(h) {
            Ok(config.aliases@[h]@)
        } else {
            Err(TargetErrorView::UnknownAlias(h))
        },
    }
}

/// What resolving a parsed target against the configuration gives.
pub open spec fn spec_resolve(t: TargetView, config: GlobalConfig) -> Result<
    ResolvedView,
    TargetErrorView,
> {
    match spec_resolve_host(t, config) {
        Err(e) => Err(e),
        Ok(host) => {
            let org = match t.org {
                Some(o) => o,
                None => config.default_org@,
            };
            match spec_validate_host(host) {
                Err(e) => Err(e),
                Ok(_) => if !spec_valid_component(org) {
                    Err(TargetErrorView::InvalidComponent(Part::Org, org))
                } else if !spec_valid_component(t.repo) {
                    Err(TargetErrorView::InvalidComponent(Part::Repo, t.repo))
                } else {
                    Ok(
                        ResolvedView {
                            url: spec_url(host, org, t.repo),
                            host,
                            org,
                            repo: t.repo,
                            git_ref: t.git_ref,
                        },
                    )
                },
            }
        },
    }
}

pub open spec fn resolved_result_view(r: Result<ResolvedRepo, TargetError>) -> Result<
    ResolvedView,
    TargetErrorView,
> {
    match r {
        Ok(x) => Ok(x@),
        Err(e) => Err(e@),
    }
}

impl ResolvedRepo {
    /// The canonical identity string, `host/org/repo`. Recorded in manifests
    /// instead of URLs so a space definition is portable across machines
    /// whose transport differs.
    pub fn identity(&self) -> (r: String)
        ensures
            r@ == spec_identity(self.host@, self.org@, self.repo@),
    {
        let mut r = String::new();
        push_str(&mut r, self.host.as_str());
        push_char(&mut r, '/');
        push_str(&mut r, self.org.as_str());
        push_char(&mut r, '/');
        push_str(&mut r, self.repo.as_str());
        assert(r@ =~= spec_identity(self.host@, self.org@, self.repo@));
        r
    }

    /// Bare repos are cached at `<cache>/<host>/<org>/<repo>` — the identity
    /// verbatim.
    pub fn cache_path(&self, cache_dir: &str) -> (r: String)
        ensures
            r@ == spec_cache_path(cache_dir@, self.host@, self.org@, self.repo@),
    {
        let a = join_path(cache_dir, self.host.as_str());
        let b = join_path(a.as_str(), self.org.as_str());
        join_path(b.as_str(), self.repo.as_str())
    }
}

fn validate_host(host: &Vec<char>) -> (r: Result<(), TargetError>)
    ensures
        match (r, spec_validate_host(host@)) {
            (Ok(_), Ok(_)) => true,
            (Err(e), Err(se)) => e@ == se,
            _ => false,
        },
{
    if contains_char(host, '@') || contains_char(host, ':') {
        return Err(TargetError::TransportHost(string_from(host)));
    }
    if !contains_char(host, '.') {
        return Err(TargetError::HostWithoutDot(string_from(host)));
    }
    if !component_ok(host) {
        return Err(TargetError::InvalidComponent(Part::Host, string_from(host)));
    }
    Ok(())
}

/// Resolves a ParsedTarget into a clone URL and cache coordinates.
/// A host slot with a dot is a literal host; without a dot it is looked up
/// in the config's aliases.
pub fn resolve(target: &ParsedTarget, config: &GlobalConfig) -> (r: Result<ResolvedRepo, TargetError>)
    ensures
        resolved_result_view(r) == spec_resolve(target@, *config),
{
    let host: String = match &target.host {
        None => config.default_host.clone(),
        Some(h) => {
            if contains_char(&chars_of(h.as_str()), '.') {
                h.clone()
            } else {
                match config.aliases.get(h.as_str()) {
                    Some(v) => v.clone(),
                    None => return Err(TargetError::UnknownAlias(h.clone())),
                }
            }
        },
    };
    let org: String = match &target.org {
        Some(o) => o.clone(),
        None => config.default_org.clone(),
    };
    let hv = chars_of(host.as_str());
    match validate_host(&hv) {
        Ok(_) => {},
        Err(e) => return Err(e),
    }
    if !component_ok(&chars_of(org.as_str())) {
        return Err(TargetError::InvalidComponent(Part::Org, org));
    }
    if !component_ok(&chars_of(target.repo.as_str())) {
        return Err(TargetError::InvalidComponent(Part::Repo, target.repo.clone()));
    }
    // SSH scp-style only for now; `.git` belongs to the URL, never to
    // the identity.
    let mut url = String::new();
    push_str(&mut url, "git@");
    push_str(&mut url, host.as_str());
    push_char(&mut url, ':');
    push_str(&mut url, org.as_str());
    push_char(&mut url, '/');
    push_str(&mut url, target.repo.as_str());
    push_str(&mut url, ".git");
    assert(url@ =~= spec_url(host@, org@, target.repo@));
    let git_ref = match &target.git_ref {
        Some(g) => Some(g.clone()),
        None => None,
    };
    Ok(ResolvedRepo { url, host, org, repo: target.repo.clone(), git_ref })
}

/// Where a repo is cached is its identity joined under the cache directory:
/// `cache_path` (used when cloning) and `cache_dir.join(identity)` (used
/// when the manifest is read back) name the same place.
pub proof fn lemma_cache_path_is_identity(
    cache_dir: Seq<char>,
    host: Seq<char>,
    org: Seq<char>,
    repo: Seq<char>,
)
    requires
        spec_valid_component(host),
        spec_valid_component(org),
        spec_valid_component(repo),
    ensures
        spec_cache_path(cache_dir, host, org, repo) == paths::spec_join(
            cache_dir,
            spec_identity(host, org, repo),
        ),
{
    lemma_component_free(host);
    lemma_component_free(org);
    lemma_component_free(repo);
    let a = paths::spec_join(cache_dir, host);
    assert(a.last() == host.last()) by {
        assert(host.contains(host.last())) by {
            assert(host[host.len() - 1] == host.last());
        }
    }
    assert(host.last() != '/');
    let b = paths::spec_join(a, org);
    assert(b =~= a + seq!['/'] + org);
    assert(b.last() == org.last());
    assert(org.contains(org.last())) by {
        assert(org[org.len() - 1] == org.last());
    }
    let id = spec_identity(host, org, repo);
    assert(id[0] == host[0]);
    if cache_dir.len() == 0 || cache_dir.last() == '/' {
        assert(spec_cache_path(cache_dir, host, org, repo) =~= cache_dir + id);
    } else {
        assert(spec_cache_path(cache_dir, host, org, repo) =~= cache_dir + seq!['/'] + id);
    }
}

/// An scp-style URL pasted from a clone button resolves back to itself:
/// parsing `git@host:org/repo.git` and resolving the result gives that very
/// URL, with the same host, org and repo.
pub proof fn lemma_raw_url_roundtrip(
    host: Seq<char>,
    org: Seq<char>,
    repo: Seq<char>,
    config: GlobalConfig,
)
    requires
        spec_valid_component(host),
        host.contains('.'),
        spec_valid_component(org),
        spec_valid_component(repo),
    ensures
        spec_parse_target(spec_url(host, org, repo)) is Ok,
        spec_resolve(spec_parse_target(spec_url(host, org, repo))->Ok_0, config) == Ok::<
            ResolvedView,
            TargetErrorView,
        >(
            ResolvedView {
                url: spec_url(host, org, repo),
                host,
                org,
                repo,
                git_ref: None,
            },
        ),
{
    reveal_strlit("git@");
    reveal_strlit(".git");
    lemma_component_free(host);
    lemma_component_free(org);
    lemma_component_free(repo);
    let git_at: Seq<char> = seq!['g', 'i', 't'];
    let dot_git: Seq<char> = seq!['.', 'g', 'i', 't'];
    assert("git@"@ =~= git_at + seq!['@']);
    assert(".git"@ =~= dot_git);
    let s = spec_url(host, org, repo);
    let userhost = git_at + seq!['@'] + host;
    let path = org + seq!['/'] + repo + dot_git;
    assert(s =~= userhost + seq![':'] + path);
    assert(!text::spec_starts_with(s, seq!['/', '/'])) by {
        assert(s[0] == 'g');
        if text::spec_starts_with(s, seq!['/', '/']) {
            assert(s.take(2)[0] == s[0]);
        }
    }
    assert(!userhost.contains(':')) by {
        assert(!git_at.contains(':')) by {
            if git_at.contains(':') {
                let k = choose|k: int| 0 <= k < git_at.len() && git_at[k] == ':';
                assert(git_at[k] == 'g' || git_at[k] == 'i' || git_at[k] == 't');
            }
        }
        text::lemma_concat_contains(git_at, seq!['@'], ':');
        text::lemma_concat_contains(git_at + seq!['@'], host, ':');
    }
    text::lemma_split_concat(userhost, ':', path);
    text::lemma_rsplit_concat(git_at, '@', host);
    assert(!path.contains('@')) by {
        assert(!dot_git.contains('@')) by {
            if dot_git.contains('@') {
                let k = choose|k: int| 0 <= k < dot_git.len() && dot_git[k] == '@';
                assert(dot_git[k] == '.' || dot_git[k] == 'g' || dot_git[k] == 'i' || dot_git[k]
                    == 't');
            }
        }
        text::lemma_concat_contains(org, seq!['/'], '@');
        text::lemma_concat_contains(org + seq!['/'], repo, '@');
        text::lemma_concat_contains(org + seq!['/'] + repo, dot_git, '@');
    }
    text::lemma_rsplit_parts(path, '@');
    assert(spec_strip_git(path) =~= org + seq!['/'] + repo) by {
        assert(path.skip(path.len() - 4) =~= dot_git);
    }
    text::lemma_split_concat(org, '/', repo);
    assert(!host.contains('@') && !host.contains(':'));
}

} // verus!
