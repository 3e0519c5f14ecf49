//! A parsed target string.
use vstd::prelude::*;
use crate::text::{self, push_char, push_str};

verus! {

/// A parsed target string. Three forms:
///
/// - bare:  `repo` — default host and org
/// - short: `//hostish{/org}:repo` — Bazel-style; `hostish` is an alias
///   (`//gh/apache:impala`) or a literal host (`//ghe.example.com:tool`),
///   org defaults when omitted
/// - full:  a raw scp-style git URL, `git@host:org/repo.git`, pasteable
///   straight from a clone button
///
/// Any form may carry an `@ref` pin suffix.
#[derive(Debug, Clone, PartialEq, Eq)]
pub struct ParsedTarget {
    /// Host slot — alias or literal host, unresolved.
    pub host: Option<String>,
    pub org: Option<String>,
    pub repo: String,
    /// Optional `@ref` pin (tag, branch, or SHA).
    pub git_ref: Option<String>,
}

/// The characters of a parsed target.
pub struct TargetView {
    pub host: Option<Seq<char>>,
    pub org: Option<Seq<char>>,
    pub repo: Seq<char>,
    pub git_ref: Option<Seq<char>>,
}

impl View for ParsedTarget {
    type V = TargetView;

    open spec fn view(&self) -> TargetView {
        TargetView {
            host: text::opt_view(self.host),
            org: text::opt_view(self.org),
            repo: self.repo@,
            git_ref: text::opt_view(self.git_ref),
        }
    }
}

/// The display form of a target: `//host/org:repo`, `//host:repo`,
/// `//org:repo` or `repo`, followed by `@ref` when pinned.
pub open spec fn spec_render(t: TargetView) -> Seq<char> {
    let base = match (t.host, t.org) {
        (Some(h), Some(o)) => seq!['/', '/'] + h + seq!['/'] + o + seq![':'] + t.repo,
        (Some(h), None) => seq!['/', '/'] + h + seq![':'] + t.repo,
        (None, Some(o)) => seq!['/', '/'] + o + seq![':'] + t.repo,
        (None, None) => t.repo,
    };
    match t.git_ref {
        Some(r) => base + seq!['@'] + r,
        None => base,
    }
}

impl ParsedTarget {
    /// The display form of the target (see [`spec_render`]).
    pub fn display_string(&self) -> (r: String)
        ensures
            r@ == spec_render(self@),
    {
        let mut r = String::new();
        match (&self.host, &self.org) {
            (Some(h), Some(o)) => {
                push_char(&mut r, '/');
                push_char(&mut r, '/');
                push_str(&mut r, h.as_str());
                push_char(&mut r, '/');
                push_str(&mut r, o.as_str());
                push_char(&mut r, ':');
            },
            (Some(h), None) => {
                push_char(&mut r, '/');
                push_char(&mut r, '/');
                push_str(&mut r, h.as_str());
                push_char(&mut r, ':');
            },
            (None, Some(o)) => {
                push_char(&mut r, '/');
                push_char(&mut r, '/');
                push_str(&mut r, o.as_str());
                push_char(&mut r, ':');
            },
            (None, None) => {},
        }
        push_str(&mut r, self.repo.as_str());
        match &self.git_ref {
            Some(g) => {
                push_char(&mut r, '@');
                push_str(&mut r, g.as_str());
            },
            None => {},
        }
        proof {
            let t = self@;
            match (t.host, t.org) {
                (Some(h), Some(o)) => {
                    assert(seq!['/', '/'] + h + seq!['/'] + o + seq![':'] + t.repo
                        =~= seq![].push('/').push('/') + h + seq!['/'] + o + seq![':'] + t.repo);
                },
                _ => {},
            }
        }
        assert(r@ =~= spec_render(self@));
        r
    }
}

} // verus!
