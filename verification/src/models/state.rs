//! Per-space, per-machine state (`<space>/.myspace/state.toml`). Kept apart
//! from the manifest deliberately: which branch *this machine's* IDE is
//! viewing is not part of the shareable space definition, and the file is
//! gitignored by the managed block.
use vstd::prelude::*;
use crate::text;

verus! {

pub struct SpaceState {
    /// Current canonical view: None = trunk, Some(name) = that branch set.
    pub view: Option<String>,
}

impl Default for SpaceState {
    fn default() -> (r: Self)
        ensures
            r.view is None,
    {
        SpaceState { view: None }
    }
}

/// The name a view is reported under: `trunk`, or the branch set's name.
pub open spec fn spec_view_label(view: Option<Seq<char>>) -> Seq<char> {
    match view {
        Some(v) => v,
        None => "trunk"@,
    }
}

impl SpaceState {
    /// The view this space shows, as reported to users.
    pub fn view_label(&self) -> (r: String)
        ensures
            r@ == spec_view_label(text::opt_view(self.view)),
    {
        match &self.view {
            Some(v) => v.clone(),
            None => String::from_str("trunk"),
        }
    }

    /// Whether the space is viewing the branch set `name`.
    pub fn is_viewing(&self, name: &str) -> (r: bool)
        ensures
            r == (self.view is Some && self.view->0@ == name@),
    {
        match &self.view {
            Some(v) => text::str_eq(v.as_str(), name),
            None => false,
        }
    }
}

} // verus!
