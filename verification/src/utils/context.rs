//! Finding the space that encloses a directory.
use vstd::prelude::*;
use crate::text;
use crate::utils::paths::{self, parent};

verus! {

/// The parent of a path is shorter than the path.
pub proof fn lemma_parent_shorter(p: Seq<char>)
    ensures
        paths::spec_parent(p) matches Some(q) ==> q.len() < p.len(),
{
    text::lemma_rsplit_parts(p, '/');
    if p.len() > 0 && p != seq!['/'] {
        if let Some((before, after)) = text::spec_rsplit_once(p, '/') {
            if before.len() == 0 {
                assert(after.len() > 0) by {
                    if after.len() == 0 {
                        assert(p =~= seq!['/']);
                    }
                }
            }
        }
    }
}

/// `start` followed by each of its ancestors, nearest first.
pub open spec fn spec_ancestors(p: Seq<char>) -> Seq<Seq<char>>
    decreases p.len(),
{
    match paths::spec_parent(p) {
        Some(q) => {
            proof {
                lemma_parent_shorter(p);
            }
            seq![p] + spec_ancestors(q)
        },
        None => seq![p],
    }
}

/// The directories searched for a space marker: `start`, then each
/// ancestor up to the filesystem root.
pub fn workspace_candidates(start: &str) -> (r: Vec<String>)
    ensures
        r@.map_values(|s: String| s@) == spec_ancestors(start@),
{
    let mut r: Vec<String> = Vec::new();
    let mut cur = String::from_str(start);
    loop
        invariant
            r@.map_values(|s: String| s@) + spec_ancestors(cur@) == spec_ancestors(start@),
        decreases cur@.len(),
    {
        let next = parent(cur.as_str());
        let ghost c = cur@;
        proof {
            lemma_parent_shorter(c);
        }
        r.push(cur);
        match next {
            Some(q) => {
                assert(spec_ancestors(c) == seq![c] + spec_ancestors(q@));
                assert(r@.map_values(|s: String| s@) =~= r@.drop_last().map_values(|s: String| s@).push(c));
                cur = q;
            },
            None => {
                assert(spec_ancestors(c) == seq![c]);
                assert(r@.map_values(|s: String| s@) =~= r@.drop_last().map_values(|s: String| s@).push(c));
                return r;
            },
        }
    }
}

/// The first candidate (nearest first) holding a `.myspace/config.toml`
/// marker, given for each candidate of `start` whether it holds one.
pub open spec fn spec_first_marked(cands: Seq<Seq<char>>, marked: Seq<bool>) -> Option<Seq<char>>
    decreases cands.len(),
{
    if cands.len() == 0 || marked.len() == 0 {
        None
    } else if marked[0] {
        Some(cands[0])
    } else {
        spec_first_marked(cands.drop_first(), marked.drop_first())
    }
}

/// The first candidate is the start directory itself.
pub proof fn lemma_ancestors_start(p: Seq<char>)
    ensures
        spec_ancestors(p).len() > 0,
        spec_ancestors(p)[0] == p,
{
}

/// The chosen candidate is the nearest marked one: the candidate at the
/// least position whose marker is present, the start directory (position
/// 0) included; there is none exactly when no candidate is marked.
pub proof fn lemma_first_marked_is_nearest(cands: Seq<Seq<char>>, marked: Seq<bool>)
    requires
        marked.len() == cands.len(),
    ensures
        spec_first_marked(cands, marked) matches Some(c) ==> exists|i: int|
            0 <= i < cands.len() && marked[i] && cands[i] == c && forall|j: int|
                0 <= j < i ==> !#[trigger] marked[j],
        spec_first_marked(cands, marked) is None <==> forall|i: int|
            0 <= i < cands.len() ==> !#[trigger] marked[i],
        cands.len() > 0 && marked[0] ==> spec_first_marked(cands, marked) == Some(cands[0]),
    decreases cands.len(),
{
    if cands.len() > 0 && !marked[0] {
        let c1 = cands.drop_first();
        let m1 = marked.drop_first();
        lemma_first_marked_is_nearest(c1, m1);
        if spec_first_marked(c1, m1) is Some {
            let i = choose|i: int|
                0 <= i < c1.len() && m1[i] && c1[i] == spec_first_marked(c1, m1)->0 && forall|j: int|
                    0 <= j < i ==> !#[trigger] m1[j];
            assert(marked[i + 1] && cands[i + 1] == c1[i]);
            assert forall|j: int| 0 <= j < i + 1 implies !#[trigger] marked[j] by {
                if j > 0 {
                    assert(marked[j] == m1[j - 1]);
                }
            }
        } else {
            assert forall|i: int| 0 <= i < cands.len() implies !#[trigger] marked[i] by {
                if i > 0 {
                    assert(marked[i] == m1[i - 1]);
                }
            }
        }
        if forall|i: int| 0 <= i < cands.len() ==> !#[trigger] marked[i] {
            assert forall|i: int| 0 <= i < c1.len() implies !#[trigger] m1[i] by {
                assert(m1[i] == marked[i + 1]);
            }
        }
    }
}

/// Run from a space root, discovery finds that very space.
pub proof fn lemma_root_finds_itself(start: Seq<char>, marked: Seq<bool>)
    requires
        marked.len() == spec_ancestors(start).len(),
        marked[0],
    ensures
        spec_first_marked(spec_ancestors(start), marked) == Some(start),
{
    lemma_ancestors_start(start);
    lemma_first_marked_is_nearest(spec_ancestors(start), marked);
}

/// Detects whether `start` is inside a space: the nearest of `start` and its
/// ancestors whose marker exists, where `marked[i]` tells whether the `i`-th
/// candidate (see [`workspace_candidates`]) holds a `.myspace/config.toml`.
pub fn find_workspace_root(start: &str, marked: &Vec<bool>) -> (r: Option<String>)
    requires
        marked.len() == spec_ancestors(start@).len(),
    ensures
        text::opt_view(r) == spec_first_marked(spec_ancestors(start@), marked@),
{
    let cands = workspace_candidates(start);
    let ghost all = spec_ancestors(start@);
    let mut i: usize = 0;
    assert(all.skip(0) =~= all);
    assert(all.len() == cands@.len());
    assert(marked@.skip(0) =~= marked@);
    while i < cands.len()
        invariant
            cands@.map_values(|s: String| s@) == all,
            all == spec_ancestors(start@),
            marked.len() == all.len(),
            i <= cands.len(),
            spec_first_marked(all, marked@) == spec_first_marked(all.skip(i as int), marked@.skip(i as int)),
        decreases cands.len() - i,
    {
        assert(all.skip(i as int)[0] == cands@[i as int]@);
        assert(marked@.skip(i as int)[0] == marked@[i as int]);
        if marked[i] {
            assert(all.skip(i as int).len() > 0 && marked@.skip(i as int).len() > 0);
            let r = cands[i].clone();
            assert(spec_first_marked(all.skip(i as int), marked@.skip(i as int)) == Some(r@));
            return Some(r);
        }
        assert(all.skip(i as int).drop_first() =~= all.skip(i + 1));
        assert(marked@.skip(i as int).drop_first() =~= marked@.skip(i + 1));
        i = i + 1;
    }
    None
}

} // verus!
