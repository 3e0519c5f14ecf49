//! A best-effort list of known space roots (`~/.myspace/spaces.toml`), kept
//! so `sync --all`/`status --all` can find spaces without scanning the disk.
//! It is advisory, never authoritative: entries are verified against the
//! on-disk `.myspace/config.toml` marker on read and pruned when stale, so
//! hand-moved or hand-deleted spaces cannot poison anything.
use vstd::prelude::*;
use crate::order::Rel;
use crate::utils::paths::{self, compare_paths};
use crate::text;

verus! {

/// The registered space roots (normalized paths).
pub struct Registry {
    pub spaces: Vec<String>,
}

pub open spec fn paths_view(v: Seq<String>) -> Seq<Seq<char>> {
    v.map_values(|s: String| s@)
}

/// Sorted in path order (as `PathBuf`s sort); repeats allowed.
pub open spec fn spec_sorted_paths(s: Seq<Seq<char>>) -> bool {
    forall|i: int, j: int|
        0 <= i < j < s.len() ==> !paths::spec_path_lt(#[trigger] s[j], #[trigger] s[i])
}

/// `s` lists a path equal to `x` (as `PathBuf`s compare: by components).
pub open spec fn spec_lists(s: Seq<Seq<char>>, x: Seq<char>) -> bool {
    exists|i: int| 0 <= i < s.len() && paths::spec_path_eq(#[trigger] s[i], x)
}

/// Where a stable insertion puts `x` into `s`: before the first entry that
/// sorts strictly after it.
pub open spec fn spec_first_greater(s: Seq<Seq<char>>, x: Seq<char>) -> int
    decreases s.len(),
{
    if s.len() == 0 || paths::spec_path_lt(x, s[0]) {
        0
    } else {
        1 + spec_first_greater(s.drop_first(), x)
    }
}

/// The stable sort of `s` in path order (what `Vec::sort` on `PathBuf`s
/// gives): each entry inserted after every entry that does not sort after
/// it.
pub open spec fn spec_sort(s: Seq<Seq<char>>) -> Seq<Seq<char>>
    decreases s.len(),
{
    if s.len() == 0 {
        Seq::empty()
    } else {
        let r = spec_sort(s.drop_last());
        r.insert(spec_first_greater(r, s.last()), s.last())
    }
}

/// The entries of `s` whose flag is set, in order.
pub open spec fn spec_keep(s: Seq<Seq<char>>, flags: Seq<bool>) -> Seq<Seq<char>>
    decreases s.len(),
{
    if s.len() == 0 || flags.len() == 0 {
        Seq::empty()
    } else {
        let rest = spec_keep(s.drop_last(), flags.drop_last());
        if flags.last() {
            rest.push(s.last())
        } else {
            rest
        }
    }
}

/// The positions whose flag is set, in increasing order.
pub open spec fn spec_live_indices(flags: Seq<bool>) -> Seq<int>
    decreases flags.len(),
{
    if flags.len() == 0 {
        Seq::empty()
    } else {
        let r = spec_live_indices(flags.drop_last());
        if flags.last() {
            r.push(flags.len() - 1)
        } else {
            r
        }
    }
}

/// Keeping the live spaces keeps exactly the entries whose flag is set, in
/// their order: the `k`-th entry kept is the entry at the `k`-th position
/// whose flag is set, those positions increase, each of them is flagged,
/// and every flagged position is among them.
pub proof fn lemma_keep_selects_live(s: Seq<Seq<char>>, flags: Seq<bool>)
    requires
        flags.len() == s.len(),
    ensures
        ({
            let idx = spec_live_indices(flags);
            let kept = spec_keep(s, flags);
            &&& kept.len() == idx.len()
            &&& forall|k: int|
                0 <= k < idx.len() ==> 0 <= #[trigger] idx[k] < s.len() && flags[idx[k]] && kept[k]
                    == s[idx[k]]
            &&& forall|k: int, l: int| 0 <= k < l < idx.len() ==> #[trigger] idx[k] < #[trigger] idx[l]
            &&& forall|i: int| 0 <= i < s.len() && #[trigger] flags[i] ==> idx.contains(i)
        }),
    decreases s.len(),
{
    if s.len() > 0 {
        let s0 = s.drop_last();
        let f0 = flags.drop_last();
        lemma_keep_selects_live(s0, f0);
        let idx0 = spec_live_indices(f0);
        let n = s.len() - 1;
        assert forall|i: int| 0 <= i < s.len() && #[trigger] flags[i] implies spec_live_indices(
            flags,
        ).contains(i) by {
            if i < n {
                assert(f0[i] == flags[i]);
                assert(idx0.contains(i));
                let k = choose|k: int| 0 <= k < idx0.len() && idx0[k] == i;
                if flags.last() {
                    assert(idx0.push(n)[k] == i);
                }
            } else {
                assert(idx0.push(n)[idx0.len() as int] == n);
            }
        }
        assert forall|k: int| 0 <= k < spec_live_indices(flags).len() implies 0
            <= #[trigger] spec_live_indices(flags)[k] < s.len() && flags[spec_live_indices(flags)[k]]
            && spec_keep(s, flags)[k] == s[spec_live_indices(flags)[k]] by {
            if k < idx0.len() {
                assert(f0[idx0[k]] == flags[idx0[k]]);
                assert(s0[idx0[k]] == s[idx0[k]]);
            }
        }
    }
}

/// The entries of `s` that are not equal to `x` as paths, in order.
pub open spec fn spec_without(s: Seq<Seq<char>>, x: Seq<char>) -> Seq<Seq<char>>
    decreases s.len(),
{
    if s.len() == 0 {
        Seq::empty()
    } else {
        let rest = spec_without(s.drop_last(), x);
        if !paths::spec_path_eq(s.last(), x) {
            rest.push(s.last())
        } else {
            rest
        }
    }
}

/// What is left without `x`: the entries that are not equal to it as
/// paths.
pub proof fn lemma_without_contains(s: Seq<Seq<char>>, x: Seq<char>)
    ensures
        forall|p: Seq<char>|
            #[trigger] spec_without(s, x).contains(p) <==> (s.contains(p) && !paths::spec_path_eq(
                p,
                x,
            )),
        !spec_lists(spec_without(s, x), x),
    decreases s.len(),
{
    if s.len() > 0 {
        let init = s.drop_last();
        lemma_without_contains(init, x);
        let rest = spec_without(init, x);
        let l = s.last();
        assert forall|p: Seq<char>| #[trigger] spec_without(s, x).contains(p) <==> (s.contains(p)
            && !paths::spec_path_eq(p, x)) by {
            if s.contains(p) && !init.contains(p) {
                let k = choose|k: int| 0 <= k < s.len() && s[k] == p;
                if k < init.len() {
                    assert(init[k] == p);
                }
                assert(l == p);
                assert(rest.push(p)[rest.len() as int] == p);
            }
            if init.contains(p) {
                let k = choose|k: int| 0 <= k < init.len() && init[k] == p;
                assert(s[k] == p);
            }
            if spec_without(s, x).contains(p) && !paths::spec_path_eq(l, x) {
                let k = choose|k: int| 0 <= k < rest.len() + 1 && rest.push(l)[k] == p;
                if k < rest.len() {
                    assert(rest[k] == p);
                } else {
                    assert(s[s.len() - 1] == p);
                }
            }
            if rest.contains(p) && !paths::spec_path_eq(l, x) {
                let k = choose|k: int| 0 <= k < rest.len() && rest[k] == p;
                assert(rest.push(l)[k] == p);
            }
        }
    }
    if spec_lists(spec_without(s, x), x) {
        let w = spec_without(s, x);
        let i = choose|i: int| 0 <= i < w.len() && paths::spec_path_eq(#[trigger] w[i], x);
        assert(w.contains(w[i]));
    }
}

/// Leaving out `x` distributes over concatenation.
proof fn lemma_without_append(a: Seq<Seq<char>>, b: Seq<Seq<char>>, x: Seq<char>)
    ensures
        spec_without(a + b, x) == spec_without(a, x) + spec_without(b, x),
    decreases b.len(),
{
    if b.len() == 0 {
        assert(a + b =~= a);
        assert(spec_without(a, x) + spec_without(b, x) =~= spec_without(a, x));
    } else {
        assert((a + b).drop_last() =~= a + b.drop_last());
        assert((a + b).last() == b.last());
        lemma_without_append(a, b.drop_last(), x);
        let wa = spec_without(a, x);
        let wb = spec_without(b.drop_last(), x);
        assert((wa + wb).push(b.last()) =~= wa + wb.push(b.last()));
    }
}

/// Without any entry equal to `x`, leaving `x` out changes nothing.
proof fn lemma_without_none(s: Seq<Seq<char>>, x: Seq<char>)
    requires
        !spec_lists(s, x),
    ensures
        spec_without(s, x) == s,
    decreases s.len(),
{
    if s.len() > 0 {
        let init = s.drop_last();
        assert(!spec_lists(init, x)) by {
            if spec_lists(init, x) {
                let i = choose|i: int| 0 <= i < init.len() && paths::spec_path_eq(#[trigger] init[i], x);
                assert(s[i] == init[i]);
            }
        }
        lemma_without_none(init, x);
        assert(!paths::spec_path_eq(s[s.len() - 1], x));
        assert(init.push(s.last()) =~= s);
    }
}

/// A scan that stops at the first entry sorting after `x` stops where the
/// stable insertion puts `x`.
proof fn lemma_first_greater_is(s: Seq<Seq<char>>, x: Seq<char>, q: int)
    requires
        0 <= q <= s.len(),
        forall|j: int| 0 <= j < q ==> !paths::spec_path_lt(x, #[trigger] s[j]),
        q < s.len() ==> paths::spec_path_lt(x, s[q]),
    ensures
        spec_first_greater(s, x) == q,
    decreases q,
{
    if q > 0 {
        let t = s.drop_first();
        assert forall|j: int| 0 <= j < q - 1 implies !paths::spec_path_lt(x, #[trigger] t[j]) by {
            assert(t[j] == s[j + 1]);
        }
        if q - 1 < t.len() {
            assert(t[q - 1] == s[q]);
        }
        assert(!paths::spec_path_lt(x, s[0]));
        lemma_first_greater_is(t, x, q - 1);
    }
}

/// Sorting a sorted list changes nothing.
proof fn lemma_sort_sorted(s: Seq<Seq<char>>)
    requires
        spec_sorted_paths(s),
    ensures
        spec_sort(s) == s,
    decreases s.len(),
{
    if s.len() > 0 {
        let init = s.drop_last();
        let x = s.last();
        assert(spec_sorted_paths(init)) by {
            assert forall|i: int, j: int| 0 <= i < j < init.len() implies !paths::spec_path_lt(
                #[trigger] init[j],
                #[trigger] init[i],
            ) by {
                assert(init[i] == s[i] && init[j] == s[j]);
            }
        }
        lemma_sort_sorted(init);
        assert forall|j: int| 0 <= j < init.len() implies !paths::spec_path_lt(x, #[trigger] init[j]) by {
            assert(init[j] == s[j]);
            assert(x == s[s.len() - 1]);
        }
        lemma_first_greater_is(init, x, init.len() as int);
        assert(init.insert(init.len() as int, x) =~= s);
    }
}

/// Registering a space that a sorted registry does not list, and then
/// unregistering it, gives the registry back as it was: the new root is
/// inserted in place and is the only entry taken out again.
pub proof fn lemma_register_unregister(s: Seq<Seq<char>>, root: Seq<char>)
    requires
        spec_sorted_paths(s),
        !spec_lists(s, root),
    ensures
        spec_without(spec_sort(s.push(root)), root) == s,
{
    lemma_sort_sorted(s);
    assert(s.push(root).drop_last() =~= s);
    let q = spec_first_greater(s, root);
    assert(0 <= q <= s.len()) by {
        lemma_first_greater_bounds(s, root);
    }
    let t = s.insert(q, root);
    assert(t =~= s.take(q) + seq![root] + s.skip(q));
    lemma_without_append(s.take(q) + seq![root], s.skip(q), root);
    lemma_without_append(s.take(q), seq![root], root);
    assert(spec_without(seq![root], root) =~= Seq::<Seq<char>>::empty()) by {
        assert(seq![root].drop_last() =~= Seq::<Seq<char>>::empty());
        assert(spec_without(Seq::<Seq<char>>::empty(), root) =~= Seq::<Seq<char>>::empty());
        assert(seq![root].last() == root);
    }
    assert(!spec_lists(s.take(q), root)) by {
        if spec_lists(s.take(q), root) {
            let i = choose|i: int| 0 <= i < s.take(q).len() && paths::spec_path_eq(#[trigger] s.take(q)[i], root);
            assert(s[i] == s.take(q)[i]);
        }
    }
    assert(!spec_lists(s.skip(q), root)) by {
        if spec_lists(s.skip(q), root) {
            let i = choose|i: int| 0 <= i < s.skip(q).len() && paths::spec_path_eq(#[trigger] s.skip(q)[i], root);
            assert(s[q + i] == s.skip(q)[i]);
        }
    }
    lemma_without_none(s.take(q), root);
    lemma_without_none(s.skip(q), root);
    assert(s.take(q) + Seq::<Seq<char>>::empty() + s.skip(q) =~= s);
}

proof fn lemma_first_greater_bounds(s: Seq<Seq<char>>, x: Seq<char>)
    ensures
        0 <= spec_first_greater(s, x) <= s.len(),
    decreases s.len(),
{
    if s.len() > 0 {
        lemma_first_greater_bounds(s.drop_first(), x);
    }
}

/// Inserting an element adds it to the multiset of elements.
proof fn lemma_insert_multiset(s: Seq<Seq<char>>, q: int, x: Seq<char>)
    requires
        0 <= q <= s.len(),
    ensures
        s.insert(q, x).to_multiset() == s.to_multiset().insert(x),
{
    broadcast use vstd::seq_lib::group_to_multiset_ensures;

    let t = s.insert(q, x);
    assert(t.remove(q) =~= s);
    assert(t.remove(q).to_multiset() == t.to_multiset().remove(t[q]));
    assert(t.contains(x)) by {
        assert(t[q] == x);
    }
    assert(t.to_multiset().count(x) > 0);
    assert(t.to_multiset() =~= s.to_multiset().insert(x));
}

/// Sorts paths into path order, stably: the order `Vec::sort` gives
/// `PathBuf`s (see [`spec_sort`]).
pub fn sort_paths(v: &Vec<String>) -> (r: Vec<String>)
    ensures
        paths_view(r@) == spec_sort(paths_view(v@)),
        spec_sorted_paths(paths_view(r@)),
        paths_view(r@).to_multiset() == paths_view(v@).to_multiset(),
{
    broadcast use vstd::seq_lib::group_to_multiset_ensures;

    let mut r: Vec<String> = Vec::new();
    for i in 0..v.len()
        invariant
            spec_sorted_paths(paths_view(r@)),
            paths_view(r@).to_multiset() == paths_view(v@.take(i as int)).to_multiset(),
            paths_view(r@) == spec_sort(paths_view(v@.take(i as int))),
    {
        let x = v[i].clone();
        let ghost rs = paths_view(r@);
        let mut q: usize = 0;
        while q < r.len()
            invariant
                q <= r.len(),
                rs == paths_view(r@),
                forall|j: int| 0 <= j < q ==> !paths::spec_path_lt(x@, #[trigger] rs[j]),
            ensures
                q <= r.len(),
                forall|j: int| 0 <= j < q ==> !paths::spec_path_lt(x@, #[trigger] rs[j]),
                q < r.len() ==> paths::spec_path_lt(x@, rs[q as int]),
            decreases r.len() - q,
        {
            if let Rel::Less = compare_paths(x.as_str(), r[q].as_str()) {
                break;
            }
            q = q + 1;
        }
        proof {
            let ns = rs.insert(q as int, x@);
            if q < rs.len() {
                assert(paths::spec_path_lt(x@, rs[q as int]));
            }
            assert forall|a: int, b: int| 0 <= a < b < ns.len() implies !paths::spec_path_lt(
                #[trigger] ns[b],
                #[trigger] ns[a],
            ) by {
                if a < q && b == q {
                } else if a == q {
                    // x sorts strictly before rs[q] <= rs[b - 1]
                    let y = rs[q as int];
                    let z = rs[b - 1];
                    assert(ns[b] == z);
                    if b - 1 > q {
                        assert(!paths::spec_path_lt(z, y));
                        paths::lemma_path_lt_total(y, z);
                        if !paths::spec_path_eq(y, z) {
                            paths::lemma_path_lt_transitive(x@, y, z);
                        }
                    }
                    paths::lemma_path_lt_asymmetric(x@, z);
                } else if b < q {
                    assert(ns[a] == rs[a] && ns[b] == rs[b]);
                } else if a < q {
                    assert(ns[a] == rs[a] && ns[b] == rs[b - 1]);
                    if b - 1 >= q {
                        let y = rs[q as int];
                        let z = rs[b - 1];
                        // rs[a] <= x < y <= z
                        assert(!paths::spec_path_lt(x@, rs[a]));
                        if paths::spec_path_lt(z, rs[a]) {
                            paths::lemma_path_lt_total(x@, rs[a]);
                            if b - 1 > q {
                                paths::lemma_path_lt_total(y, z);
                                if !paths::spec_path_eq(y, z) {
                                    paths::lemma_path_lt_transitive(x@, y, z);
                                }
                            }
                            if !paths::spec_path_eq(x@, rs[a]) {
                                paths::lemma_path_lt_transitive(rs[a], x@, z);
                            }
                            paths::lemma_path_lt_asymmetric(rs[a], z);
                        }
                    }
                } else {
                    assert(ns[a] == rs[a - 1] && ns[b] == rs[b - 1]);
                }
            }
            lemma_insert_multiset(rs, q as int, x@);
            lemma_first_greater_is(rs, x@, q as int);
            assert(paths_view(v@.take(i + 1)).drop_last() =~= paths_view(v@.take(i as int)));
            assert(v@.take(i + 1) =~= v@.take(i as int).push(v@[i as int]));
            assert(paths_view(v@.take(i + 1)) =~= paths_view(v@.take(i as int)).push(x@));
            vstd::seq_lib::to_multiset_build(paths_view(v@.take(i as int)), x@);
            assert(paths_view(v@.take(i as int)).push(x@).to_multiset() == paths_view(
                v@.take(i as int),
            ).to_multiset().insert(x@));
        }
        r.insert(q, x);
        assert(paths_view(r@) =~= rs.insert(q as int, x@));
    }
    assert(v@.take(v.len() as int) =~= v@);
    assert(paths_view(v@.take(v.len() as int)) =~= paths_view(v@));
    r
}

/// Whether `v` already lists a path equal to `x` (by components).
pub(crate) fn lists(v: &Vec<String>, x: &str) -> (r: bool)
    ensures
        r == spec_lists(paths_view(v@), x@),
{
    for i in 0..v.len()
        invariant
            forall|j: int| 0 <= j < i ==> !paths::spec_path_eq(#[trigger] v@[j]@, x@),
    {
        let c = compare_paths(v[i].as_str(), x);
        if c == Rel::Equal {
            assert(paths_view(v@)[i as int] == v@[i as int]@);
            return true;
        }
        proof {
            if c == Rel::Less {
                paths::lemma_path_lt_asymmetric(v@[i as int]@, x@);
            }
        }
    }
    assert(!spec_lists(paths_view(v@), x@)) by {
        if spec_lists(paths_view(v@), x@) {
            let k = choose|k: int| 0 <= k < paths_view(v@).len() && paths::spec_path_eq(
                #[trigger] paths_view(v@)[k],
                x@,
            );
            assert(paths_view(v@)[k] == v@[k]@);
        }
    }
    false
}

/// Records a space root. A root already listed (as an equal path) leaves
/// the registry as it is (nothing to save); otherwise the root is added and
/// the list re-sorted, stably, in path order. Returns whether the registry
/// changed.
pub fn register_space(registry: &mut Registry, space_root: &str) -> (changed: bool)
    ensures
        spec_lists(paths_view(old(registry).spaces@), space_root@) ==> !changed && paths_view(
            final(registry).spaces@,
        ) == paths_view(old(registry).spaces@),
        !spec_lists(paths_view(old(registry).spaces@), space_root@) ==> {
            &&& changed
            &&& paths_view(final(registry).spaces@) == spec_sort(
                paths_view(old(registry).spaces@).push(space_root@),
            )
            &&& spec_sorted_paths(paths_view(final(registry).spaces@))
            &&& paths_view(final(registry).spaces@).to_multiset() == paths_view(
                old(registry).spaces@,
            ).to_multiset().insert(space_root@)
        },
        spec_lists(paths_view(final(registry).spaces@), space_root@),
        forall|p: Seq<char>|
            #[trigger] paths_view(old(registry).spaces@).contains(p) ==> paths_view(
                final(registry).spaces@,
            ).contains(p),
{
    broadcast use vstd::seq_lib::group_to_multiset_ensures;

    if lists(&registry.spaces, space_root) {
        return false;
    }
    let ghost before = paths_view(registry.spaces@);
    registry.spaces.push(String::from_str(space_root));
    assert(paths_view(registry.spaces@) =~= before.push(space_root@));
    let sorted = sort_paths(&registry.spaces);
    registry.spaces = sorted;
    proof {
        broadcast use vstd::multiset::group_multiset_axioms;

        let after = paths_view(registry.spaces@);
        assert(after.to_multiset().count(space_root@) > 0);
        assert(after.contains(space_root@));
        let k = choose|k: int| 0 <= k < after.len() && after[k] == space_root@;
        assert(paths::spec_path_eq(after[k], space_root@));
        assert forall|p: Seq<char>| #[trigger] before.contains(p) implies after.contains(p) by {
            assert(before.to_multiset().count(p) > 0);
            assert(after.to_multiset().count(p) > 0);
        }
    }
    true
}

/// Forgets a space root: every entry equal to it as a path.
pub fn unregister_space(registry: &mut Registry, space_root: &str)
    ensures
        paths_view(final(registry).spaces@) == spec_without(
            paths_view(old(registry).spaces@),
            space_root@,
        ),
        !spec_lists(paths_view(final(registry).spaces@), space_root@),
        forall|p: Seq<char>|
            #[trigger] paths_view(final(registry).spaces@).contains(p) <==> (paths_view(
                old(registry).spaces@,
            ).contains(p) && !paths::spec_path_eq(p, space_root@)),
{
    let ghost s = paths_view(registry.spaces@);
    let mut kept: Vec<String> = Vec::new();
    for i in 0..registry.spaces.len()
        invariant
            s == paths_view(registry.spaces@),
            paths_view(kept@) == spec_without(s.take(i as int), space_root@),
    {
        proof {
            assert(s.take(i + 1).drop_last() =~= s.take(i as int));
            assert(s[i as int] == registry.spaces@[i as int]@);
        }
        let same = compare_paths(registry.spaces[i].as_str(), space_root);
        proof {
            if same == Rel::Less {
                paths::lemma_path_lt_asymmetric(s[i as int], space_root@);
            }
        }
        if same != Rel::Equal {
            kept.push(registry.spaces[i].clone());
            assert(paths_view(kept@) =~= spec_without(s.take(i as int), space_root@).push(s[i as int]));
        }
    }
    assert(s.take(s.len() as int) =~= s);
    registry.spaces = kept;
    proof {
        lemma_without_contains(s, space_root@);
    }
}

/// Keeps the registered spaces that still exist on disk, where `live[i]`
/// tells whether the `i`-th entry still holds its `.myspace/config.toml`
/// marker. Returns the remaining spaces and whether any entry was pruned
/// (the registry then needs saving).
pub fn registered_spaces(registry: &mut Registry, live: &Vec<bool>) -> (r: (Vec<String>, bool))
    requires
        live.len() == old(registry).spaces.len(),
    ensures
        paths_view(final(registry).spaces@) == spec_keep(
            paths_view(old(registry).spaces@),
            live@,
        ),
        paths_view(r.0@) == paths_view(final(registry).spaces@),
        r.1 == (final(registry).spaces.len() != old(registry).spaces.len()),
{
    let ghost s = paths_view(registry.spaces@);
    let before = registry.spaces.len();
    let mut kept: Vec<String> = Vec::new();
    let mut out: Vec<String> = Vec::new();
    for i in 0..registry.spaces.len()
        invariant
            s == paths_view(registry.spaces@),
            live.len() == s.len(),
            paths_view(kept@) == spec_keep(s.take(i as int), live@.take(i as int)),
            paths_view(out@) == paths_view(kept@),
    {
        proof {
            assert(s.take(i + 1).drop_last() =~= s.take(i as int));
            assert(live@.take(i + 1).drop_last() =~= live@.take(i as int));
        }
        if live[i] {
            kept.push(registry.spaces[i].clone());
            out.push(registry.spaces[i].clone());
            assert(paths_view(kept@) =~= spec_keep(s.take(i as int), live@.take(i as int)).push(
                s[i as int],
            ));
            assert(paths_view(out@) =~= paths_view(kept@));
        }
    }
    assert(s.take(s.len() as int) =~= s);
    assert(live@.take(s.len() as int) =~= live@);
    registry.spaces = kept;
    let changed = registry.spaces.len() != before;
    (out, changed)
}

} // verus!
