//! The space manifest (`<space>/.myspace/config.toml`): the shareable
//! definition of a space — its name and its member repositories.
use vstd::prelude::*;
use crate::order::{self, compare_str, Rel};

verus! {

/// A sorted association list of `(name, identity)` pairs.
pub open spec fn spec_sorted_pairs(p: Seq<(Seq<char>, Seq<char>)>) -> bool {
    forall|i: int, j: int| 0 <= i < j < p.len() ==> order::lex_lt(#[trigger] p[i].0, #[trigger] p[j].0)
}

pub open spec fn has_key(p: Seq<(Seq<char>, Seq<char>)>, k: Seq<char>) -> bool {
    exists|i: int| 0 <= i < p.len() && #[trigger] p[i].0 == k
}

pub open spec fn key_index(p: Seq<(Seq<char>, Seq<char>)>, k: Seq<char>) -> int {
    choose|i: int| 0 <= i < p.len() && #[trigger] p[i].0 == k
}

pub open spec fn value_of(p: Seq<(Seq<char>, Seq<char>)>, k: Seq<char>) -> Seq<char> {
    p[key_index(p, k)].1
}

/// The map an association list denotes.
pub open spec fn assoc_view(p: Seq<(Seq<char>, Seq<char>)>) -> Map<Seq<char>, Seq<char>> {
    Map::new(|k: Seq<char>| has_key(p, k), |k: Seq<char>| value_of(p, k))
}

pub open spec fn entry_view(e: (String, String)) -> (Seq<char>, Seq<char>) {
    (e.0@, e.1@)
}

/// In a sorted list each key occurs once, so a key's value is the one next
/// to it.
pub proof fn lemma_value_at(p: Seq<(Seq<char>, Seq<char>)>, i: int)
    requires
        spec_sorted_pairs(p),
        0 <= i < p.len(),
    ensures
        has_key(p, p[i].0),
        value_of(p, p[i].0) == p[i].1,
{
    let k = p[i].0;
    assert(0 <= i < p.len() && p[i].0 == k);
    let j = key_index(p, k);
    assert(0 <= j < p.len() && p[j].0 == k);
    if j < i {
        assert(order::lex_lt(p[j].0, p[i].0));
        order::lemma_lex_asymmetric(p[j].0, p[i].0);
    } else if i < j {
        assert(order::lex_lt(p[i].0, p[j].0));
        order::lemma_lex_asymmetric(p[i].0, p[j].0);
    }
    assert(j == i);
    assert(value_of(p, k) == p[j].1);
}

/// Insertion of a key that sorts strictly between its neighbours.
proof fn lemma_insert_between(p: Seq<(Seq<char>, Seq<char>)>, q: int, k: Seq<char>, v: Seq<char>)
    requires
        spec_sorted_pairs(p),
        0 <= q <= p.len(),
        forall|j: int| 0 <= j < q ==> order::lex_lt(#[trigger] p[j].0, k),
        forall|j: int| q <= j < p.len() ==> order::lex_lt(k, #[trigger] p[j].0),
    ensures
        spec_sorted_pairs(p.insert(q, (k, v))),
        assoc_view(p.insert(q, (k, v))) == assoc_view(p).insert(k, v),
{
    let r = p.insert(q, (k, v));
    assert forall|i: int, j: int| 0 <= i < j < r.len() implies order::lex_lt(
        #[trigger] r[i].0,
        #[trigger] r[j].0,
    ) by {
        if i < q && j < q {
        } else if i < q && j == q {
        } else if i < q {
            assert(r[j] == p[j - 1]);
            assert(order::lex_lt(p[i].0, p[j - 1].0));
        } else if i == q {
            assert(r[j] == p[j - 1]);
        } else {
            assert(r[i] == p[i - 1] && r[j] == p[j - 1]);
        }
    }
    assert(spec_sorted_pairs(r));
    assert forall|key: Seq<char>| #[trigger] has_key(r, key) == (has_key(p, key) || key == k) by {
        if has_key(p, key) {
            let i = choose|i: int| 0 <= i < p.len() && #[trigger] p[i].0 == key;
            if i < q {
                assert(r[i].0 == key);
            } else {
                assert(r[i + 1].0 == key);
            }
        }
        if key == k {
            assert(r[q].0 == key);
        }
        if has_key(r, key) {
            let i = choose|i: int| 0 <= i < r.len() && #[trigger] r[i].0 == key;
            if i < q {
                assert(p[i].0 == key);
            } else if i > q {
                assert(p[i - 1].0 == key);
            }
        }
    }
    assert forall|key: Seq<char>| has_key(r, key) implies #[trigger] value_of(r, key) == (if key
        == k {
        v
    } else {
        value_of(p, key)
    }) by {
        let i = choose|i: int| 0 <= i < r.len() && #[trigger] r[i].0 == key;
        lemma_value_at(r, i);
        if i < q {
            assert(r[i] == p[i]);
            lemma_value_at(p, i);
            order::lemma_lex_asymmetric(p[i].0, k);
            assert(key != k);
            assert(value_of(r, key) == value_of(p, key));
        } else if i == q {
            assert(r[i] == (k, v));
            assert(key == k);
            assert(value_of(r, key) == v);
        } else {
            lemma_value_at(p, i - 1);
            assert(r[i] == p[i - 1]);
            order::lemma_lex_asymmetric(k, p[i - 1].0);
            assert(key != k);
            assert(value_of(r, key) == value_of(p, key));
        }
    }
    assert(assoc_view(r) =~= assoc_view(p).insert(k, v));
}

/// Replacing the value next to a present key.
proof fn lemma_replace_at(p: Seq<(Seq<char>, Seq<char>)>, q: int, v: Seq<char>)
    requires
        spec_sorted_pairs(p),
        0 <= q < p.len(),
    ensures
        spec_sorted_pairs(p.update(q, (p[q].0, v))),
        assoc_view(p.update(q, (p[q].0, v))) == assoc_view(p).insert(p[q].0, v),
{
    let k = p[q].0;
    let r = p.update(q, (k, v));
    assert forall|i: int, j: int| 0 <= i < j < r.len() implies order::lex_lt(
        #[trigger] r[i].0,
        #[trigger] r[j].0,
    ) by {
        assert(r[i].0 == p[i].0 && r[j].0 == p[j].0);
    }
    assert forall|key: Seq<char>| #[trigger] has_key(r, key) == has_key(p, key) by {
        if has_key(p, key) {
            let i = choose|i: int| 0 <= i < p.len() && #[trigger] p[i].0 == key;
            assert(r[i].0 == key);
        }
        if has_key(r, key) {
            let i = choose|i: int| 0 <= i < r.len() && #[trigger] r[i].0 == key;
            assert(p[i].0 == key);
        }
    }
    assert(spec_sorted_pairs(r));
    lemma_value_at(p, q);
    assert forall|key: Seq<char>| has_key(r, key) implies #[trigger] value_of(r, key) == (if key
        == k {
        v
    } else {
        value_of(p, key)
    }) by {
        let i = choose|i: int| 0 <= i < r.len() && #[trigger] r[i].0 == key;
        lemma_value_at(r, i);
        if i != q {
            assert(r[i] == p[i]);
            lemma_value_at(p, i);
            if i < q {
                order::lemma_lex_asymmetric(p[i].0, p[q].0);
            } else {
                order::lemma_lex_asymmetric(p[q].0, p[i].0);
            }
        }
    }
    assert(assoc_view(r) =~= assoc_view(p).insert(k, v));
}

/// Removing the entry of a present key.
proof fn lemma_remove_at(p: Seq<(Seq<char>, Seq<char>)>, q: int)
    requires
        spec_sorted_pairs(p),
        0 <= q < p.len(),
    ensures
        spec_sorted_pairs(p.remove(q)),
        assoc_view(p.remove(q)) == assoc_view(p).remove(p[q].0),
{
    let k = p[q].0;
    let r = p.remove(q);
    assert forall|i: int, j: int| 0 <= i < j < r.len() implies order::lex_lt(
        #[trigger] r[i].0,
        #[trigger] r[j].0,
    ) by {
        if j < q {
        } else if i < q {
            assert(r[j] == p[j + 1]);
        } else {
            assert(r[i] == p[i + 1] && r[j] == p[j + 1]);
        }
    }
    assert forall|key: Seq<char>| #[trigger] has_key(r, key) == (has_key(p, key) && key != k) by {
        if has_key(p, key) && key != k {
            let i = choose|i: int| 0 <= i < p.len() && #[trigger] p[i].0 == key;
            if i < q {
                assert(r[i].0 == key);
            } else {
                assert(r[i - 1].0 == key);
            }
        }
        if has_key(r, key) {
            let i = choose|i: int| 0 <= i < r.len() && #[trigger] r[i].0 == key;
            if i < q {
                assert(p[i].0 == key);
                order::lemma_lex_asymmetric(p[i].0, p[q].0);
            } else {
                assert(p[i + 1].0 == key);
                order::lemma_lex_asymmetric(p[q].0, p[i + 1].0);
            }
        }
    }
    assert forall|key: Seq<char>| has_key(r, key) implies #[trigger] value_of(r, key) == value_of(
        p,
        key,
    ) by {
        let i = choose|i: int| 0 <= i < r.len() && #[trigger] r[i].0 == key;
        lemma_value_at(r, i);
        if i < q {
            lemma_value_at(p, i);
        } else {
            lemma_value_at(p, i + 1);
        }
    }
    assert(assoc_view(r) =~= assoc_view(p).remove(k));
}

/// The member repositories of a space, `name -> host/org/repo`, kept sorted
/// by name so that every rendering of the manifest lists them in the same
/// order.
pub struct RepoMap {
    entries: Vec<(String, String)>,
}

impl RepoMap {
    /// The entries, in name order.
    pub closed spec fn pairs(&self) -> Seq<(Seq<char>, Seq<char>)> {
        self.entries@.map_values(|e: (String, String)| entry_view(e))
    }

    #[verifier::type_invariant]
    closed spec fn sorted(&self) -> bool {
        spec_sorted_pairs(self.pairs())
    }
}

impl View for RepoMap {
    type V = Map<Seq<char>, Seq<char>>;

    open spec fn view(&self) -> Map<Seq<char>, Seq<char>> {
        assoc_view(self.pairs())
    }
}

impl RepoMap {
    pub fn new() -> (r: Self)
        ensures
            r@ == Map::<Seq<char>, Seq<char>>::empty(),
            r.pairs().len() == 0,
    {
        let r = RepoMap { entries: Vec::new() };
        assert(r@ =~= Map::<Seq<char>, Seq<char>>::empty());
        r
    }

    pub fn len(&self) -> (n: usize)
        ensures
            n == self.pairs().len(),
            n == self@.len(),
    {
        proof {
            use_type_invariant(self);
            self.lemma_len();
        }
        self.entries.len()
    }

    pub fn is_empty(&self) -> (b: bool)
        ensures
            b == (self@.len() == 0),
            b == (self.pairs().len() == 0),
    {
        self.len() == 0
    }

    proof fn lemma_len(&self)
        requires
            self.sorted(),
        ensures
            self@.len() == self.pairs().len(),
    {
        let p = self.pairs();
        let ks = p.map_values(|e: (Seq<char>, Seq<char>)| e.0);
        assert(self@.dom() =~= ks.to_set()) by {
            assert forall|k: Seq<char>| self@.dom().contains(k) <==> ks.contains(k) by {
                if self@.dom().contains(k) {
                    let i = choose|i: int| 0 <= i < p.len() && #[trigger] p[i].0 == k;
                    assert(ks[i] == k);
                }
                if ks.contains(k) {
                    let i = choose|i: int| 0 <= i < ks.len() && #[trigger] ks[i] == k;
                    assert(p[i].0 == k);
                }
            }
        }
        assert(ks.no_duplicates()) by {
            assert forall|i: int, j: int| 0 <= i < ks.len() && 0 <= j < ks.len() && i != j implies ks[i]
                != ks[j] by {
                if i < j {
                    order::lemma_lex_asymmetric(p[i].0, p[j].0);
                } else {
                    order::lemma_lex_asymmetric(p[j].0, p[i].0);
                }
            }
        }
        ks.unique_seq_to_set();
    }

    /// Position of the first entry whose name does not sort before `name`.
    fn position(&self, name: &str) -> (q: usize)
        ensures
            q <= self.pairs().len(),
            forall|j: int| 0 <= j < q ==> order::lex_lt(#[trigger] self.pairs()[j].0, name@),
            forall|j: int|
                q <= j < self.pairs().len() ==> self.pairs()[j].0 == name@ || order::lex_lt(
                    name@,
                    #[trigger] self.pairs()[j].0,
                ),
            q < self.pairs().len() && self.pairs()[q as int].0 != name@ ==> forall|j: int|
                q <= j < self.pairs().len() ==> order::lex_lt(name@, #[trigger] self.pairs()[j].0),
            q < self.pairs().len() && self.pairs()[q as int].0 == name@ ==> forall|j: int|
                q < j < self.pairs().len() ==> order::lex_lt(name@, #[trigger] self.pairs()[j].0),
    {
        proof {
            use_type_invariant(self);
        }
        let n = self.entries.len();
        let ghost p = self.pairs();
        let mut i: usize = 0;
        while i < n
            invariant
                n == self.entries@.len(),
                p == self.pairs(),
                spec_sorted_pairs(p),
                i <= n,
                forall|j: int| 0 <= j < i ==> order::lex_lt(#[trigger] p[j].0, name@),
            decreases n - i,
        {
            let key = &self.entries[i].0;
            assert(key@ == p[i as int].0);
            match compare_str(key.as_str(), name) {
                Rel::Less => {},
                _ => {
                    proof {
                        assert forall|j: int| i < j < p.len() implies order::lex_lt(
                            name@,
                            #[trigger] p[j].0,
                        ) by {
                            assert(order::lex_lt(p[i as int].0, p[j].0));
                            if p[i as int].0 != name@ {
                                order::lemma_lex_transitive(name@, p[i as int].0, p[j].0);
                            }
                        }
                    }
                    return i;
                },
            }
            i = i + 1;
        }
        i
    }

    /// The identity recorded for `name`, if any.
    pub fn get(&self, name: &str) -> (r: Option<String>)
        ensures
            match r {
                Some(v) => self@.contains_key(name@) && v@ == self@[name@],
                None => !self@.contains_key(name@),
            },
    {
        proof {
            use_type_invariant(self);
        }
        let q = self.position(name);
        let ghost p = self.pairs();
        if q < self.entries.len() {
            let (k, v) = &self.entries[q];
            assert(k@ == p[q as int].0 && v@ == p[q as int].1);
            if crate::text::str_eq(k.as_str(), name) {
                proof {
                    lemma_value_at(p, q as int);
                }
                return Some(v.clone());
            }
        }
        proof {
            assert(!has_key(p, name@)) by {
                if has_key(p, name@) {
                    let i = choose|i: int| 0 <= i < p.len() && #[trigger] p[i].0 == name@;
                    if i < q {
                        order::lemma_lex_irreflexive(name@);
                    } else {
                        order::lemma_lex_irreflexive(name@);
                    }
                }
            }
        }
        None
    }

    /// Whether `name` is a member.
    pub fn contains_key(&self, name: &str) -> (b: bool)
        ensures
            b == self@.contains_key(name@),
    {
        self.get(name).is_some()
    }

    /// Records `identity` under `name`, replacing any previous identity.
    pub fn insert(&mut self, name: String, identity: String)
        ensures
            final(self)@ == old(self)@.insert(name@, identity@),
    {
        proof {
            use_type_invariant(&*self);
        }
        let q = self.position(name.as_str());
        let ghost p = self.pairs();
        let mut e: Vec<(String, String)> = Vec::new();
        std::mem::swap(&mut e, &mut self.entries);
        assert(e@.map_values(|x: (String, String)| entry_view(x)) == p);
        let ghost k = name@;
        let ghost v = identity@;
        if q < e.len() && crate::text::str_eq(e[q].0.as_str(), name.as_str()) {
            assert(e[q as int].0@ == p[q as int].0);
            e.set(q, (name, identity));
            proof {
                lemma_replace_at(p, q as int, v);
                assert(e@.map_values(|x: (String, String)| entry_view(x)) =~= p.update(
                    q as int,
                    (p[q as int].0, v),
                ));
            }
        } else {
            proof {
                if q < p.len() {
                    assert(e[q as int].0@ == p[q as int].0);
                }
                lemma_insert_between(p, q as int, k, v);
            }
            e.insert(q, (name, identity));
            assert(e@.map_values(|x: (String, String)| entry_view(x)) =~= p.insert(
                q as int,
                (k, v),
            ));
        }
        self.entries = e;
    }

    /// Drops `name` and its identity, if present.
    pub fn remove(&mut self, name: &str)
        ensures
            final(self)@ == old(self)@.remove(name@),
    {
        proof {
            use_type_invariant(&*self);
        }
        let q = self.position(name);
        let ghost p = self.pairs();
        if q < self.entries.len() && crate::text::str_eq(self.entries[q].0.as_str(), name) {
            assert(self.entries@[q as int].0@ == p[q as int].0);
            let mut e: Vec<(String, String)> = Vec::new();
            std::mem::swap(&mut e, &mut self.entries);
            assert(e@.map_values(|x: (String, String)| entry_view(x)) == p);
            e.remove(q);
            proof {
                lemma_remove_at(p, q as int);
                assert(e@.map_values(|x: (String, String)| entry_view(x)) =~= p.remove(q as int));
            }
            self.entries = e;
        } else {
            proof {
                if q < p.len() {
                    assert(self.entries@[q as int].0@ == p[q as int].0);
                }
                assert(!has_key(p, name@)) by {
                    if has_key(p, name@) {
                        let i = choose|i: int| 0 <= i < p.len() && #[trigger] p[i].0 == name@;
                        order::lemma_lex_irreflexive(name@);
                    }
                }
                assert(self@ =~= old(self)@.remove(name@));
            }
        }
    }

    /// The member names, in sorted order.
    pub fn keys(&self) -> (r: Vec<String>)
        ensures
            r.len() == self.pairs().len(),
            forall|i: int| 0 <= i < r.len() ==> #[trigger] r@[i]@ == self.pairs()[i].0,
            forall|i: int| 0 <= i < r.len() ==> self@.contains_key(#[trigger] r@[i]@),
            forall|k: Seq<char>|
                #[trigger] self@.contains_key(k) ==> exists|i: int| 0 <= i < r.len() && r@[i]@ == k,
            forall|i: int, j: int|
                0 <= i < j < r.len() ==> order::lex_lt(#[trigger] r@[i]@, #[trigger] r@[j]@),
    {
        proof {
            use_type_invariant(self);
        }
        let ghost p = self.pairs();
        let mut r: Vec<String> = Vec::new();
        for i in 0..self.entries.len()
            invariant
                p == self.pairs(),
                r.len() == i,
                forall|j: int| 0 <= j < i ==> #[trigger] r@[j]@ == p[j].0,
        {
            r.push(self.entries[i].0.clone());
        }
        proof {
            assert forall|k: Seq<char>| #[trigger] self@.contains_key(k) implies exists|i: int|
                0 <= i < r.len() && r@[i]@ == k by {
                let i = choose|i: int| 0 <= i < p.len() && #[trigger] p[i].0 == k;
                assert(r@[i]@ == k);
            }
            assert forall|i: int| 0 <= i < r.len() implies self@.contains_key(#[trigger] r@[i]@) by {
                assert(p[i].0 == r@[i]@);
            }
        }
        r
    }

    /// The `(name, identity)` entries, in name order.
    pub fn entries(&self) -> (r: Vec<(String, String)>)
        ensures
            r@.map_values(|e: (String, String)| entry_view(e)) == self.pairs(),
    {
        let ghost p = self.pairs();
        let mut r: Vec<(String, String)> = Vec::new();
        for i in 0..self.entries.len()
            invariant
                p == self.pairs(),
                r.len() == i,
                forall|j: int| 0 <= j < i ==> #[trigger] entry_view(r@[j]) == p[j],
        {
            let (k, v) = &self.entries[i];
            r.push((k.clone(), v.clone()));
        }
        assert(r@.map_values(|e: (String, String)| entry_view(e)) =~= p);
        r
    }
}

pub struct WorkspaceDetails {
    pub name: String,
    pub description: Option<String>,
}

pub struct WorkspaceManifest {
    pub workspace: WorkspaceDetails,
    /// Sorted by name so that serialization order is deterministic — users
    /// may keep the manifest under version control, and an unordered map
    /// would reorder entries on every save.
    pub repositories: RepoMap,
}

impl WorkspaceManifest {
    /// A manifest for a new space, with no members yet.
    pub fn new(name: String, description: Option<String>) -> (r: Self)
        ensures
            r.workspace.name == name,
            r.workspace.description == description,
            r.repositories@ == Map::<Seq<char>, Seq<char>>::empty(),
    {
        WorkspaceManifest {
            workspace: WorkspaceDetails { name, description },
            repositories: RepoMap::new(),
        }
    }
}

} // verus!
