//! Path arithmetic on strings, with the semantics of `std::path::PathBuf`
//! on Unix.
use vstd::prelude::*;
use crate::order::{self, Rel};
use crate::text::{self, chars_of, push_char, push_str};

verus! {

/// `base.join(comp)`: an absolute `comp` replaces `base`; otherwise `comp`
/// is appended, with a `/` in between unless `base` is empty or already
/// ends with one.
pub open spec fn spec_join(base: Seq<char>, comp: Seq<char>) -> Seq<char> {
    if comp.len() > 0 && comp[0] == '/' {
        comp
    } else if base.len() == 0 || base.last() == '/' {
        base + comp
    } else {
        base + seq!['/'] + comp
    }
}

/// Joins a path component onto a base path (see [`spec_join`]).
pub fn join_path(base: &str, comp: &str) -> (r: String)
    ensures
        r@ == spec_join(base@, comp@),
{
    let b = chars_of(base);
    let c = chars_of(comp);
    if c.len() > 0 && c[0] == '/' {
        return text::string_from(&c);
    }
    let mut r = text::string_from(&b);
    if b.len() > 0 && b[b.len() - 1] != '/' {
        push_char(&mut r, '/');
    }
    push_str(&mut r, comp);
    r
}

/// `dirs::home_dir`: the current user's home directory, when one can be
/// determined. Nothing is stated of the result: it depends on the
/// environment and the platform.
#[verifier::external_body]
pub(crate) fn home_dir() -> Option<String> {
    match dirs::home_dir() {
        Some(p) => Some(p.to_string_lossy().into_owned()),
        None => None,
    }
}

/// Path of the global config file under the machine-global myspace home.
/// Not created on demand — a missing config is a meaningful state.
pub fn get_config_path(myspace_home: &str) -> (r: String)
    ensures
        r@ == spec_join(myspace_home@, "config.toml"@),
{
    join_path(myspace_home, "config.toml")
}

/// The normal segments of a relative path text, as `Path::components`
/// yields them: the parts between `/`s, without the empty ones (repeated or
/// trailing separators) and without `.`.
pub open spec fn spec_segments(s: Seq<char>) -> Seq<Seq<char>>
    decreases s.len(),
{
    match text::spec_split_once(s, '/') {
        Some((seg, rest)) => {
            proof {
                text::lemma_split_parts(s, '/');
            }
            let r = spec_segments(rest);
            if seg.len() == 0 || seg == seq!['.'] {
                r
            } else {
                seq![seg] + r
            }
        },
        None => if s.len() == 0 || s == seq!['.'] {
            Seq::empty()
        } else {
            seq![s]
        },
    }
}

/// The path starts with a `.` component (`.` itself or `./...`).
pub open spec fn spec_curdir_form(p: Seq<char>) -> bool {
    p == seq!['.'] || (p.len() >= 2 && p[0] == '.' && p[1] == '/')
}

/// `Path::components` on Unix, each component spelled as text: a leading
/// `/` (the root), or a leading `.` (the current directory), then the
/// normal segments. Two paths are equal as `Path`s when their components
/// are.
pub open spec fn spec_components(p: Seq<char>) -> Seq<Seq<char>> {
    if p.len() > 0 && p[0] == '/' {
        seq![seq!['/']] + spec_segments(p.skip(1))
    } else if spec_curdir_form(p) {
        seq![seq!['.']] + spec_segments(p.skip(1))
    } else {
        spec_segments(p)
    }
}

/// One normal path segment: not empty, not `.` or `..`, without `/`.
pub open spec fn spec_plain_segment(v: Seq<char>) -> bool {
    v.len() > 0 && v != seq!['.'] && v != seq!['.', '.'] && !v.contains('/')
}

proof fn lemma_segments_single(v: Seq<char>)
    requires
        spec_plain_segment(v),
    ensures
        spec_segments(v) == seq![v],
{
    text::lemma_split_none(v, '/');
}

/// A trailing separator adds no segment.
proof fn lemma_segments_trailing(x: Seq<char>)
    ensures
        spec_segments(x + seq!['/']) == spec_segments(x),
    decreases x.len(),
{
    let y = x + seq!['/'];
    if x.contains('/') {
        text::lemma_first_exists(x, '/');
        let i = choose|i: int| text::is_first_index(x, '/', i);
        text::lemma_split_once_at(x, '/', i);
        assert(text::is_first_index(y, '/', i));
        text::lemma_split_once_at(y, '/', i);
        assert(y.take(i) =~= x.take(i));
        assert(y.skip(i + 1) =~= x.skip(i + 1) + seq!['/']);
        lemma_segments_trailing(x.skip(i + 1));
    } else {
        text::lemma_split_concat(x, '/', Seq::<char>::empty());
        assert(x + seq!['/'] + Seq::<char>::empty() =~= y);
        text::lemma_split_none(Seq::<char>::empty(), '/');
        text::lemma_split_none(x, '/');
        assert(spec_segments(Seq::<char>::empty()) =~= Seq::<Seq<char>>::empty());
        assert(seq![x] + Seq::<Seq<char>>::empty() =~= seq![x]);
    }
}

/// A separator and a plain segment add that segment.
proof fn lemma_segments_append(x: Seq<char>, v: Seq<char>)
    requires
        spec_plain_segment(v),
    ensures
        spec_segments(x + seq!['/'] + v) == spec_segments(x).push(v),
    decreases x.len(),
{
    let y = x + seq!['/'] + v;
    if x.contains('/') {
        text::lemma_first_exists(x, '/');
        let i = choose|i: int| text::is_first_index(x, '/', i);
        text::lemma_split_once_at(x, '/', i);
        assert(text::is_first_index(y, '/', i));
        text::lemma_split_once_at(y, '/', i);
        assert(y.take(i) =~= x.take(i));
        assert(y.skip(i + 1) =~= x.skip(i + 1) + seq!['/'] + v);
        lemma_segments_append(x.skip(i + 1), v);
        let r = spec_segments(x.skip(i + 1));
        assert(seq![x.take(i)] + r.push(v) =~= (seq![x.take(i)] + r).push(v));
    } else {
        text::lemma_split_concat(x, '/', v);
        lemma_segments_single(v);
        text::lemma_split_none(x, '/');
        assert(seq![x] + seq![v] =~= seq![x].push(v));
        assert(Seq::<Seq<char>>::empty() + seq![v] =~= Seq::<Seq<char>>::empty().push(v));
    }
}

/// A trailing separator does not change the components.
proof fn lemma_components_trailing(x: Seq<char>)
    requires
        x.len() > 0,
    ensures
        spec_components(x + seq!['/']) == spec_components(x),
{
    let y = x + seq!['/'];
    assert(y[0] == x[0]);
    if x[0] == '/' || spec_curdir_form(x) {
        assert(y.skip(1) =~= x.skip(1) + seq!['/']);
        lemma_segments_trailing(x.skip(1));
        if x == seq!['.'] {
            assert(y =~= seq!['.', '/']);
        } else if x.len() >= 2 {
            assert(y[1] == x[1]);
        }
    } else {
        lemma_segments_trailing(x);
        if spec_curdir_form(y) {
            assert(x =~= seq!['.']);
        }
    }
}

/// A separator and a plain segment add that segment to the components.
proof fn lemma_components_append(x: Seq<char>, v: Seq<char>)
    requires
        x.len() > 0,
        spec_plain_segment(v),
    ensures
        spec_components(x + seq!['/'] + v) == spec_components(x).push(v),
{
    let y = x + seq!['/'] + v;
    assert(y[0] == x[0]);
    if x[0] == '/' || spec_curdir_form(x) {
        assert(y.skip(1) =~= x.skip(1) + seq!['/'] + v);
        lemma_segments_append(x.skip(1), v);
        if x == seq!['.'] {
            assert(y[1] == '/');
        } else if x.len() >= 2 {
            assert(y[1] == x[1]);
        }
        let r = spec_segments(x.skip(1));
        let head = if x[0] == '/' {
            seq!['/']
        } else {
            seq!['.']
        };
        assert(seq![head] + r.push(v) =~= (seq![head] + r).push(v));
    } else {
        lemma_segments_append(x, v);
        if spec_curdir_form(y) {
            if x.len() == 1 {
                assert(x =~= seq!['.']);
            } else {
                assert(y[1] == x[1]);
            }
        }
    }
}

/// Joining one plain segment (such as any valid component) onto any base
/// path gives exactly one more component: the joined path's components are
/// the base's followed by the segment, its file name is the segment, and
/// its parent is the base (as a path: the same components), so the segment
/// cannot lead out of the base.
pub proof fn lemma_join_segment(base: Seq<char>, v: Seq<char>)
    requires
        spec_plain_segment(v),
    ensures
        spec_components(spec_join(base, v)) == spec_components(base).push(v),
        spec_components(spec_join(base, v)).len() == spec_components(base).len() + 1,
        spec_file_name(spec_join(base, v)) == Some(v),
        spec_parent(spec_join(base, v)) matches Some(p) && spec_components(p) == spec_components(
            base,
        ),
{
    let j = spec_join(base, v);
    assert(v[0] != '/') by {
        assert(v.contains(v[0]));
    }
    if base.len() == 0 {
        assert(j =~= v);
        lemma_segments_single(v);
        assert(!spec_curdir_form(v)) by {
            if v.len() >= 2 && v[1] == '/' {
                assert(v.contains(v[1]));
            }
        }
        assert(spec_components(Seq::<char>::empty()) =~= Seq::<Seq<char>>::empty()) by {
            text::lemma_split_none(Seq::<char>::empty(), '/');
        }
        assert(seq![v] =~= Seq::<Seq<char>>::empty().push(v));
        text::lemma_split_none(v, '/');
    } else {
        let x = if base.last() == '/' {
            base.drop_last()
        } else {
            base
        };
        assert(j =~= x + seq!['/'] + v);
        text::lemma_rsplit_concat(x, '/', v);
        assert(j != seq!['/']) by {
            assert(j.len() > 1);
        }
        if x.len() == 0 {
            assert(base =~= seq!['/']);
            assert(j.skip(1) =~= v);
            lemma_segments_single(v);
            text::lemma_split_none(Seq::<char>::empty(), '/');
            assert(base.skip(1) =~= Seq::<char>::empty());
            assert(seq![seq!['/']] + seq![v] =~= (seq![seq!['/']] + Seq::<Seq<char>>::empty()).push(
                v,
            ));
            assert(seq![seq!['/']] + Seq::<Seq<char>>::empty() =~= seq![seq!['/']]);
        } else {
            lemma_components_append(x, v);
            if base.last() == '/' {
                assert(base =~= x + seq!['/']);
                lemma_components_trailing(x);
            }
        }
    }
}

/// How `Path` orders components: the root, then `.`, then `..`, then the
/// normal segments (by code point, which is UTF-8 byte order).
pub open spec fn spec_comp_rank(c: Seq<char>) -> int {
    if c == seq!['/'] {
        0
    } else if c == seq!['.'] {
        1
    } else if c == seq!['.', '.'] {
        2
    } else {
        3
    }
}

pub open spec fn spec_comp_lt(c: Seq<char>, d: Seq<char>) -> bool {
    spec_comp_rank(c) < spec_comp_rank(d) || (spec_comp_rank(c) == 3 && spec_comp_rank(d) == 3
        && order::lex_lt(c, d))
}

/// The order of component sequences: lexicographic in the component order.
pub open spec fn spec_comps_lt(a: Seq<Seq<char>>, b: Seq<Seq<char>>) -> bool
    decreases a.len(),
{
    if a.len() == 0 {
        b.len() > 0
    } else if b.len() == 0 {
        false
    } else if spec_comp_lt(a[0], b[0]) {
        true
    } else if spec_comp_lt(b[0], a[0]) {
        false
    } else {
        spec_comps_lt(a.drop_first(), b.drop_first())
    }
}

/// `a < b` as `Path`s compare: by their components.
pub open spec fn spec_path_lt(a: Seq<char>, b: Seq<char>) -> bool {
    spec_comps_lt(spec_components(a), spec_components(b))
}

/// `a == b` as `Path`s compare: the same components.
pub open spec fn spec_path_eq(a: Seq<char>, b: Seq<char>) -> bool {
    spec_components(a) == spec_components(b)
}

proof fn lemma_comp_total(c: Seq<char>, d: Seq<char>)
    ensures
        c == d || spec_comp_lt(c, d) || spec_comp_lt(d, c),
        !spec_comp_lt(c, c),
        spec_comp_lt(c, d) ==> !spec_comp_lt(d, c),
{
    order::lemma_lex_total(c, d);
    order::lemma_lex_irreflexive(c);
    if order::lex_lt(c, d) {
        order::lemma_lex_asymmetric(c, d);
    }
}

proof fn lemma_comp_transitive(a: Seq<char>, b: Seq<char>, c: Seq<char>)
    requires
        spec_comp_lt(a, b),
        spec_comp_lt(b, c),
    ensures
        spec_comp_lt(a, c),
{
    if spec_comp_rank(a) == 3 && spec_comp_rank(b) == 3 && spec_comp_rank(c) == 3 {
        order::lemma_lex_transitive(a, b, c);
    }
}

pub proof fn lemma_comps_irreflexive(a: Seq<Seq<char>>)
    ensures
        !spec_comps_lt(a, a),
    decreases a.len(),
{
    if a.len() > 0 {
        lemma_comp_total(a[0], a[0]);
        lemma_comps_irreflexive(a.drop_first());
    }
}

pub proof fn lemma_comps_transitive(a: Seq<Seq<char>>, b: Seq<Seq<char>>, c: Seq<Seq<char>>)
    requires
        spec_comps_lt(a, b),
        spec_comps_lt(b, c),
    ensures
        spec_comps_lt(a, c),
    decreases a.len(),
{
    if a.len() > 0 && b.len() > 0 && c.len() > 0 {
        lemma_comp_total(a[0], b[0]);
        lemma_comp_total(b[0], c[0]);
        lemma_comp_total(a[0], c[0]);
        if spec_comp_lt(a[0], b[0]) && spec_comp_lt(b[0], c[0]) {
            lemma_comp_transitive(a[0], b[0], c[0]);
        } else if a[0] == b[0] && b[0] == c[0] {
            lemma_comps_transitive(a.drop_first(), b.drop_first(), c.drop_first());
        }
    }
}

pub proof fn lemma_comps_total(a: Seq<Seq<char>>, b: Seq<Seq<char>>)
    ensures
        a == b || spec_comps_lt(a, b) || spec_comps_lt(b, a),
    decreases a.len(),
{
    if a.len() > 0 && b.len() > 0 {
        lemma_comp_total(a[0], b[0]);
        if a[0] == b[0] {
            lemma_comps_total(a.drop_first(), b.drop_first());
            if a.drop_first() == b.drop_first() {
                assert(a =~= seq![a[0]] + a.drop_first());
                assert(b =~= seq![b[0]] + b.drop_first());
            }
        }
    } else if a.len() == 0 && b.len() == 0 {
        assert(a =~= b);
    }
}

pub proof fn lemma_comps_asymmetric(a: Seq<Seq<char>>, b: Seq<Seq<char>>)
    requires
        spec_comps_lt(a, b),
    ensures
        !spec_comps_lt(b, a),
        a != b,
{
    if spec_comps_lt(b, a) {
        lemma_comps_transitive(a, b, a);
        lemma_comps_irreflexive(a);
    }
    if a == b {
        lemma_comps_irreflexive(a);
    }
}

pub open spec fn comp_views(v: Seq<Vec<char>>) -> Seq<Seq<char>> {
    v.map_values(|c: Vec<char>| c@)
}

fn is_one(v: &Vec<char>, c: char) -> (r: bool)
    ensures
        r == (v@ == seq![c]),
{
    let r = v.len() == 1 && v[0] == c;
    proof {
        if r {
            assert(v@ =~= seq![c]);
        }
        if v@ == seq![c] {
            assert(v@[0] == c);
        }
    }
    r
}

fn segments_of(v: &Vec<char>) -> (r: Vec<Vec<char>>)
    ensures
        comp_views(r@) == spec_segments(v@),
    decreases v.len(),
{
    proof {
        text::lemma_split_parts(v@, '/');
    }
    match text::split_once(v, '/') {
        Some((seg, rest)) => {
            let mut r = segments_of(&rest);
            if seg.len() == 0 || is_one(&seg, '.') {
                r
            } else {
                let ghost before = comp_views(r@);
                r.insert(0, seg);
                assert(comp_views(r@) =~= seq![r@[0]@] + before);
                r
            }
        },
        None => {
            let mut r: Vec<Vec<char>> = Vec::new();
            if v.len() == 0 || is_one(v, '.') {
                assert(comp_views(r@) =~= Seq::<Seq<char>>::empty());
                r
            } else {
                r.push(text::slice_of(v, 0, v.len()));
                assert(v@.subrange(0, v@.len() as int) =~= v@);
                assert(comp_views(r@) =~= seq![v@]);
                r
            }
        },
    }
}

/// The components of a path (see [`spec_components`]).
pub fn path_components(p: &str) -> (r: Vec<Vec<char>>)
    ensures
        comp_views(r@) == spec_components(p@),
{
    let v = chars_of(p);
    let n = v.len();
    let curdir = is_one(&v, '.') || (n >= 2 && v[0] == '.' && v[1] == '/');
    if (n > 0 && v[0] == '/') || curdir {
        let first = v[0];
        let rest = text::slice_of(&v, 1, n);
        assert(rest@ =~= v@.skip(1));
        let mut r = segments_of(&rest);
        let ghost before = comp_views(r@);
        let mut head: Vec<char> = Vec::new();
        head.push(first);
        r.insert(0, head);
        proof {
            if v@ == seq!['.'] {
                assert(v@[0] == '.');
            }
        }
        assert(comp_views(r@) =~= seq![seq![first]] + before);
        r
    } else {
        segments_of(&v)
    }
}

fn comp_rank(c: &Vec<char>) -> (r: u8)
    ensures
        r == spec_comp_rank(c@),
{
    if is_one(c, '/') {
        0
    } else if is_one(c, '.') {
        1
    } else {
        let two = c.len() == 2 && c[0] == '.' && c[1] == '.';
        proof {
            if two {
                assert(c@ =~= seq!['.', '.']);
            }
            if c@ == seq!['.', '.'] {
                assert(c@[0] == '.' && c@[1] == '.');
            }
        }
        if two {
            2
        } else {
            3
        }
    }
}

fn compare_comp(c: &Vec<char>, d: &Vec<char>) -> (r: Rel)
    ensures
        r == Rel::Less <==> spec_comp_lt(c@, d@),
        r == Rel::Greater <==> spec_comp_lt(d@, c@),
        r == Rel::Equal <==> c@ == d@,
{
    proof {
        lemma_comp_total(c@, d@);
        lemma_comp_total(d@, c@);
    }
    let rc = comp_rank(c);
    let rd = comp_rank(d);
    if rc < rd {
        Rel::Less
    } else if rd < rc {
        Rel::Greater
    } else if rc < 3 {
        Rel::Equal
    } else {
        order::compare_chars(c, d)
    }
}

/// `<` on paths is a strict weak order: transitive ...
pub proof fn lemma_path_lt_transitive(a: Seq<char>, b: Seq<char>, c: Seq<char>)
    requires
        spec_path_lt(a, b),
        spec_path_lt(b, c),
    ensures
        spec_path_lt(a, c),
{
    lemma_comps_transitive(spec_components(a), spec_components(b), spec_components(c));
}

/// ... total up to path equality ...
pub proof fn lemma_path_lt_total(a: Seq<char>, b: Seq<char>)
    ensures
        spec_path_eq(a, b) || spec_path_lt(a, b) || spec_path_lt(b, a),
{
    lemma_comps_total(spec_components(a), spec_components(b));
}

/// ... and asymmetric.
pub proof fn lemma_path_lt_asymmetric(a: Seq<char>, b: Seq<char>)
    requires
        spec_path_lt(a, b),
    ensures
        !spec_path_lt(b, a),
        !spec_path_eq(a, b),
{
    lemma_comps_asymmetric(spec_components(a), spec_components(b));
}

/// The three-way comparison of two paths as `Path`s compare them.
pub open spec fn spec_path_compare(a: Seq<char>, b: Seq<char>) -> Rel {
    if spec_path_lt(a, b) {
        Rel::Less
    } else if spec_path_eq(a, b) {
        Rel::Equal
    } else {
        Rel::Greater
    }
}

/// Compares two paths component by component, as `PathBuf`'s `Ord` and
/// `Eq` do.
pub fn compare_paths(a: &str, b: &str) -> (r: Rel)
    ensures
        r == spec_path_compare(a@, b@),
        r == Rel::Greater ==> spec_path_lt(b@, a@),
{
    let ca = path_components(a);
    let cb = path_components(b);
    let ghost x = comp_views(ca@);
    let ghost y = comp_views(cb@);
    let mut i: usize = 0;
    assert(x.skip(0) =~= x);
    assert(y.skip(0) =~= y);
    while i < ca.len() && i < cb.len()
        invariant
            x == comp_views(ca@),
            y == comp_views(cb@),
            x == spec_components(a@),
            y == spec_components(b@),
            i <= ca.len(),
            i <= cb.len(),
            x.take(i as int) == y.take(i as int),
            spec_comps_lt(x, y) == spec_comps_lt(x.skip(i as int), y.skip(i as int)),
            spec_comps_lt(y, x) == spec_comps_lt(y.skip(i as int), x.skip(i as int)),
        decreases ca.len() - i,
    {
        let ghost sx = x.skip(i as int);
        let ghost sy = y.skip(i as int);
        assert(sx[0] == x[i as int] && sy[0] == y[i as int]);
        assert(x[i as int] == ca@[i as int]@ && y[i as int] == cb@[i as int]@);
        assert(sx.len() > 0 && sy.len() > 0);
        match compare_comp(&ca[i], &cb[i]) {
            Rel::Less => {
                proof {
                    lemma_comps_asymmetric(x, y);
                }
                return Rel::Less;
            },
            Rel::Greater => {
                proof {
                    lemma_comps_asymmetric(y, x);
                }
                return Rel::Greater;
            },
            Rel::Equal => {},
        }
        proof {
            assert(sx.drop_first() =~= x.skip(i + 1));
            assert(sy.drop_first() =~= y.skip(i + 1));
            assert(x.take(i + 1) =~= x.take(i as int).push(x[i as int]));
            assert(y.take(i + 1) =~= y.take(i as int).push(y[i as int]));
        }
        i = i + 1;
    }
    if i == ca.len() && i == cb.len() {
        assert(x =~= x.take(i as int));
        assert(y =~= y.take(i as int));
        proof {
            lemma_comps_irreflexive(x);
        }
        Rel::Equal
    } else if i == ca.len() {
        assert(x.skip(i as int).len() == 0);
        proof {
            lemma_comps_asymmetric(x, y);
        }
        Rel::Less
    } else {
        assert(y.skip(i as int).len() == 0);
        proof {
            lemma_comps_asymmetric(y, x);
        }
        Rel::Greater
    }
}

/// Root for all machine-global myspace state, from the value of
/// `$MYSPACE_HOME` and the user's home directory: the variable when it is
/// set and not empty, otherwise `<home>/.myspace`; `None` when neither is
/// available.
pub open spec fn spec_myspace_home(env_value: Option<Seq<char>>, home: Option<Seq<char>>) -> Option<
    Seq<char>,
> {
    if env_value is Some && env_value->0.len() > 0 {
        env_value
    } else {
        match home {
            Some(h) => Some(spec_join(h, ".myspace"@)),
            None => None,
        }
    }
}

/// `$MYSPACE_HOME` wins when it is set and not empty; otherwise the home is
/// `.myspace` under the user's home directory, and there is none without
/// one.
pub proof fn lemma_myspace_home(v: Seq<char>, home: Option<Seq<char>>)
    ensures
        v.len() > 0 ==> spec_myspace_home(Some(v), home) == Some(v),
        spec_myspace_home(None, home) == spec_myspace_home(Some(Seq::<char>::empty()), home),
        home matches Some(h) ==> spec_myspace_home(None, home) == Some(spec_join(h, ".myspace"@)),
        home is None ==> spec_myspace_home(None, home) is None,
{
}

/// The myspace home (see [`spec_myspace_home`]) for a known home directory.
pub fn myspace_home_in(env_value: Option<String>, home: Option<String>) -> (r: Option<String>)
    ensures
        text::opt_view(r) == spec_myspace_home(text::opt_view(env_value), text::opt_view(home)),
{
    match env_value {
        Some(v) => {
            if v.unicode_len() > 0 {
                return Some(v);
            }
        },
        None => {},
    }
    match home {
        Some(h) => Some(join_path(h.as_str(), ".myspace")),
        None => None,
    }
}

/// Root for all machine-global myspace state: `$MYSPACE_HOME` (its value is
/// `env_value`) if set and not empty, otherwise `.myspace` under the user's
/// home directory, which is asked for only then. `None` when the home
/// directory cannot be determined.
pub fn myspace_home(env_value: Option<String>) -> (r: Option<String>)
    ensures
        env_value is Some && env_value->0@.len() > 0 ==> r == env_value,
        !(env_value is Some && env_value->0@.len() > 0) ==> (r is None || exists|h: Seq<char>|
            r->0@ == spec_join(h, ".myspace"@)),
{
    if env_value.is_some() {
        let v = env_value.unwrap();
        if v.unicode_len() > 0 {
            return Some(v);
        }
        let home = home_dir();
        let r = myspace_home_in(Some(v), home);
        proof {
            if r is Some {
                assert(r->0@ == spec_join(home->0@, ".myspace"@));
            }
        }
        return r;
    }
    let home = home_dir();
    let r = myspace_home_in(None, home);
    proof {
        if r is Some {
            assert(r->0@ == spec_join(home->0@, ".myspace"@));
        }
    }
    r
}

/// Directory holding the shared bare-repo cache, laid out as
/// `<host>/<org>/<repo>`.
pub fn get_bare_repos_dir(myspace_home: &str) -> (r: String)
    ensures
        r@ == spec_join(myspace_home@, "repos"@),
{
    join_path(myspace_home, "repos")
}

/// Directory for rotating log files.
pub fn get_logs_dir(myspace_home: &str) -> (r: String)
    ensures
        r@ == spec_join(myspace_home@, "logs"@),
{
    join_path(myspace_home, "logs")
}

/// The registry of known spaces.
pub fn registry_path(myspace_home: &str) -> (r: String)
    ensures
        r@ == spec_join(myspace_home@, "spaces.toml"@),
{
    join_path(myspace_home, "spaces.toml")
}

/// The lock file guarding one bare-repo cache entry: a sibling
/// `<repo>.lock`. `None` when the cache path has no parent or no file name.
pub open spec fn spec_repo_lock_path(cache_path: Seq<char>) -> Option<Seq<char>> {
    match (spec_parent(cache_path), spec_file_name(cache_path)) {
        (Some(parent), Some(name)) => Some(spec_join(parent, name + ".lock"@)),
        _ => None,
    }
}

pub fn repo_lock_path(cache_path: &str) -> (r: Option<String>)
    ensures
        text::opt_view(r) == spec_repo_lock_path(cache_path@),
{
    let parent = match parent(cache_path) {
        Some(p) => p,
        None => return None,
    };
    let name = file_name_or_empty(cache_path);
    if name.unicode_len() == 0 {
        proof {
            if spec_file_name(cache_path@) is Some {
                assert(spec_file_name(cache_path@)->0.len() > 0);
            }
        }
        return None;
    }
    let mut file = name;
    push_str(&mut file, ".lock");
    Some(join_path(parent.as_str(), file.as_str()))
}

/// The lock file guarding a space: `<space>/.myspace/lock`.
pub fn space_lock_path(space_root: &str) -> (r: String)
    ensures
        r@ == spec_join(spec_join(space_root@, ".myspace"@), "lock"@),
{
    let dir = join_path(space_root, ".myspace");
    join_path(dir.as_str(), "lock")
}

/// `Path::file_name` on a normalized path (no empty, `.` or trailing
/// components): the last component, unless it is `..` or there is none.
pub open spec fn spec_file_name(p: Seq<char>) -> Option<Seq<char>> {
    let last = match text::spec_rsplit_once(p, '/') {
        Some((_, l)) => l,
        None => p,
    };
    if last.len() == 0 || last == seq!['.'] || last == seq!['.', '.'] {
        None
    } else {
        Some(last)
    }
}

/// The last component of a normalized path, or the empty string when it
/// has none.
pub fn file_name_or_empty(p: &str) -> (r: String)
    ensures
        r@ == match spec_file_name(p@) {
            Some(n) => n,
            None => Seq::<char>::empty(),
        },
{
    let v = chars_of(p);
    let last = match text::rsplit_once(&v, '/') {
        Some((_, l)) => l,
        None => text::slice_of(&v, 0, v.len()),
    };
    assert(text::spec_rsplit_once(p@, '/') is None ==> last@ =~= p@);
    let n = last.len();
    if n == 0 || (n == 1 && last[0] == '.') || (n == 2 && last[0] == '.' && last[1] == '.') {
        proof {
            if n == 1 {
                assert(last@ =~= seq!['.']);
            }
            if n == 2 {
                assert(last@ =~= seq!['.', '.']);
            }
        }
        return String::new();
    }
    proof {
        if last@ == seq!['.'] {
            assert(last@[0] == '.');
        }
        if last@ == seq!['.', '.'] {
            assert(last@[0] == '.' && last@[1] == '.');
        }
    }
    text::string_from(&last)
}

/// `Path::parent` on a normalized path: `/` and the empty path have none; a
/// path without `/` has the empty path; otherwise everything before the last
/// `/` (or `/` itself for a top-level entry).
pub open spec fn spec_parent(p: Seq<char>) -> Option<Seq<char>> {
    if p.len() == 0 || p == seq!['/'] {
        None
    } else {
        match text::spec_rsplit_once(p, '/') {
            Some((before, _)) => if before.len() == 0 {
                Some(seq!['/'])
            } else {
                Some(before)
            },
            None => Some(Seq::<char>::empty()),
        }
    }
}

/// The parent of a normalized path, if it has one.
pub fn parent(p: &str) -> (r: Option<String>)
    ensures
        text::opt_view(r) == spec_parent(p@),
        r matches Some(q) ==> q@.len() < p@.len(),
{
    let v = chars_of(p);
    let n = v.len();
    if n == 0 || (n == 1 && v[0] == '/') {
        proof {
            if n == 1 {
                assert(v@ =~= seq!['/']);
            }
        }
        return None;
    }
    assert(v@ != seq!['/']) by {
        if v@ == seq!['/'] {
            assert(v@[0] == '/');
        }
    }
    proof {
        text::lemma_rsplit_parts(v@, '/');
    }
    match text::rsplit_once(&v, '/') {
        Some((before, _)) => if before.len() == 0 {
            let mut r = String::new();
            push_char(&mut r, '/');
            assert(r@ =~= seq!['/']);
            Some(r)
        } else {
            Some(text::string_from(&before))
        },
        None => Some(String::new()),
    }
}

/// `Path::starts_with` on normalized paths: `base` is a component-wise
/// prefix of `path`.
pub open spec fn spec_path_within(path: Seq<char>, base: Seq<char>) -> bool {
    &&& text::spec_starts_with(path, base)
    &&& (path.len() == base.len() || base.len() == 0 || base.last() == '/' || path[base.len() as int]
        == '/')
}

/// Whether `path` lies at or under `base` (both normalized).
pub fn path_within(path: &str, base: &str) -> (r: bool)
    ensures
        r == spec_path_within(path@, base@),
{
    let p = chars_of(path);
    let b = chars_of(base);
    if b.len() > p.len() {
        return false;
    }
    let prefix = text::slice_of(&p, 0, b.len());
    if !text::chars_eq(&prefix, &b) {
        return false;
    }
    p.len() == b.len() || b.len() == 0 || b[b.len() - 1] == '/' || p[b.len()] == '/'
}

} // verus!
