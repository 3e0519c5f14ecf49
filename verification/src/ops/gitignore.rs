//! The myspace-managed block of a space's `.gitignore`. Ignoring the member
//! repo dirs (nested git repos) and local-only state makes the space root
//! safely `git init`-able to version the manifest; user content outside the
//! markers is preserved.
use vstd::prelude::*;
use crate::text::{self, chars_of, push_char, push_str};
use crate::engine::target_parser;

verus! {

pub open spec fn spec_begin_marker() -> Seq<char> {
    "# --- managed by myspace: begin (do not edit inside this block) ---"@
}

pub open spec fn spec_end_marker() -> Seq<char> {
    "# --- managed by myspace: end ---"@
}

/// The marker that opens the managed block.
pub fn begin_marker() -> (r: &'static str)
    ensures
        r@ == spec_begin_marker(),
{
    "# --- managed by myspace: begin (do not edit inside this block) ---"
}

/// The marker that closes the managed block.
pub fn end_marker() -> (r: &'static str)
    ensures
        r@ == spec_end_marker(),
{
    "# --- managed by myspace: end ---"
}

/// The ignore line of one member: `/<name>/`.
pub open spec fn spec_member_line(name: Seq<char>) -> Seq<char> {
    seq!['/'] + name + seq!['/', '\n']
}

/// The managed block for the given members, in the given order.
pub open spec fn spec_block(names: Seq<Seq<char>>) -> Seq<char> {
    spec_begin_marker() + seq!['\n'] + ".myspace/state.toml\n"@ + ".myspace/trees/\n"@
        + ".myspace/deps/\n"@ + names.map_values(|n: Seq<char>| spec_member_line(n)).flatten()
        + spec_end_marker() + seq!['\n']
}

/// `pat` occurs in `s` at position `i`.
pub open spec fn is_match_at(s: Seq<char>, pat: Seq<char>, i: int) -> bool {
    0 <= i && i + pat.len() <= s.len() && s.subrange(i, i + pat.len()) == pat
}

/// `i` is the first position where `pat` occurs in `s`.
pub open spec fn is_first_match(s: Seq<char>, pat: Seq<char>, i: int) -> bool {
    is_match_at(s, pat, i) && forall|j: int| 0 <= j < i ==> !is_match_at(s, pat, j)
}

/// `str::find`: the first position of `pat` in `s`.
pub open spec fn spec_find(s: Seq<char>, pat: Seq<char>) -> Option<int> {
    if exists|i: int| is_first_match(s, pat, i) {
        Some(choose|i: int| is_first_match(s, pat, i))
    } else {
        None
    }
}

/// Where the managed block ends: just past the line break that follows the
/// end marker, or the end of the text when no line break follows.
pub open spec fn spec_block_end(existing: Seq<char>, end_marker: int) -> int {
    match text::spec_split_once(existing.skip(end_marker), '\n') {
        Some((line, _)) => end_marker + line.len() + 1,
        None => existing.len() as int,
    }
}

/// The `.gitignore` text after regenerating the managed block: a present
/// block (begin marker, then end marker at or after it) is replaced in place;
/// otherwise the block is appended after a blank line (or is the whole file
/// when there was none).
pub open spec fn spec_merge(existing: Seq<char>, block: Seq<char>) -> Seq<char> {
    let b = spec_find(existing, spec_begin_marker());
    let e = spec_find(existing, spec_end_marker());
    if b is Some && e is Some && e->0 >= b->0 {
        let end = spec_block_end(existing, e->0);
        existing.take(b->0) + block + existing.skip(end)
    } else if existing.len() == 0 {
        block
    } else if existing.last() == '\n' {
        existing + seq!['\n'] + block
    } else {
        existing + seq!['\n', '\n'] + block
    }
}

proof fn lemma_first_match_unique(s: Seq<char>, pat: Seq<char>, i: int)
    requires
        is_first_match(s, pat, i),
    ensures
        spec_find(s, pat) == Some(i),
{
    let k = choose|k: int| is_first_match(s, pat, k);
    assert(is_first_match(s, pat, k));
    if k < i {
        assert(!is_match_at(s, pat, k));
    } else if i < k {
        assert(!is_match_at(s, pat, i));
    }
}

fn matches_at(s: &Vec<char>, pat: &Vec<char>, i: usize) -> (r: bool)
    requires
        i + pat.len() <= s.len(),
    ensures
        r == is_match_at(s@, pat@, i as int),
{
    for k in 0..pat.len()
        invariant
            i + pat.len() <= s.len(),
            forall|j: int| 0 <= j < k ==> s@[i + j] == pat@[j],
    {
        if s[i + k] != pat[k] {
            assert(s@.subrange(i as int, i + pat.len())[k as int] != pat@[k as int]);
            return false;
        }
    }
    assert(s@.subrange(i as int, i + pat.len()) =~= pat@);
    true
}

/// The first position of `pat` in `s`.
pub fn find(s: &Vec<char>, pat: &Vec<char>) -> (r: Option<usize>)
    ensures
        match r {
            Some(i) => spec_find(s@, pat@) == Some(i as int),
            None => spec_find(s@, pat@) is None,
        },
{
    if pat.len() > s.len() {
        assert(!exists|i: int| is_first_match(s@, pat@, i));
        return None;
    }
    let last = s.len() - pat.len();
    let mut i: usize = 0;
    loop
        invariant
            last == s.len() - pat.len(),
            i <= last,
            forall|j: int| 0 <= j < i ==> !is_match_at(s@, pat@, j),
        ensures
            forall|j: int| 0 <= j <= last ==> !is_match_at(s@, pat@, j),
        decreases last - i,
    {
        if matches_at(s, pat, i) {
            proof {
                lemma_first_match_unique(s@, pat@, i as int);
            }
            return Some(i);
        }
        if i == last {
            break;
        }
        i = i + 1;
    }
    assert(!exists|j: int| is_first_match(s@, pat@, j)) by {
        if exists|j: int| is_first_match(s@, pat@, j) {
            let j = choose|j: int| is_first_match(s@, pat@, j);
            assert(j <= last);
        }
    }
    None
}

/// The managed block listing the given members.
pub fn managed_block(names: &Vec<String>) -> (r: String)
    ensures
        r@ == spec_block(names@.map_values(|n: String| n@)),
{
    let mut r = String::new();
    push_str(&mut r, begin_marker());
    push_char(&mut r, '\n');
    push_str(&mut r, ".myspace/state.toml\n");
    push_str(&mut r, ".myspace/trees/\n");
    push_str(&mut r, ".myspace/deps/\n");
    let ghost head = r@;
    let ghost lines = names@.map_values(|n: String| n@).map_values(
        |n: Seq<char>| spec_member_line(n),
    );
    for i in 0..names.len()
        invariant
            lines == names@.map_values(|n: String| n@).map_values(
                |n: Seq<char>| spec_member_line(n),
            ),
            r@ == head + lines.take(i as int).flatten(),
    {
        let ghost before = r@;
        push_char(&mut r, '/');
        push_str(&mut r, names[i].as_str());
        push_char(&mut r, '/');
        push_char(&mut r, '\n');
        proof {
            assert(r@ =~= before + lines[i as int]);
            assert(lines.take(i + 1) =~= lines.take(i as int).push(lines[i as int]));
            lines.take(i as int).lemma_flatten_push(lines[i as int]);
        }
    }
    assert(lines.take(lines.len() as int) =~= lines);
    push_str(&mut r, end_marker());
    push_char(&mut r, '\n');
    assert(r@ =~= spec_block(names@.map_values(|n: String| n@)));
    r
}

/// Regenerates the managed block of an existing `.gitignore` text (see
/// [`spec_merge`]).
pub fn merge_gitignore(existing: &str, block: &str) -> (r: String)
    ensures
        r@ == spec_merge(existing@, block@),
{
    let e = chars_of(existing);
    let bm = chars_of(begin_marker());
    let em = chars_of(end_marker());
    let b = find(&e, &bm);
    let m = find(&e, &em);
    match (b, m) {
        (Some(start), Some(end_marker)) => {
            if end_marker >= start {
                proof {
                    let k = choose|k: int| is_first_match(e@, em@, k);
                    assert(is_match_at(e@, em@, k));
                }
                let after = text::slice_of(&e, end_marker, e.len());
                assert(after@ =~= e@.skip(end_marker as int));
                let end = match text::find_first(&after, '\n') {
                    Some(n) => {
                        proof {
                            text::lemma_split_once_at(after@, '\n', n as int);
                        }
                        end_marker + n + 1
                    },
                    None => {
                        proof {
                            text::lemma_split_none(after@, '\n');
                        }
                        e.len()
                    },
                };
                let mut r = text::string_of(&e, 0, start);
                push_str(&mut r, block);
                let tail = text::string_of(&e, end, e.len());
                push_str(&mut r, tail.as_str());
                assert(r@ =~= spec_merge(existing@, block@));
                return r;
            }
        },
        _ => {},
    }
    if e.len() == 0 {
        return String::from_str(block);
    }
    let mut r = String::from_str(existing);
    if e[e.len() - 1] != '\n' {
        push_char(&mut r, '\n');
    }
    push_char(&mut r, '\n');
    push_str(&mut r, block);
    assert(r@ =~= spec_merge(existing@, block@));
    r
}

/// A managed block as a merge finds it again: it opens with the begin
/// marker, its first end marker is its last line, and a line break ends it.
pub open spec fn spec_well_formed_block(b: Seq<char>) -> bool {
    &&& is_match_at(b, spec_begin_marker(), 0)
    &&& is_first_match(b, spec_end_marker(), b.len() - spec_end_marker().len() - 1)
    &&& b.len() > 0
    &&& b.last() == '\n'
}

/// A `.gitignore` text the merge can regenerate in place: it holds no
/// marker yet, or its first end marker follows its first begin marker.
pub open spec fn spec_regenerable(existing: Seq<char>) -> bool {
    let b = spec_find(existing, spec_begin_marker());
    let e = spec_find(existing, spec_end_marker());
    ||| (b is None && e is None)
    ||| (b is Some && e is Some && e->0 >= b->0)
}

proof fn lemma_marker_facts()
    ensures
        !spec_begin_marker().contains('\n'),
        !spec_end_marker().contains('\n'),
        spec_end_marker().len() <= spec_begin_marker().len(),
        spec_end_marker().len() > 27,
        spec_end_marker()[0] == '#',
        spec_end_marker()[1] == ' ',
        spec_end_marker().last() == '-',
        spec_end_marker()[26] != spec_begin_marker()[26],
        forall|j: int|
            1 <= j < spec_block_head().len() ==> #[trigger] spec_block_head()[j] != '#',
        spec_block_head().take(spec_begin_marker().len() as int) == spec_begin_marker(),
{
    reveal_strlit("# --- managed by myspace: begin (do not edit inside this block) ---");
    reveal_strlit("# --- managed by myspace: end ---");
    reveal_strlit(".myspace/state.toml\n");
    reveal_strlit(".myspace/trees/\n");
    reveal_strlit(".myspace/deps/\n");
    assert(spec_block_head().take(spec_begin_marker().len() as int) =~= spec_begin_marker());
}

/// The fixed lines a block opens with.
pub open spec fn spec_block_head() -> Seq<char> {
    spec_begin_marker() + seq!['\n'] + ".myspace/state.toml\n"@ + ".myspace/trees/\n"@
        + ".myspace/deps/\n"@
}

/// Whether a match lies wholly inside a prefix that two texts share.
proof fn lemma_match_shared_prefix(s: Seq<char>, t: Seq<char>, pat: Seq<char>, j: int, k: int)
    requires
        0 <= j,
        j + pat.len() <= k <= s.len(),
        k <= t.len(),
        s.take(k) == t.take(k),
    ensures
        is_match_at(s, pat, j) == is_match_at(t, pat, j),
{
    assert(s.subrange(j, j + pat.len()) =~= s.take(k).subrange(j, j + pat.len()));
    assert(t.subrange(j, j + pat.len()) =~= t.take(k).subrange(j, j + pat.len()));
}

/// A pattern without the character `c` matches nowhere around a `c`.
proof fn lemma_no_match_across(s: Seq<char>, pat: Seq<char>, c: char, i: int, j: int)
    requires
        !pat.contains(c),
        0 <= i < s.len(),
        s[i] == c,
        j <= i < j + pat.len(),
    ensures
        !is_match_at(s, pat, j),
{
    if is_match_at(s, pat, j) {
        assert(s.subrange(j, j + pat.len())[i - j] == s[i]);
        assert(pat[i - j] == c);
    }
}

/// A match inside the middle part of a concatenation.
proof fn lemma_match_shift(x: Seq<char>, b: Seq<char>, y: Seq<char>, pat: Seq<char>, j: int)
    requires
        0 <= j,
        j + pat.len() <= b.len(),
    ensures
        is_match_at(x + b + y, pat, x.len() + j) == is_match_at(b, pat, j),
{
    assert((x + b + y).subrange(x.len() + j, x.len() + j + pat.len()) =~= b.subrange(
        j,
        j + pat.len(),
    ));
}

/// A text with a match has a first match.
proof fn lemma_first_match_exists(s: Seq<char>, pat: Seq<char>, j: int)
    requires
        is_match_at(s, pat, j),
    ensures
        exists|i: int| is_first_match(s, pat, i),
    decreases j,
{
    if exists|k: int| 0 <= k < j && is_match_at(s, pat, k) {
        let k = choose|k: int| 0 <= k < j && is_match_at(s, pat, k);
        lemma_first_match_exists(s, pat, k);
    } else {
        assert(is_first_match(s, pat, j));
    }
}

/// The first match of `b` is the first match of `x + b + y` when nothing
/// matches before `b` starts.
proof fn lemma_first_in_middle(x: Seq<char>, b: Seq<char>, y: Seq<char>, pat: Seq<char>, i: int)
    requires
        is_first_match(b, pat, i),
        forall|j: int| 0 <= j < x.len() ==> !is_match_at(x + b + y, pat, j),
    ensures
        is_first_match(x + b + y, pat, x.len() + i),
{
    lemma_match_shift(x, b, y, pat, i);
    assert forall|j: int| 0 <= j < x.len() + i implies !is_match_at(x + b + y, pat, j) by {
        if j >= x.len() {
            lemma_match_shift(x, b, y, pat, j - x.len());
        }
    }
}

/// Replacing a well-formed block found at `x.len()` in `x + b + y`.
proof fn lemma_merge_found_block(x: Seq<char>, b: Seq<char>, y: Seq<char>, second: Seq<char>)
    requires
        spec_well_formed_block(b),
        forall|j: int| 0 <= j < x.len() ==> !is_match_at(x + b + y, spec_begin_marker(), j),
        forall|j: int| 0 <= j < x.len() ==> !is_match_at(x + b + y, spec_end_marker(), j),
    ensures
        spec_merge(x + b + y, second) == x + second + y,
{
    let m = x + b + y;
    let em = spec_end_marker();
    let q = b.len() - em.len() - 1;
    lemma_marker_facts();
    assert(is_first_match(b, spec_begin_marker(), 0));
    lemma_first_in_middle(x, b, y, spec_begin_marker(), 0);
    lemma_first_match_unique(m, spec_begin_marker(), x.len() as int);
    lemma_first_in_middle(x, b, y, em, q);
    lemma_first_match_unique(m, em, x.len() + q);
    assert(b.subrange(q, q + em.len()) == em);
    assert(m.skip(x.len() + q) =~= em + seq!['\n'] + y) by {
        assert forall|k: int| 0 <= k < em.len() implies m.skip(x.len() + q)[k] == em[k] by {
            assert(b.subrange(q, q + em.len())[k] == b[q + k]);
        }
    }
    text::lemma_split_concat(em, '\n', y);
    assert(m.take(x.len() as int) =~= x);
    assert(m.skip((x.len() + b.len()) as int) =~= y);
}

/// `pat` occurs somewhere in `s`.
pub open spec fn spec_holds_text(s: Seq<char>, pat: Seq<char>) -> bool {
    exists|j: int| is_match_at(s, pat, j)
}

/// A pattern without line breaks occurs in `a + b`, where `a` ends a line,
/// only if it occurs in `a` or in `b`.
proof fn lemma_no_match_concat(a: Seq<char>, b: Seq<char>, pat: Seq<char>)
    requires
        !pat.contains('\n'),
        a.len() == 0 || a.last() == '\n',
        !spec_holds_text(a, pat),
        !spec_holds_text(b, pat),
    ensures
        !spec_holds_text(a + b, pat),
{
    if spec_holds_text(a + b, pat) {
        let j = choose|j: int| is_match_at(a + b, pat, j);
        if j + pat.len() <= a.len() {
            assert((a + b).take(a.len() as int) =~= a.take(a.len() as int));
            lemma_match_shared_prefix(a + b, a, pat, j, a.len() as int);
        } else if j >= a.len() {
            assert(a + b + Seq::<char>::empty() =~= a + b);
            lemma_match_shift(a, b, Seq::<char>::empty(), pat, j - a.len());
        } else {
            lemma_no_match_across(a + b, pat, '\n', a.len() - 1, j);
        }
    }
}

/// A member line holds a pattern only where its name does, when the
/// pattern has no line break and neither starts nor ends with `/`.
proof fn lemma_line_no_match(n: Seq<char>, pat: Seq<char>)
    requires
        !spec_holds_text(n, pat),
        !pat.contains('\n'),
        pat.len() > 0,
        pat[0] != '/',
        pat.last() != '/',
    ensures
        !spec_holds_text(spec_member_line(n), pat),
{
    let line = spec_member_line(n);
    let l = pat.len() as int;
    let m = n.len() as int;
    if spec_holds_text(line, pat) {
        let j = choose|j: int| is_match_at(line, pat, j);
        assert(line.subrange(j, j + l)[0] == line[j]);
        assert(line.subrange(j, j + l)[l - 1] == line[j + l - 1]);
        if j == 0 {
        } else if j + l <= n.len() + 1 {
            lemma_match_shift(seq!['/'], n, seq!['/', '\n'], pat, j - 1);
        } else if j + l - 1 == n.len() + 1 {
            assert(line[m + 1] == '/');
        } else {
            assert(line[m + 2] == '\n');
            lemma_no_match_across(line, pat, '\n', m + 2, j);
        }
    }
}

/// Lines that each end in a line break and hold no `pat` flatten to a text
/// that holds no `pat` and ends in a line break, if it is not empty.
proof fn lemma_lines_flatten(lines: Seq<Seq<char>>, pat: Seq<char>)
    requires
        !pat.contains('\n'),
        pat.len() > 0,
        forall|i: int|
            0 <= i < lines.len() ==> !spec_holds_text(#[trigger] lines[i], pat) && lines[i].len() > 0
                && lines[i].last() == '\n',
    ensures
        !spec_holds_text(lines.flatten(), pat),
        lines.flatten().len() > 0 ==> lines.flatten().last() == '\n',
    decreases lines.len(),
{
    if lines.len() > 0 {
        let init = lines.drop_last();
        let l = lines.last();
        assert(lines =~= init.push(l));
        assert forall|i: int| 0 <= i < init.len() implies !spec_holds_text(#[trigger] init[i], pat)
            && init[i].len() > 0 && init[i].last() == '\n' by {
            assert(init[i] == lines[i]);
        }
        lemma_lines_flatten(init, pat);
        init.lemma_flatten_push(l);
        lemma_no_match_concat(init.flatten(), l, pat);
    } else {
        assert(lines.flatten() =~= Seq::<char>::empty());
        if spec_holds_text(lines.flatten(), pat) {
            let j = choose|j: int| is_match_at(lines.flatten(), pat, j);
        }
    }
}

/// The managed block is well formed when no member name holds the end
/// marker's text.
pub proof fn lemma_block_well_formed(names: Seq<Seq<char>>)
    requires
        forall|i: int| 0 <= i < names.len() ==> !spec_holds_text(#[trigger] names[i], spec_end_marker()),
    ensures
        spec_well_formed_block(spec_block(names)),
{
    let lines = names.map_values(|n: Seq<char>| spec_member_line(n));
    let f = lines.flatten();
    let h = spec_block_head();
    let em = spec_end_marker();
    let b = spec_block(names);
    assert(b =~= h + f + em + seq!['\n']);
    lemma_marker_facts();
    assert forall|i: int| 0 <= i < lines.len() implies !spec_holds_text(#[trigger] lines[i], em)
        && lines[i].len() > 0 && lines[i].last() == '\n' by {
        lemma_line_no_match(names[i], em);
    }
    lemma_lines_flatten(lines, em);
    let q = (h.len() + f.len()) as int;
    assert(b.len() - em.len() - 1 == q);
    assert(is_match_at(b, spec_begin_marker(), 0)) by {
        assert(b.subrange(0, spec_begin_marker().len() as int) =~= h.take(
            spec_begin_marker().len() as int,
        ));
    }
    assert(b.subrange(q, q + em.len()) =~= em);
    assert forall|j: int| 0 <= j < q implies !is_match_at(b, em, j) by {
        if is_match_at(b, em, j) {
            assert(b.subrange(j, j + em.len())[0] == b[j]);
            if j == 0 {
                assert(b.subrange(0, em.len() as int)[26] == b[26]);
                assert(b[26] == h[26]);
                assert(h[26] == spec_begin_marker()[26]) by {
                    assert(h.take(spec_begin_marker().len() as int)[26] == h[26]);
                }
            } else if j < h.len() {
                assert(b[j] == h[j]);
            } else if j + em.len() <= q {
                assert(b =~= h + f + (em + seq!['\n']));
                lemma_match_shift(h, f, em + seq!['\n'], em, j - h.len());
            } else {
                assert(b[q - 1] == f.last());
                lemma_no_match_across(b, em, '\n', q - 1, j);
            }
        }
    }
}

/// Regenerating the managed block twice gives what regenerating it once
/// with the second block gives: the first block is found again and replaced
/// in place, never duplicated, and the user's text around it is kept as it
/// was. This holds of any text the merge can regenerate in place and any
/// first block none of whose member names holds the end marker's text.
pub proof fn lemma_merge_replaces_block(
    existing: Seq<char>,
    first: Seq<Seq<char>>,
    second: Seq<char>,
)
    requires
        spec_regenerable(existing),
        forall|i: int| 0 <= i < first.len() ==> !spec_holds_text(#[trigger] first[i], spec_end_marker()),
    ensures
        spec_merge(spec_merge(existing, spec_block(first)), second) == spec_merge(existing, second),
{
    let b1 = spec_block(first);
    let bm = spec_begin_marker();
    let em = spec_end_marker();
    lemma_block_well_formed(first);
    lemma_marker_facts();
    let fb = spec_find(existing, bm);
    let fe = spec_find(existing, em);
    if fb is Some && fe is Some && fe->0 >= fb->0 {
        let p = fb->0;
        let en = fe->0;
        let end = spec_block_end(existing, en);
        let x = existing.take(p);
        let y = existing.skip(end);
        let m = x + b1 + y;
        assert(is_first_match(existing, bm, p)) by {
            let k = choose|k: int| is_first_match(existing, bm, k);
        }
        assert(is_first_match(existing, em, en)) by {
            let k = choose|k: int| is_first_match(existing, em, k);
        }
        let k = p + bm.len();
        assert(m.take(k) =~= existing.take(k)) by {
            assert(existing.subrange(p, p + bm.len()) == bm);
            assert(b1.subrange(0, bm.len() as int) == bm);
            assert forall|i: int| 0 <= i < k implies m.take(k)[i] == existing.take(k)[i] by {
                if i >= p {
                    assert(b1.subrange(0, bm.len() as int)[i - p] == b1[i - p]);
                    assert(existing.subrange(p, p + bm.len())[i - p] == existing[i]);
                }
            }
        }
        assert forall|j: int| 0 <= j < x.len() implies !is_match_at(m, bm, j) by {
            lemma_match_shared_prefix(m, existing, bm, j, k);
        }
        assert forall|j: int| 0 <= j < x.len() implies !is_match_at(m, em, j) by {
            lemma_match_shared_prefix(m, existing, em, j, k);
        }
        lemma_merge_found_block(x, b1, y, second);
    } else {
        assert(fb is None && fe is None);
        let x = if existing.len() == 0 {
            existing
        } else if existing.last() == '\n' {
            existing + seq!['\n']
        } else {
            existing + seq!['\n', '\n']
        };
        let y = Seq::<char>::empty();
        let m = x + b1 + y;
        assert(spec_merge(existing, b1) =~= m);
        assert(spec_merge(existing, second) =~= x + second + y);
        assert forall|pat: Seq<char>, j: int|
            (pat == bm || pat == em) && 0 <= j < x.len() implies !is_match_at(m, pat, j) by {
            assert(!pat.contains('\n'));
            if j + pat.len() <= existing.len() {
                assert(m.take(existing.len() as int) =~= existing.take(existing.len() as int));
                lemma_match_shared_prefix(m, existing, pat, j, existing.len() as int);
                if is_match_at(existing, pat, j) {
                    lemma_first_match_exists(existing, pat, j);
                }
            } else {
                let i = if j >= existing.len() {
                    j
                } else {
                    existing.len() as int
                };
                assert(m[i] == '\n');
                lemma_no_match_across(m, pat, '\n', i, j);
            }
        }
        lemma_merge_found_block(x, b1, y, second);
    }
}

} // verus!
