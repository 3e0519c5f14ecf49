//! Character classes and small scanning primitives over character sequences.
//!
//! Everything here works on `Vec<char>` in executable code and on
//! `Seq<char>` in specifications, so that parsers can state their results
//! as exact functions of the input characters.
use vstd::prelude::*;
use vstd::string::*;

verus! {

/// The Unicode `White_Space` property (the set tested by `char::is_whitespace`).
pub open spec fn spec_is_whitespace(c: char) -> bool {
    ||| ('\u{9}' <= c && c <= '\u{d}')
    ||| c == ' '
    ||| c == '\u{85}'
    ||| c == '\u{a0}'
    ||| c == '\u{1680}'
    ||| ('\u{2000}' <= c && c <= '\u{200a}')
    ||| c == '\u{2028}'
    ||| c == '\u{2029}'
    ||| c == '\u{202f}'
    ||| c == '\u{205f}'
    ||| c == '\u{3000}'
}

/// The Unicode general category `Cc` (the set tested by `char::is_control`).
pub open spec fn spec_is_control(c: char) -> bool {
    c <= '\u{1f}' || ('\u{7f}' <= c && c <= '\u{9f}')
}

pub fn is_whitespace(c: char) -> (r: bool)
    ensures
        r == spec_is_whitespace(c),
{
    ('\u{9}' <= c && c <= '\u{d}') || c == ' ' || c == '\u{85}' || c == '\u{a0}' || c
        == '\u{1680}' || ('\u{2000}' <= c && c <= '\u{200a}') || c == '\u{2028}' || c == '\u{2029}'
        || c == '\u{202f}' || c == '\u{205f}' || c == '\u{3000}'
}

pub fn is_control(c: char) -> (r: bool)
    ensures
        r == spec_is_control(c),
{
    c <= '\u{1f}' || ('\u{7f}' <= c && c <= '\u{9f}')
}

/// `i` is the position of the first `c` in `s`.
pub open spec fn is_first_index(s: Seq<char>, c: char, i: int) -> bool {
    &&& 0 <= i < s.len()
    &&& s[i] == c
    &&& forall|j: int| 0 <= j < i ==> s[j] != c
}

/// `i` is the position of the last `c` in `s`.
pub open spec fn is_last_index(s: Seq<char>, c: char, i: int) -> bool {
    &&& 0 <= i < s.len()
    &&& s[i] == c
    &&& forall|j: int| i < j < s.len() ==> s[j] != c
}

/// `str::split_once` on a single character: the parts before and after the
/// first occurrence of `c`.
pub open spec fn spec_split_once(s: Seq<char>, c: char) -> Option<(Seq<char>, Seq<char>)> {
    if exists|i: int| is_first_index(s, c, i) {
        let i = choose|i: int| is_first_index(s, c, i);
        Some((s.take(i), s.skip(i + 1)))
    } else {
        None
    }
}

/// `str::rsplit_once` on a single character: the parts before and after the
/// last occurrence of `c`.
pub open spec fn spec_rsplit_once(s: Seq<char>, c: char) -> Option<(Seq<char>, Seq<char>)> {
    if exists|i: int| is_last_index(s, c, i) {
        let i = choose|i: int| is_last_index(s, c, i);
        Some((s.take(i), s.skip(i + 1)))
    } else {
        None
    }
}

pub open spec fn pair_view(p: Option<(Vec<char>, Vec<char>)>) -> Option<(Seq<char>, Seq<char>)> {
    match p {
        Some((a, b)) => Some((a@, b@)),
        None => None,
    }
}

pub open spec fn opt_view(o: Option<String>) -> Option<Seq<char>> {
    match o {
        Some(s) => Some(s@),
        None => None,
    }
}

/// Splitting at a known first occurrence.
pub proof fn lemma_split_once_at(s: Seq<char>, c: char, i: int)
    requires
        is_first_index(s, c, i),
    ensures
        spec_split_once(s, c) == Some((s.take(i), s.skip(i + 1))),
{
    let k = choose|k: int| is_first_index(s, c, k);
    assert(is_first_index(s, c, k));
    if k < i {
        assert(s[k] != c);
    } else if i < k {
        assert(s[i] != c);
    }
}

/// Splitting at a known last occurrence.
pub proof fn lemma_rsplit_once_at(s: Seq<char>, c: char, i: int)
    requires
        is_last_index(s, c, i),
    ensures
        spec_rsplit_once(s, c) == Some((s.take(i), s.skip(i + 1))),
{
    let k = choose|k: int| is_last_index(s, c, k);
    assert(is_last_index(s, c, k));
    if k < i {
        assert(s[i] != c);
    } else if i < k {
        assert(s[k] != c);
    }
}

/// Without any occurrence there is nothing to split at.
pub proof fn lemma_split_none(s: Seq<char>, c: char)
    requires
        !s.contains(c),
    ensures
        spec_split_once(s, c) is None,
        spec_rsplit_once(s, c) is None,
{
    if exists|i: int| is_first_index(s, c, i) {
        let i = choose|i: int| is_first_index(s, c, i);
        assert(s[i] == c);
    }
    if exists|i: int| is_last_index(s, c, i) {
        let i = choose|i: int| is_last_index(s, c, i);
        assert(s[i] == c);
    }
}

/// A character that occurs has a first occurrence.
pub proof fn lemma_first_exists(s: Seq<char>, c: char)
    requires
        s.contains(c),
    ensures
        exists|i: int| is_first_index(s, c, i),
    decreases s.len(),
{
    if s[0] == c {
        assert(is_first_index(s, c, 0));
    } else {
        let t = s.drop_first();
        let k = choose|k: int| 0 <= k < s.len() && s[k] == c;
        assert(t[k - 1] == c);
        lemma_first_exists(t, c);
        let i = choose|i: int| is_first_index(t, c, i);
        assert(is_first_index(s, c, i + 1)) by {
            assert forall|j: int| 0 <= j < i + 1 implies s[j] != c by {
                if j > 0 {
                    assert(s[j] == t[j - 1]);
                }
            }
        }
    }
}

/// A character that occurs has a last occurrence.
pub proof fn lemma_last_exists(s: Seq<char>, c: char)
    requires
        s.contains(c),
    ensures
        exists|i: int| is_last_index(s, c, i),
    decreases s.len(),
{
    let n = s.len() - 1;
    if s[n] == c {
        assert(is_last_index(s, c, n));
    } else {
        let t = s.drop_last();
        let k = choose|k: int| 0 <= k < s.len() && s[k] == c;
        assert(t[k] == c);
        lemma_last_exists(t, c);
        let i = choose|i: int| is_last_index(t, c, i);
        assert(is_last_index(s, c, i)) by {
            assert forall|j: int| i < j < s.len() implies s[j] != c by {
                if j < n {
                    assert(s[j] == t[j]);
                }
            }
        }
    }
}

/// What a successful split consists of, and when there is none.
pub proof fn lemma_split_parts(s: Seq<char>, c: char)
    ensures
        spec_split_once(s, c) is None <==> !s.contains(c),
        spec_split_once(s, c) matches Some((a, b)) ==> {
            &&& !a.contains(c)
            &&& s == a + seq![c] + b
        },
{
    if s.contains(c) {
        lemma_first_exists(s, c);
        let i = choose|i: int| is_first_index(s, c, i);
        lemma_split_once_at(s, c, i);
        let a = s.take(i);
        let b = s.skip(i + 1);
        assert(s =~= a + seq![c] + b);
        assert(!a.contains(c)) by {
            if a.contains(c) {
                let k = choose|k: int| 0 <= k < a.len() && a[k] == c;
                assert(s[k] == c);
            }
        }
    } else {
        lemma_split_none(s, c);
    }
}

/// What a successful split at the last occurrence consists of, and when
/// there is none.
pub proof fn lemma_rsplit_parts(s: Seq<char>, c: char)
    ensures
        spec_rsplit_once(s, c) is None <==> !s.contains(c),
        spec_rsplit_once(s, c) matches Some((a, b)) ==> {
            &&& !b.contains(c)
            &&& s == a + seq![c] + b
        },
{
    if s.contains(c) {
        lemma_last_exists(s, c);
        let i = choose|i: int| is_last_index(s, c, i);
        lemma_rsplit_once_at(s, c, i);
        let a = s.take(i);
        let b = s.skip(i + 1);
        assert(s =~= a + seq![c] + b);
        assert(!b.contains(c)) by {
            if b.contains(c) {
                let k = choose|k: int| 0 <= k < b.len() && b[k] == c;
                assert(s[i + 1 + k] == c);
            }
        }
    } else {
        lemma_split_none(s, c);
    }
}

/// Splitting `a c b` at its first `c`, when `a` holds none.
pub proof fn lemma_split_concat(a: Seq<char>, c: char, b: Seq<char>)
    requires
        !a.contains(c),
    ensures
        spec_split_once(a + seq![c] + b, c) == Some((a, b)),
{
    let s = a + seq![c] + b;
    let i = a.len() as int;
    assert(is_first_index(s, c, i)) by {
        assert forall|j: int| 0 <= j < i implies s[j] != c by {
            assert(s[j] == a[j]);
        }
    }
    lemma_split_once_at(s, c, i);
    assert(s.take(i) =~= a);
    assert(s.skip(i + 1) =~= b);
}

/// Splitting `a c b` at its last `c`, when `b` holds none.
pub proof fn lemma_rsplit_concat(a: Seq<char>, c: char, b: Seq<char>)
    requires
        !b.contains(c),
    ensures
        spec_rsplit_once(a + seq![c] + b, c) == Some((a, b)),
{
    let s = a + seq![c] + b;
    let i = a.len() as int;
    assert(is_last_index(s, c, i)) by {
        assert forall|j: int| i < j < s.len() implies s[j] != c by {
            assert(s[j] == b[j - i - 1]);
        }
    }
    lemma_rsplit_once_at(s, c, i);
    assert(s.take(i) =~= a);
    assert(s.skip(i + 1) =~= b);
}

/// A concatenation holds a character only if one of its parts does.
pub proof fn lemma_concat_contains(a: Seq<char>, b: Seq<char>, c: char)
    ensures
        (a + b).contains(c) <==> (a.contains(c) || b.contains(c)),
{
    let s = a + b;
    if s.contains(c) {
        let k = choose|k: int| 0 <= k < s.len() && s[k] == c;
        if k < a.len() {
            assert(a[k] == c);
        } else {
            assert(b[k - a.len()] == c);
        }
    }
    if a.contains(c) {
        let k = choose|k: int| 0 <= k < a.len() && a[k] == c;
        assert(s[k] == c);
    }
    if b.contains(c) {
        let k = choose|k: int| 0 <= k < b.len() && b[k] == c;
        assert(s[a.len() + k] == c);
    }
}

/// `std::String::push`: appends one character at the end of the string.
#[verifier::external_body]
pub(crate) fn push_char(s: &mut String, c: char)
    ensures
        final(s)@ == old(s)@.push(c),
{
    s.push(c);
}

/// What `format!("{:?}", s)` gives for a string `s`: `s` in double quotes,
/// with the characters that `str`'s `Debug` escapes written as escapes.
pub uninterp spec fn spec_debug_quoted(s: Seq<char>) -> Seq<char>;

/// Printable ASCII other than `"` and `\`: the characters that `str`'s
/// `Debug` writes as they are.
pub open spec fn spec_plain_ascii(s: Seq<char>) -> bool {
    forall|i: int| 0 <= i < s.len() ==> ' ' <= #[trigger] s[i] <= '~' && s[i] != '"' && s[i] != '\\'
}

/// `format!("{:?}", s)` for a string: the `Debug` form of `str`. Its result
/// is a function of `s` alone; of it the contract states only that a string
/// of printable ASCII without `"` or `\` is written in double quotes as it
/// is. Which other characters are escaped, and how, is left unsaid: that
/// follows Unicode tables inside std.
#[verifier::external_body]
pub(crate) fn debug_quoted(s: &str) -> (r: String)
    ensures
        r@ == spec_debug_quoted(s@),
        spec_plain_ascii(s@) ==> r@ == seq!['"'] + s@ + seq!['"'],
{
    format!("{:?}", s)
}

/// The characters of a string, in order.
pub fn chars_of(s: &str) -> (v: Vec<char>)
    ensures
        v@ == s@,
{
    let n = s.unicode_len();
    let mut v: Vec<char> = Vec::new();
    for i in 0..n
        invariant
            n == s@.len(),
            v@ == s@.subrange(0, i as int),
    {
        v.push(s.get_char(i));
    }
    assert(v@ == s@);
    v
}

/// A string holding `v[lo..hi]`.
pub fn string_of(v: &Vec<char>, lo: usize, hi: usize) -> (r: String)
    requires
        lo <= hi <= v.len(),
    ensures
        r@ == v@.subrange(lo as int, hi as int),
{
    let mut r = String::new();
    let mut i = lo;
    while i < hi
        invariant
            lo <= i <= hi <= v.len(),
            r@ == v@.subrange(lo as int, i as int),
        decreases hi - i,
    {
        push_char(&mut r, v[i]);
        i = i + 1;
    }
    r
}

/// A string holding exactly the characters of `v`.
pub fn string_from(v: &Vec<char>) -> (r: String)
    ensures
        r@ == v@,
{
    let r = string_of(v, 0, v.len());
    assert(v@.subrange(0, v@.len() as int) =~= v@);
    r
}

/// A vector holding `v[lo..hi]`.
pub fn slice_of(v: &Vec<char>, lo: usize, hi: usize) -> (r: Vec<char>)
    requires
        lo <= hi <= v.len(),
    ensures
        r@ == v@.subrange(lo as int, hi as int),
{
    let mut r: Vec<char> = Vec::new();
    let mut i = lo;
    while i < hi
        invariant
            lo <= i <= hi <= v.len(),
            r@ == v@.subrange(lo as int, i as int),
        decreases hi - i,
    {
        r.push(v[i]);
        i = i + 1;
    }
    r
}

pub fn contains_char(v: &Vec<char>, c: char) -> (r: bool)
    ensures
        r == v@.contains(c),
{
    for i in 0..v.len()
        invariant
            forall|j: int| 0 <= j < i ==> v@[j] != c,
    {
        if v[i] == c {
            return true;
        }
    }
    false
}

pub fn find_first(v: &Vec<char>, c: char) -> (r: Option<usize>)
    ensures
        r matches Some(i) ==> is_first_index(v@, c, i as int),
        r is None ==> !v@.contains(c),
{
    for i in 0..v.len()
        invariant
            forall|j: int| 0 <= j < i ==> v@[j] != c,
    {
        if v[i] == c {
            return Some(i);
        }
    }
    None
}

pub fn find_last(v: &Vec<char>, c: char) -> (r: Option<usize>)
    ensures
        r matches Some(i) ==> is_last_index(v@, c, i as int),
        r is None ==> !v@.contains(c),
{
    let mut k = v.len();
    while k > 0
        invariant
            k <= v.len(),
            forall|j: int| k <= j < v.len() ==> v@[j] != c,
        decreases k,
    {
        if v[k - 1] == c {
            return Some(k - 1);
        }
        k = k - 1;
    }
    None
}

/// `split_once` on a character.
pub fn split_once(v: &Vec<char>, c: char) -> (r: Option<(Vec<char>, Vec<char>)>)
    ensures
        pair_view(r) == spec_split_once(v@, c),
{
    let n = v.len();
    match find_first(v, c) {
        Some(i) => {
            proof {
                lemma_split_once_at(v@, c, i as int);
            }
            Some((slice_of(v, 0, i), slice_of(v, i + 1, n)))
        },
        None => {
            proof {
                lemma_split_none(v@, c);
            }
            None
        },
    }
}

/// `rsplit_once` on a character.
pub fn rsplit_once(v: &Vec<char>, c: char) -> (r: Option<(Vec<char>, Vec<char>)>)
    ensures
        pair_view(r) == spec_rsplit_once(v@, c),
{
    let n = v.len();
    match find_last(v, c) {
        Some(i) => {
            proof {
                lemma_rsplit_once_at(v@, c, i as int);
            }
            Some((slice_of(v, 0, i), slice_of(v, i + 1, n)))
        },
        None => {
            proof {
                lemma_split_none(v@, c);
            }
            None
        },
    }
}

/// Whether two character vectors are equal.
pub fn chars_eq(a: &Vec<char>, b: &Vec<char>) -> (r: bool)
    ensures
        r == (a@ == b@),
{
    if a.len() != b.len() {
        return false;
    }
    for i in 0..a.len()
        invariant
            a.len() == b.len(),
            forall|j: int| 0 <= j < i ==> a@[j] == b@[j],
    {
        if a[i] != b[i] {
            return false;
        }
    }
    assert(a@ =~= b@);
    true
}

/// Whether two strings hold the same characters.
pub fn str_eq(a: &str, b: &str) -> (r: bool)
    ensures
        r == (a@ == b@),
{
    chars_eq(&chars_of(a), &chars_of(b))
}

/// A class of characters that trimming removes from the ends of a string.
pub enum Strip {
    /// Unicode whitespace, as `str::trim` removes it.
    Whitespace,
    /// One given character, as `str::trim_matches(c)` removes it.
    Only(char),
}

pub open spec fn spec_strips(k: Strip, c: char) -> bool {
    match k {
        Strip::Whitespace => spec_is_whitespace(c),
        Strip::Only(d) => c == d,
    }
}

pub fn strips(k: &Strip, c: char) -> (r: bool)
    ensures
        r == spec_strips(*k, c),
{
    match k {
        Strip::Whitespace => is_whitespace(c),
        Strip::Only(d) => c == *d,
    }
}

/// `s` without its leading characters of class `k`.
pub open spec fn spec_trim_start(s: Seq<char>, k: Strip) -> Seq<char>
    decreases s.len(),
{
    if s.len() > 0 && spec_strips(k, s[0]) {
        spec_trim_start(s.drop_first(), k)
    } else {
        s
    }
}

/// `s` without its trailing characters of class `k`.
pub open spec fn spec_trim_end(s: Seq<char>, k: Strip) -> Seq<char>
    decreases s.len(),
{
    if s.len() > 0 && spec_strips(k, s.last()) {
        spec_trim_end(s.drop_last(), k)
    } else {
        s
    }
}

/// `s` without the characters of class `k` at either end.
pub open spec fn spec_trim(s: Seq<char>, k: Strip) -> Seq<char> {
    spec_trim_end(spec_trim_start(s, k), k)
}

/// `v[lo..hi]` without the characters of class `k` at either end.
pub fn trim_chars(v: &Vec<char>, k: Strip) -> (r: Vec<char>)
    ensures
        r@ == spec_trim(v@, k),
{
    let n = v.len();
    let mut lo: usize = 0;
    assert(v@.subrange(0, n as int) =~= v@);
    while lo < n && strips(&k, v[lo])
        invariant
            lo <= n == v.len(),
            spec_trim_start(v@, k) == spec_trim_start(v@.subrange(lo as int, n as int), k),
        decreases n - lo,
    {
        assert(v@.subrange(lo as int, n as int).drop_first() =~= v@.subrange(
            lo + 1,
            n as int,
        ));
        lo = lo + 1;
    }
    let ghost front = v@.subrange(lo as int, n as int);
    assert(spec_trim_start(v@, k) == front);
    let mut hi: usize = n;
    while hi > lo && strips(&k, v[hi - 1])
        invariant
            lo <= hi <= n == v.len(),
            front == v@.subrange(lo as int, n as int),
            spec_trim_end(front, k) == spec_trim_end(v@.subrange(lo as int, hi as int), k),
        decreases hi - lo,
    {
        assert(v@.subrange(lo as int, hi as int).drop_last() =~= v@.subrange(
            lo as int,
            hi - 1,
        ));
        hi = hi - 1;
    }
    slice_of(v, lo, hi)
}

/// The position of the first whitespace character of `s`.
pub open spec fn is_first_whitespace(s: Seq<char>, i: int) -> bool {
    &&& 0 <= i < s.len()
    &&& spec_is_whitespace(s[i])
    &&& forall|j: int| 0 <= j < i ==> !spec_is_whitespace(s[j])
}

/// `str::split_once(char::is_whitespace)`: the parts before and after the
/// first whitespace character.
pub open spec fn spec_split_at_whitespace(s: Seq<char>) -> Option<(Seq<char>, Seq<char>)> {
    if exists|i: int| is_first_whitespace(s, i) {
        let i = choose|i: int| is_first_whitespace(s, i);
        Some((s.take(i), s.skip(i + 1)))
    } else {
        None
    }
}

pub fn split_at_whitespace(v: &Vec<char>) -> (r: Option<(Vec<char>, Vec<char>)>)
    ensures
        pair_view(r) == spec_split_at_whitespace(v@),
{
    let n = v.len();
    for i in 0..n
        invariant
            n == v.len(),
            forall|j: int| 0 <= j < i ==> !spec_is_whitespace(v@[j]),
    {
        if is_whitespace(v[i]) {
            proof {
                assert(is_first_whitespace(v@, i as int));
                let k = choose|k: int| is_first_whitespace(v@, k);
                if k < i {
                    assert(!spec_is_whitespace(v@[k]));
                } else if i < k {
                    assert(!spec_is_whitespace(v@[i as int]));
                }
            }
            return Some((slice_of(v, 0, i), slice_of(v, i + 1, n)));
        }
    }
    proof {
        if exists|i: int| is_first_whitespace(v@, i) {
            let i = choose|i: int| is_first_whitespace(v@, i);
            assert(spec_is_whitespace(v@[i]));
        }
    }
    None
}

/// The ASCII-lowercased code of a character (`char::to_ascii_lowercase`).
pub open spec fn spec_ascii_lower(c: char) -> u32 {
    let x = c as u32;
    if 65 <= x && x <= 90 {
        (x + 32) as u32
    } else {
        x
    }
}

/// `str::eq_ignore_ascii_case`.
pub open spec fn spec_eq_ignore_ascii_case(a: Seq<char>, b: Seq<char>) -> bool {
    &&& a.len() == b.len()
    &&& forall|i: int| 0 <= i < a.len() ==> spec_ascii_lower(a[i]) == spec_ascii_lower(b[i])
}

fn ascii_lower(c: char) -> (r: u32)
    ensures
        r == spec_ascii_lower(c),
{
    let x = c as u32;
    if 65 <= x && x <= 90 {
        x + 32
    } else {
        x
    }
}

pub fn eq_ignore_ascii_case(a: &Vec<char>, b: &Vec<char>) -> (r: bool)
    ensures
        r == spec_eq_ignore_ascii_case(a@, b@),
{
    if a.len() != b.len() {
        return false;
    }
    for i in 0..a.len()
        invariant
            a.len() == b.len(),
            forall|j: int| 0 <= j < i ==> spec_ascii_lower(a@[j]) == spec_ascii_lower(b@[j]),
    {
        if ascii_lower(a[i]) != ascii_lower(b[i]) {
            return false;
        }
    }
    true
}

/// The character of a decimal digit.
pub open spec fn spec_digit(d: nat) -> char {
    if d == 0 {
        '0'
    } else if d == 1 {
        '1'
    } else if d == 2 {
        '2'
    } else if d == 3 {
        '3'
    } else if d == 4 {
        '4'
    } else if d == 5 {
        '5'
    } else if d == 6 {
        '6'
    } else if d == 7 {
        '7'
    } else if d == 8 {
        '8'
    } else {
        '9'
    }
}

/// The decimal rendering of `n`, without leading zeros.
pub open spec fn spec_decimal(n: nat) -> Seq<char>
    decreases n,
{
    if n < 10 {
        seq![spec_digit(n)]
    } else {
        spec_decimal(n / 10).push(spec_digit(n % 10))
    }
}

/// Distinct numbers have distinct decimal renderings.
pub proof fn lemma_decimal_injective(a: nat, b: nat)
    requires
        spec_decimal(a) == spec_decimal(b),
    ensures
        a == b,
    decreases a,
{
    if a < 10 && b < 10 {
        assert(spec_decimal(a)[0] == spec_digit(a));
        assert(spec_decimal(b)[0] == spec_digit(b));
        assert(spec_digit(a) == spec_digit(b));
    } else if a < 10 {
        assert(spec_decimal(b / 10).len() >= 1);
        assert(spec_decimal(b).len() >= 2);
    } else if b < 10 {
        assert(spec_decimal(a / 10).len() >= 1);
        assert(spec_decimal(a).len() >= 2);
    } else {
        let da = spec_decimal(a / 10);
        let db = spec_decimal(b / 10);
        assert(spec_decimal(a).last() == spec_digit(a % 10));
        assert(spec_decimal(b).last() == spec_digit(b % 10));
        assert(a % 10 == b % 10);
        assert(spec_decimal(a).drop_last() =~= da);
        assert(spec_decimal(b).drop_last() =~= db);
        lemma_decimal_injective(a / 10, b / 10);
        vstd::arithmetic::div_mod::lemma_fundamental_div_mod(a as int, 10);
        vstd::arithmetic::div_mod::lemma_fundamental_div_mod(b as int, 10);
        assert(a / 10 == b / 10);
        assert(a == 10 * (a / 10) + a % 10);
    }
}

fn digit_char(d: u128) -> (r: char)
    requires
        d < 10,
    ensures
        r == spec_digit(d as nat),
{
    if d == 0 {
        '0'
    } else if d == 1 {
        '1'
    } else if d == 2 {
        '2'
    } else if d == 3 {
        '3'
    } else if d == 4 {
        '4'
    } else if d == 5 {
        '5'
    } else if d == 6 {
        '6'
    } else if d == 7 {
        '7'
    } else if d == 8 {
        '8'
    } else {
        '9'
    }
}

/// `n` written in decimal.
pub fn decimal(n: u128) -> (r: String)
    ensures
        r@ == spec_decimal(n as nat),
    decreases n,
{
    if n < 10 {
        let mut s = String::new();
        push_char(&mut s, digit_char(n));
        assert(s@ =~= seq![spec_digit(n as nat)]);
        s
    } else {
        let mut s = decimal(n / 10);
        push_char(&mut s, digit_char(n % 10));
        s
    }
}

/// Whether `v` holds a string equal to `x`.
pub fn contains_str(v: &Vec<String>, x: &str) -> (r: bool)
    ensures
        r == v@.map_values(|s: String| s@).contains(x@),
{
    for i in 0..v.len()
        invariant
            forall|j: int| 0 <= j < i ==> v@[j]@ != x@,
    {
        if str_eq(v[i].as_str(), x) {
            assert(v@.map_values(|s: String| s@)[i as int] == x@);
            return true;
        }
    }
    assert(!v@.map_values(|s: String| s@).contains(x@)) by {
        let w = v@.map_values(|s: String| s@);
        if w.contains(x@) {
            let k = choose|k: int| 0 <= k < w.len() && w[k] == x@;
            assert(v@[k]@ == x@);
        }
    }
    false
}

/// Whether `s` ends with `suffix`.
pub open spec fn spec_ends_with(s: Seq<char>, suffix: Seq<char>) -> bool {
    suffix.len() <= s.len() && s.skip(s.len() - suffix.len()) == suffix
}

/// Whether `s` starts with `prefix`.
pub open spec fn spec_starts_with(s: Seq<char>, prefix: Seq<char>) -> bool {
    prefix.len() <= s.len() && s.take(prefix.len() as int) == prefix
}

/// The characters of `s`, appended at the end of `r`.
pub fn push_str(r: &mut String, s: &str)
    ensures
        final(r)@ == old(r)@ + s@,
{
    r.append(s);
}

} // verus!
