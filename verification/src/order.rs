//! The lexicographic order of character sequences by code point: the order
//! of `String` (and of UTF-8 bytes).
use vstd::prelude::*;
use crate::text::chars_of;

verus! {

/// The outcome of a three-way comparison.
#[derive(Debug, Clone, Copy, PartialEq, Eq, Structural)]
pub enum Rel {
    Less,
    Equal,
    Greater,
}

/// The rank of a character: its code point.
pub open spec fn char_rank(c: char) -> int {
    c as int
}

/// `a` sorts strictly before `b`.
pub open spec fn lex_lt(a: Seq<char>, b: Seq<char>) -> bool
    decreases a.len(),
{
    if a.len() == 0 {
        b.len() > 0
    } else if b.len() == 0 {
        false
    } else if char_rank(a[0]) < char_rank(b[0]) {
        true
    } else if char_rank(a[0]) > char_rank(b[0]) {
        false
    } else {
        lex_lt(a.drop_first(), b.drop_first())
    }
}

/// Equal ranks mean equal characters.
pub proof fn lemma_rank_injective(c: char, d: char)
    ensures
        char_rank(c) == char_rank(d) ==> c == d,
{
    if char_rank(c) == char_rank(d) {
        assert(c as int == d as int);
    }
}

pub proof fn lemma_lex_irreflexive(a: Seq<char>)
    ensures
        !lex_lt(a, a),
    decreases a.len(),
{
    if a.len() > 0 {
        lemma_lex_irreflexive(a.drop_first());
    }
}

pub proof fn lemma_lex_transitive(a: Seq<char>, b: Seq<char>, c: Seq<char>)
    requires
        lex_lt(a, b),
        lex_lt(b, c),
    ensures
        lex_lt(a, c),
    decreases a.len(),
{
    if a.len() > 0 && b.len() > 0 && c.len() > 0 {
        let ra = char_rank(a[0]);
        let rb = char_rank(b[0]);
        let rc = char_rank(c[0]);
        if ra == rb && rb == rc {
            lemma_lex_transitive(a.drop_first(), b.drop_first(), c.drop_first());
        }
    }
}

pub proof fn lemma_lex_total(a: Seq<char>, b: Seq<char>)
    ensures
        a == b || lex_lt(a, b) || lex_lt(b, a),
    decreases a.len(),
{
    if a.len() > 0 && b.len() > 0 {
        lemma_rank_injective(a[0], b[0]);
        if char_rank(a[0]) == char_rank(b[0]) {
            lemma_lex_total(a.drop_first(), b.drop_first());
            if a.drop_first() == b.drop_first() {
                assert(a =~= seq![a[0]] + a.drop_first());
                assert(b =~= seq![b[0]] + b.drop_first());
            }
        }
    } else if a.len() == 0 && b.len() == 0 {
        assert(a =~= b);
    }
}

pub proof fn lemma_lex_asymmetric(a: Seq<char>, b: Seq<char>)
    requires
        lex_lt(a, b),
    ensures
        !lex_lt(b, a),
        a != b,
{
    if lex_lt(b, a) {
        lemma_lex_transitive(a, b, a);
        lemma_lex_irreflexive(a);
    }
    if a == b {
        lemma_lex_irreflexive(a);
    }
}

/// The three-way comparison that `lex_lt` induces.
pub open spec fn spec_compare(a: Seq<char>, b: Seq<char>) -> Rel {
    if lex_lt(a, b) {
        Rel::Less
    } else if a == b {
        Rel::Equal
    } else {
        Rel::Greater
    }
}

fn rank(c: char) -> (r: i64)
    ensures
        r == char_rank(c),
{
    c as u32 as i64
}

/// Compares two character sequences by code point.
pub fn compare_chars(a: &Vec<char>, b: &Vec<char>) -> (r: Rel)
    ensures
        r == spec_compare(a@, b@),
        r == Rel::Greater ==> lex_lt(b@, a@),
{
    let mut i: usize = 0;
    assert(a@.skip(0) =~= a@);
    assert(b@.skip(0) =~= b@);
    while i < a.len() && i < b.len()
        invariant
            i <= a.len(),
            i <= b.len(),
            a@.take(i as int) == b@.take(i as int),
            lex_lt(a@, b@) == lex_lt(a@.skip(i as int), b@.skip(i as int)),
            lex_lt(b@, a@) == lex_lt(b@.skip(i as int), a@.skip(i as int)),
        decreases a.len() - i,
    {
        let ra = rank(a[i]);
        let rb = rank(b[i]);
        let ghost sa = a@.skip(i as int);
        let ghost sb = b@.skip(i as int);
        assert(sa[0] == a@[i as int] && sb[0] == b@[i as int]);
        if ra < rb {
            proof {
                lemma_lex_asymmetric(a@, b@);
            }
            return Rel::Less;
        }
        if ra > rb {
            proof {
                lemma_lex_asymmetric(b@, a@);
            }
            return Rel::Greater;
        }
        proof {
            lemma_rank_injective(a@[i as int], b@[i as int]);
            assert(sa.drop_first() =~= a@.skip(i + 1));
            assert(sb.drop_first() =~= b@.skip(i + 1));
            assert(a@.take(i + 1) =~= a@.take(i as int).push(a@[i as int]));
            assert(b@.take(i + 1) =~= b@.take(i as int).push(b@[i as int]));
        }
        i = i + 1;
    }
    if i == a.len() && i == b.len() {
        assert(a@ =~= a@.take(i as int));
        assert(b@ =~= b@.take(i as int));
        proof {
            lemma_lex_irreflexive(a@);
        }
        Rel::Equal
    } else if i == a.len() {
        assert(a@.skip(i as int).len() == 0);
        proof {
            lemma_lex_asymmetric(a@, b@);
        }
        Rel::Less
    } else {
        assert(b@.skip(i as int).len() == 0);
        proof {
            lemma_lex_asymmetric(b@, a@);
        }
        Rel::Greater
    }
}

/// Compares two strings by code point.
pub fn compare_str(a: &str, b: &str) -> (r: Rel)
    ensures
        r == spec_compare(a@, b@),
        r == Rel::Greater ==> lex_lt(b@, a@),
{
    compare_chars(&chars_of(a), &chars_of(b))
}

} // verus!
