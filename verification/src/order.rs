//! Dictionary order on texts, and keeping a list of texts in that order.

use crate::text::{code_point, lex_le, lex_sorted, texts, to_chars};
use vstd::prelude::*;

verus! {

/// Of two texts, one comes before the other or equals it.
pub proof fn lemma_lex_le_total(a: Seq<char>, b: Seq<char>)
    ensures
        lex_le(a, b) || lex_le(b, a),
    decreases a.len(),
{
    if a.len() > 0 && b.len() > 0 {
        if a.first() == b.first() {
            lemma_lex_le_total(a.drop_first(), b.drop_first());
        }
    }
}

/// Dictionary order is transitive.
pub proof fn lemma_lex_le_transitive(a: Seq<char>, b: Seq<char>, c: Seq<char>)
    requires
        lex_le(a, b),
        lex_le(b, c),
    ensures
        lex_le(a, c),
    decreases a.len(),
{
    if a.len() > 0 && b.len() > 0 && c.len() > 0 {
        if a.first() == b.first() && b.first() == c.first() {
            lemma_lex_le_transitive(a.drop_first(), b.drop_first(), c.drop_first());
        }
    }
}

/// Two texts that come before or equal each other are the same text.
pub proof fn lemma_lex_le_antisymmetric(a: Seq<char>, b: Seq<char>)
    requires
        lex_le(a, b),
        lex_le(b, a),
    ensures
        a == b,
    decreases a.len(),
{
    if a.len() > 0 && b.len() > 0 {
        lemma_lex_le_antisymmetric(a.drop_first(), b.drop_first());
        assert(a =~= seq![a.first()] + a.drop_first());
        assert(b =~= seq![b.first()] + b.drop_first());
    } else {
        assert(a =~= b);
    }
}

/// Where a new text goes in a sorted list: behind every text that comes
/// before it or equals it.
pub open spec fn insertion_point(s: Seq<Seq<char>>, x: Seq<char>) -> nat
    decreases s.len(),
{
    if s.len() > 0 && lex_le(s.first(), x) {
        1 + insertion_point(s.drop_first(), x)
    } else {
        0
    }
}

proof fn lemma_insertion_point(s: Seq<Seq<char>>, x: Seq<char>, p: int)
    requires
        0 <= p <= s.len(),
        forall|i: int| 0 <= i < p ==> lex_le(s[i], x),
        p == s.len() || !lex_le(s[p], x),
    ensures
        insertion_point(s, x) == p,
    decreases p,
{
    if p > 0 {
        lemma_insertion_point(s.drop_first(), x, p - 1);
    }
}

/// Tells whether `a` comes before `b`, or equals it, in dictionary order.
pub fn chars_le(a: &Vec<char>, b: &Vec<char>) -> (r: bool)
    ensures
        r == lex_le(a@, b@),
{
    let na: usize = a.len();
    let nb: usize = b.len();
    let mut i: usize = 0;
    assert(a@.skip(0) =~= a@ && b@.skip(0) =~= b@);
    while i < na && i < nb && a[i] == b[i]
        invariant
            i <= na,
            i <= nb,
            na == a.len(),
            nb == b.len(),
            lex_le(a@, b@) == lex_le(a@.skip(i as int), b@.skip(i as int)),
        decreases na - i,
    {
        proof {
            assert(a@.skip(i as int).drop_first() =~= a@.skip(i + 1));
            assert(b@.skip(i as int).drop_first() =~= b@.skip(i + 1));
        }
        i = i + 1;
    }
    if i == na {
        true
    } else if i == nb {
        false
    } else {
        code_point(a[i]) < code_point(b[i])
    }
}

/// Tells whether the text `a` comes before the text `b`, or equals it, in
/// dictionary order.
pub fn text_le(a: &str, b: &str) -> (r: bool)
    ensures
        r == lex_le(a@, b@),
{
    let ca = to_chars(a);
    let cb = to_chars(b);
    chars_le(&ca, &cb)
}

/// Puts `item` into the sorted list `sorted`, behind the texts that come
/// before it or equal it, so that the list stays sorted.
pub(crate) fn insert_sorted(sorted: &mut Vec<String>, item: String)
    requires
        lex_sorted(texts(old(sorted)@)),
    ensures
        lex_sorted(texts(final(sorted)@)),
        texts(final(sorted)@) == texts(old(sorted)@).insert(
            insertion_point(texts(old(sorted)@), item@) as int,
            item@,
        ),
        texts(final(sorted)@).to_multiset() == texts(old(sorted)@).to_multiset().insert(item@),
{
    let ghost before = texts(sorted@);
    let n: usize = sorted.len();
    let mut p: usize = 0;
    while p < n && text_le(sorted[p].as_str(), item.as_str())
        invariant
            p <= n,
            n == sorted.len(),
            before == texts(sorted@),
            forall|i: int| 0 <= i < p ==> lex_le(before[i], item@),
        decreases n - p,
    {
        p = p + 1;
    }
    proof {
        lemma_insertion_point(before, item@, p as int);
        let after = before.insert(p as int, item@);
        assert(texts(sorted@.insert(p as int, item)) =~= after);
        assert forall|i: int, j: int| 0 <= i < j < after.len() implies lex_le(
            after[i],
            after[j],
        ) by {
            if j == p {
            } else if i == p {
                lemma_lex_le_total(before[p as int], item@);
                if j - 1 > p {
                    assert(lex_le(before[p as int], before[j - 1]));
                    lemma_lex_le_transitive(item@, before[p as int], before[j - 1]);
                }
            } else {
                let i0 = if i < p { i } else { i - 1 };
                let j0 = if j < p { j } else { j - 1 };
                assert(lex_le(before[i0], before[j0]));
            }
        }
        vstd::seq_lib::to_multiset_insert(before, p as int, item@);
    }
    sorted.insert(p, item);
}

} // verus!
