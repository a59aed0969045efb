//! The order of strings (character by character, which for UTF-8 is the byte
//! order that `String`'s `Ord` uses) and sorted lists of distinct strings.
use vstd::prelude::*;

use crate::text::{chars_of, strs_view};

verus! {

/// `a` comes before `b` in dictionary order of their characters.
pub open spec fn lex_lt(a: Seq<char>, b: Seq<char>) -> bool
    decreases a.len(),
{
    if b.len() == 0 {
        false
    } else if a.len() == 0 {
        true
    } else if a[0] < b[0] {
        true
    } else if a[0] == b[0] {
        lex_lt(a.drop_first(), b.drop_first())
    } else {
        false
    }
}

/// No string comes before itself.
pub proof fn lemma_lex_irrefl(a: Seq<char>)
    ensures
        !lex_lt(a, a),
    decreases a.len(),
{
    if a.len() > 0 {
        lemma_lex_irrefl(a.drop_first());
    }
}

/// The order is transitive.
pub proof fn lemma_lex_trans(a: Seq<char>, b: Seq<char>, c: Seq<char>)
    requires
        lex_lt(a, b),
        lex_lt(b, c),
    ensures
        lex_lt(a, c),
    decreases a.len(),
{
    if a.len() > 0 && b.len() > 0 && c.len() > 0 && a[0] == b[0] && b[0] == c[0] {
        lemma_lex_trans(a.drop_first(), b.drop_first(), c.drop_first());
    }
}

/// Of two different strings, one comes before the other.
pub proof fn lemma_lex_total(a: Seq<char>, b: Seq<char>)
    requires
        a != b,
    ensures
        lex_lt(a, b) || lex_lt(b, a),
    decreases a.len(),
{
    if a.len() > 0 && b.len() > 0 && a[0] == b[0] {
        if a.drop_first() == b.drop_first() {
            assert(a =~= seq![a[0]] + a.drop_first());
            assert(b =~= seq![b[0]] + b.drop_first());
        }
        lemma_lex_total(a.drop_first(), b.drop_first());
    } else if a.len() == 0 && b.len() == 0 {
        assert(a =~= b);
    }
}

/// Whether `a` comes before `b`.
pub fn lex_less(a: &Vec<char>, b: &Vec<char>) -> (r: bool)
    ensures
        r == lex_lt(a@, b@),
{
    let mut i: usize = 0;
    assert(a@.skip(0) =~= a@);
    assert(b@.skip(0) =~= b@);
    while i < a.len() && i < b.len() && a[i] == b[i]
        invariant
            i <= a@.len(),
            i <= b@.len(),
            lex_lt(a@, b@) == lex_lt(a@.skip(i as int), b@.skip(i as int)),
        decreases a@.len() - i,
    {
        assert(a@.skip(i as int).drop_first() =~= a@.skip(i + 1));
        assert(b@.skip(i as int).drop_first() =~= b@.skip(i + 1));
        i = i + 1;
    }
    if i == b.len() {
        false
    } else if i == a.len() {
        true
    } else {
        a[i] < b[i]
    }
}

/// The strings are in increasing order, so each occurs once.
pub open spec fn strictly_sorted(v: Seq<Seq<char>>) -> bool {
    forall|a: int, b: int| 0 <= a < b < v.len() ==> lex_lt(#[trigger] v[a], #[trigger] v[b])
}

fn less_at(v: &Vec<String>, p: usize, sc: &Vec<char>) -> (r: bool)
    requires
        p < v@.len(),
    ensures
        r == lex_lt(v@[p as int]@, sc@),
{
    let c = chars_of(v[p].as_str());
    lex_less(&c, sc)
}

/// Adds `s` to the sorted list `v` unless it is already there.
pub fn insert_sorted(v: &mut Vec<String>, s: &String)
    requires
        strictly_sorted(strs_view(old(v)@)),
    ensures
        strictly_sorted(strs_view(final(v)@)),
        forall|t: Seq<char>|
            strs_view(final(v)@).contains(t) <==> (strs_view(old(v)@).contains(t) || t == s@),
{
    let ghost v0 = strs_view(v@);
    let sc = chars_of(s.as_str());
    let mut p: usize = 0;
    while p < v.len() && less_at(v, p, &sc)
        invariant
            p <= v@.len(),
            v0 == strs_view(v@),
            sc@ == s@,
            forall|k: int| 0 <= k < p ==> lex_lt(#[trigger] v0[k], s@),
        decreases v@.len() - p,
    {
        p = p + 1;
    }
    if p < v.len() {
        let c = chars_of(v[p].as_str());
        if !lex_less(&sc, &c) {
            // neither comes before the other: they are equal
            proof {
                if s@ != v0[p as int] {
                    lemma_lex_total(s@, v0[p as int]);
                }
            }
            assert(v0[p as int] == s@);
            assert(v0.contains(s@));
            return;
        }
    }
    assert forall|k: int| p <= k < v0.len() implies lex_lt(s@, #[trigger] v0[k]) by {
        if k > p {
            lemma_lex_trans(s@, v0[p as int], v0[k]);
        }
    }
    let ns = String::from_str(s.as_str());
    v.insert(p, ns);
    let ghost v1 = strs_view(v@);
    assert(v1 =~= v0.insert(p as int, s@));
    assert forall|a: int, b: int| 0 <= a < b < v1.len() implies lex_lt(#[trigger] v1[a], #[trigger] v1[b]) by {
        if b < p {
        } else if b == p {
        } else if a < p {
            assert(v1[b] == v0[b - 1]);
            lemma_lex_trans(v0[a], s@, v0[b - 1]);
        } else if a == p {
            assert(v1[b] == v0[b - 1]);
        } else {
            assert(v1[a] == v0[a - 1] && v1[b] == v0[b - 1]);
        }
    }
    assert forall|t: Seq<char>| v1.contains(t) <==> (v0.contains(t) || t == s@) by {
        if v1.contains(t) {
            let x = choose|x: int| 0 <= x < v1.len() && v1[x] == t;
            if x < p {
                assert(v0[x] == t);
            } else if x > p {
                assert(v0[x - 1] == t);
            }
        }
        if v0.contains(t) {
            let x = choose|x: int| 0 <= x < v0.len() && v0[x] == t;
            if x < p {
                assert(v1[x] == t);
            } else {
                assert(v1[x + 1] == t);
            }
        }
        if t == s@ {
            assert(v1[p as int] == t);
        }
    }
}

/// A sorted list of distinct strings is determined by the strings it holds: two
/// such lists that hold the same strings are the same list.
pub proof fn sorted_lists_equal(a: Seq<Seq<char>>, b: Seq<Seq<char>>)
    requires
        strictly_sorted(a),
        strictly_sorted(b),
        forall|t: Seq<char>| a.contains(t) <==> b.contains(t),
    ensures
        a == b,
    decreases a.len(),
{
    if a.len() == 0 {
        if b.len() > 0 {
            assert(b.contains(b[0]));
        }
        assert(a =~= b);
    } else {
        assert(a.contains(a[0]));
        assert(b.contains(b[0]));
        let k = choose|k: int| 0 <= k < b.len() && b[k] == a[0];
        let m = choose|m: int| 0 <= m < a.len() && a[m] == b[0];
        if k > 0 && m > 0 {
            assert(lex_lt(b[0], b[k]));
            assert(lex_lt(a[0], a[m]));
            lemma_lex_trans(a[0], a[m], a[0]);
            lemma_lex_irrefl(a[0]);
        }
        if k == 0 && m > 0 {
            assert(lex_lt(a[0], a[m]));
            lemma_lex_irrefl(a[0]);
        }
        if k > 0 && m == 0 {
            assert(lex_lt(b[0], b[k]));
            lemma_lex_irrefl(b[0]);
        }
        assert(a[0] == b[0]);
        let ta = a.drop_first();
        let tb = b.drop_first();
        assert forall|t: Seq<char>| ta.contains(t) <==> tb.contains(t) by {
            if ta.contains(t) {
                let x = choose|x: int| 0 <= x < ta.len() && ta[x] == t;
                assert(a[x + 1] == t);
                assert(lex_lt(a[0], a[x + 1]));
                assert(b.contains(t));
                let y = choose|y: int| 0 <= y < b.len() && b[y] == t;
                if y == 0 {
                    lemma_lex_irrefl(a[0]);
                }
                assert(tb[y - 1] == t);
            }
            if tb.contains(t) {
                let x = choose|x: int| 0 <= x < tb.len() && tb[x] == t;
                assert(b[x + 1] == t);
                assert(lex_lt(b[0], b[x + 1]));
                assert(a.contains(t));
                let y = choose|y: int| 0 <= y < a.len() && a[y] == t;
                if y == 0 {
                    lemma_lex_irrefl(b[0]);
                }
                assert(ta[y - 1] == t);
            }
        }
        assert forall|x: int, y: int| 0 <= x < y < ta.len() implies lex_lt(#[trigger] ta[x], #[trigger] ta[y]) by {
            assert(ta[x] == a[x + 1] && ta[y] == a[y + 1]);
        }
        assert forall|x: int, y: int| 0 <= x < y < tb.len() implies lex_lt(#[trigger] tb[x], #[trigger] tb[y]) by {
            assert(tb[x] == b[x + 1] && tb[y] == b[y + 1]);
        }
        sorted_lists_equal(ta, tb);
        assert(a =~= seq![a[0]] + ta);
        assert(b =~= seq![b[0]] + tb);
    }
}

} // verus!
