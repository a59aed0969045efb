//! How a reference's directory is named: `{first-author}-{year}-{first-title-word}`
//! as a slug, numbered when the name is taken.
use vstd::prelude::*;

use crate::model::{RefView, Reference};
use crate::present::{owned, str_eq};
use crate::text::{
    chars_of, chars_view, decimal, digit_char, decimal_string, last_index_of, last_index_of_char, lowercase,
    slice_chars, split_words, string_of, strs_view, to_lowercase, trim, trim_chars, words,
};

verus! {

/// The surname of an author written `Last, First` (what precedes the last comma,
/// trimmed), else the last word of the name, else the name itself.
pub open spec fn last_name_of(a: Seq<char>) -> Seq<char> {
    if last_index_of(a, ',') >= 0 {
        trim(a.take(last_index_of(a, ',')))
    } else if words(a).len() > 0 {
        words(a).last()
    } else {
        a
    }
}

/// The surname of an author.
pub fn last_name(author: &str) -> (r: String)
    ensures
        r@ == last_name_of(author@),
{
    let a = chars_of(author);
    match last_index_of_char(&a, ',') {
        Some(i) => {
            let head = slice_chars(&a, 0, i);
            assert(head@ =~= author@.take(i as int));
            let t = trim_chars(&head);
            string_of(&t)
        },
        None => {
            let ws = split_words(&a);
            if ws.len() > 0 {
                let last = &ws[ws.len() - 1];
                string_of(last)
            } else {
                owned(author)
            }
        },
    }
}

/// The words a directory name never takes from a title.
pub open spec fn is_stop_word(w: Seq<char>) -> bool {
    w == "a"@ || w == "an"@ || w == "the"@ || w == "on"@ || w == "of"@ || w == "for"@ || w == "in"@
        || w == "to"@ || w == "and"@ || w == "with"@
}

/// The first of `ws` that is no stop word once lowercased, if any.
pub open spec fn first_keyword(ws: Seq<Seq<char>>) -> Option<Seq<char>>
    decreases ws.len(),
{
    if ws.len() == 0 {
        None
    } else if !is_stop_word(lowercase(ws[0])) {
        Some(ws[0])
    } else {
        first_keyword(ws.drop_first())
    }
}

/// What a reference's directory name is made from: the first author's surname
/// (or `unknown`), the year (or `0000`) and the first title word that is no stop
/// word (or `untitled`), joined by dashes.
pub open spec fn dir_name_source(r: RefView) -> Seq<char> {
    let author = if r.authors.len() > 0 {
        last_name_of(r.authors[0])
    } else {
        "unknown"@
    };
    let year = match r.year {
        Some(y) => decimal(y as nat),
        None => "0000"@,
    };
    let word = match first_keyword(words(r.title)) {
        Some(w) => w,
        None => "untitled"@,
    };
    author + "-"@ + year + "-"@ + word
}

/// The characters of a slug, and how they follow each other: only `a`-`z`,
/// `0`-`9` and `-`, never two dashes in a row, no dash at either end.
pub open spec fn slug_shaped(s: Seq<char>) -> bool {
    &&& forall|i: int| 0 <= i < s.len() ==> ('a' <= #[trigger] s[i] <= 'z' || '0' <= s[i] <= '9' || s[i] == '-')
    &&& forall|i: int| 0 <= i < s.len() - 1 ==> !(#[trigger] s[i] == '-' && s[i + 1] == '-')
    &&& (s.len() > 0 ==> s[0] != '-' && s.last() != '-')
}

/// What `slug::slugify` makes of a string.
pub uninterp spec fn slug_of(s: Seq<char>) -> Seq<char>;

/// Turns a string into a slug.
///
/// Calls `slug::slugify`. Its result transliterates non-ASCII characters through
/// the `deunicode` tables, so the contract only names it, with the shape that the
/// crate's documentation promises (and its source keeps): lowercase ASCII letters,
/// digits and single dashes, with no dash at either end.
#[verifier::external_body]
fn slugify(s: &str) -> (r: String)
    ensures
        r@ == slug_of(s@),
        slug_shaped(r@),
{
    slug::slugify(s)
}

/// Whether the lowercased word is one that names skip.
fn stop_word(w: &str) -> (b: bool)
    ensures
        b == is_stop_word(w@),
{
    str_eq(w, "a") || str_eq(w, "an") || str_eq(w, "the") || str_eq(w, "on") || str_eq(w, "of")
        || str_eq(w, "for") || str_eq(w, "in") || str_eq(w, "to") || str_eq(w, "and") || str_eq(
        w,
        "with",
    )
}

/// The first title word that is no stop word, or `untitled`.
fn title_word(title: &str) -> (w: String)
    ensures
        w@ == match first_keyword(words(title@)) {
            Some(k) => k,
            None => "untitled"@,
        },
{
    let t = chars_of(title);
    let ws = split_words(&t);
    let ghost wv = words(title@);
    assert(wv.skip(0) =~= wv);
    assert forall|k: int| 0 <= k < ws@.len() implies #[trigger] ws@[k]@ == wv[k] by {
        assert(chars_view(ws@)[k] == ws@[k]@);
    }
    let mut i: usize = 0;
    while i < ws.len()
        invariant
            i <= ws@.len(),
            wv == words(title@),
            wv.len() == ws@.len(),
            forall|k: int| 0 <= k < ws@.len() ==> #[trigger] ws@[k]@ == wv[k],
            first_keyword(wv) == first_keyword(wv.skip(i as int)),
        decreases ws@.len() - i,
    {
        let word = string_of(&ws[i]);
        let lower = to_lowercase(word.as_str());
        assert(wv.skip(i as int)[0] == wv[i as int]);
        assert(word@ == wv[i as int]);
        if !stop_word(lower.as_str()) {
            assert(first_keyword(wv.skip(i as int)) == Some(wv[i as int]));
            return word;
        }
        assert(wv.skip(i as int).drop_first() =~= wv.skip(i + 1));
        i = i + 1;
    }
    owned("untitled")
}

/// The directory name for a reference, before any numbering.
pub fn make_dir_name(r: &Reference) -> (s: String)
    ensures
        s@ == slug_of(dir_name_source(r@)),
        slug_shaped(s@),
{
    let author = if r.authors.len() > 0 {
        last_name(r.authors[0].as_str())
    } else {
        owned("unknown")
    };
    let year = match r.year {
        Some(y) => decimal_string(y as u64),
        None => owned("0000"),
    };
    let word = title_word(r.title.as_str());
    let mut src = author;
    src.append("-");
    src.append(year.as_str());
    src.append("-");
    src.append(word.as_str());
    slugify(src.as_str())
}

/// The first keyword of `ws` is `ws[k]` when every word before it is a stop word
/// and `ws[k]` is none.
proof fn lemma_first_keyword_at(ws: Seq<Seq<char>>, k: int)
    requires
        0 <= k < ws.len(),
        forall|i: int| 0 <= i < k ==> is_stop_word(lowercase(#[trigger] ws[i])),
        !is_stop_word(lowercase(ws[k])),
    ensures
        first_keyword(ws) == Some(ws[k]),
    decreases k,
{
    if k > 0 {
        let t = ws.drop_first();
        assert forall|i: int| 0 <= i < k - 1 implies is_stop_word(lowercase(#[trigger] t[i])) by {
            assert(t[i] == ws[i + 1]);
        }
        assert(t[k - 1] == ws[k]);
        assert(is_stop_word(lowercase(ws[0])));
        lemma_first_keyword_at(t, k - 1);
    }
}

/// A directory name takes its word from the title, skipping the leading words
/// that are, in any case, one of `a`, `an`, `the`, `on`, `of`, `for`, `in`,
/// `to`, `and`, `with`: when the title's words up to `k` are such words and word
/// `k` is not, the name (before slugging) ends with a dash and word `k`.
pub proof fn dir_name_skips_leading_stop_words(r: RefView, k: int)
    requires
        0 <= k < words(r.title).len(),
        forall|i: int|
            #![trigger words(r.title)[i]]
            0 <= i < k ==> {
                let w = lowercase(words(r.title)[i]);
                ||| w == "a"@
                ||| w == "an"@
                ||| w == "the"@
                ||| w == "on"@
                ||| w == "of"@
                ||| w == "for"@
                ||| w == "in"@
                ||| w == "to"@
                ||| w == "and"@
                ||| w == "with"@
            },
        ({
            let w = lowercase(words(r.title)[k]);
            &&& w != "a"@
            &&& w != "an"@
            &&& w != "the"@
            &&& w != "on"@
            &&& w != "of"@
            &&& w != "for"@
            &&& w != "in"@
            &&& w != "to"@
            &&& w != "and"@
            &&& w != "with"@
        }),
    ensures
        first_keyword(words(r.title)) == Some(words(r.title)[k]),
        ({
            let s = dir_name_source(r);
            let w = words(r.title)[k];
            s.len() > w.len() && s == s.take(s.len() - w.len() - 1) + "-"@ + w
        }),
{
    let ws = words(r.title);
    assert forall|i: int| 0 <= i < k implies is_stop_word(lowercase(#[trigger] ws[i])) by {}
    lemma_first_keyword_at(ws, k);
    let s = dir_name_source(r);
    let w = ws[k];
    let author = if r.authors.len() > 0 {
        last_name_of(r.authors[0])
    } else {
        "unknown"@
    };
    let year = match r.year {
        Some(y) => decimal(y as nat),
        None => "0000"@,
    };
    let head = author + "-"@ + year;
    reveal_strlit("-");
    assert(s == head + "-"@ + w);
    assert(s.take(s.len() - w.len() - 1) =~= head);
}

/// `base-n`: the name tried when `base` is taken.
pub open spec fn numbered_name(base: Seq<char>, n: nat) -> Seq<char> {
    base + seq!['-'] + decimal(n)
}

/// `r` is the name a new reference directory gets when the names `taken` exist:
/// `base` when it is free, else `base-n` for the smallest `n` from 2 on that is free.
pub open spec fn free_name_ok(base: Seq<char>, taken: Seq<Seq<char>>, r: Seq<char>) -> bool {
    if !taken.contains(base) {
        r == base
    } else {
        exists|n: nat|
            n >= 2 && r == numbered_name(base, n) && !taken.contains(r) && forall|m: nat|
                2 <= m < n ==> taken.contains(#[trigger] numbered_name(base, m))
    }
}

/// Different numbers have different decimal notations.
pub proof fn lemma_decimal_injective(a: nat, b: nat)
    requires
        decimal(a) == decimal(b),
    ensures
        a == b,
    decreases a,
{
    if a < 10 && b >= 10 {
        assert(decimal(b).len() >= 2) by {
            lemma_decimal_len(b);
        }
    } else if a >= 10 && b < 10 {
        assert(decimal(a).len() >= 2) by {
            lemma_decimal_len(a);
        }
    } else if a < 10 && b < 10 {
        assert(decimal(a) == seq![digit_char(a)]);
        assert(decimal(b) == seq![digit_char(b)]);
        assert(decimal(a)[0] == digit_char(a));
        assert(decimal(b)[0] == digit_char(b));
        lemma_digit_injective(a, b);
    } else {
        assert(decimal(a).last() == digit_char(a % 10));
        assert(decimal(b).last() == digit_char(b % 10));
        lemma_digit_injective(a % 10, b % 10);
        assert(decimal(a).drop_last() =~= decimal(a / 10));
        assert(decimal(b).drop_last() =~= decimal(b / 10));
        lemma_decimal_injective(a / 10, b / 10);
        assert(a == (a / 10) * 10 + a % 10);
        assert(b == (b / 10) * 10 + b % 10);
    }
}

/// Different digits are different characters.
proof fn lemma_digit_injective(x: nat, y: nat)
    requires
        x < 10,
        y < 10,
        digit_char(x) == digit_char(y),
    ensures
        x == y,
{
}

/// From ten on, a number has at least two digits.
proof fn lemma_decimal_len(n: nat)
    ensures
        decimal(n).len() >= 1,
        n >= 10 ==> decimal(n).len() >= 2,
    decreases n,
{
    if n >= 10 {
        lemma_decimal_len(n / 10);
    }
}

/// `base` and the numbered names `base-2` to `base-n` are `n` different names, so
/// when all of them are taken there are at least that many taken names.
proof fn lemma_numbered_bound(base: Seq<char>, taken: Seq<Seq<char>>, n: nat)
    requires
        n >= 2,
        taken.contains(base),
        forall|m: nat| 2 <= m <= n ==> taken.contains(#[trigger] numbered_name(base, m)),
    ensures
        n <= taken.len(),
{
    let f = |i: int| numbered_name(base, i as nat);
    let x = vstd::set_lib::set_int_range(2, n as int + 1);
    vstd::set_lib::lemma_int_range(2, n as int + 1);
    let y = x.map(f);
    assert forall|i: int, j: int| x.contains(i) && x.contains(j) && #[trigger] f(i) == #[trigger] f(j) implies i == j by {
        let k = base.len() as int + 1;
        assert(f(i).skip(k) =~= decimal(i as nat));
        assert(f(j).skip(k) =~= decimal(j as nat));
        lemma_decimal_injective(i as nat, j as nat);
    }
    vstd::set_lib::lemma_map_size(x, y, f);
    let t = taken.to_set();
    assert(!y.contains(base)) by {
        if y.contains(base) {
            let i = choose|i: int| x.contains(i) && f(i) == base;
            assert(f(i).len() > base.len());
        }
    }
    let z = y.insert(base);
    assert forall|s: Seq<char>| z.contains(s) implies t.contains(s) by {
        if s != base {
            let i = choose|i: int| x.contains(i) && f(i) == s;
            assert(taken.contains(numbered_name(base, i as nat)));
        }
    }
    taken.lemma_cardinality_of_set();
    vstd::set_lib::lemma_len_subset(z, t);
}

/// Whether `name` is among `taken`.
fn is_taken(taken: &Vec<String>, name: &str) -> (b: bool)
    ensures
        b == strs_view(taken@).contains(name@),
{
    for i in 0..taken.len()
        invariant
            forall|k: int| 0 <= k < i ==> taken@[k]@ != name@,
    {
        if str_eq(taken[i].as_str(), name) {
            assert(strs_view(taken@)[i as int] == name@);
            return true;
        }
    }
    assert forall|k: int| 0 <= k < strs_view(taken@).len() implies strs_view(taken@)[k] != name@ by {
        assert(strs_view(taken@)[k] == taken@[k]@);
    }
    false
}

/// `base-n`.
fn numbered(base: &str, n: usize) -> (s: String)
    ensures
        s@ == numbered_name(base@, n as nat),
{
    let mut s = owned(base);
    proof {
        reveal_strlit("-");
    }
    s.append("-");
    let d = decimal_string(n as u64);
    s.append(d.as_str());
    s
}

/// The name for a new reference directory, given the names already in the
/// library: `base` when free, else the first free one of `base-2`, `base-3`, ...
pub fn unique_dir_name(base: &str, taken: &Vec<String>) -> (r: String)
    requires
        taken@.len() < usize::MAX,
    ensures
        free_name_ok(base@, strs_view(taken@), r@),
        !strs_view(taken@).contains(r@),
{
    let ghost tv = strs_view(taken@);
    if !is_taken(taken, base) {
        return owned(base);
    }
    let mut n: usize = 2;
    let mut cand = numbered(base, n);
    while is_taken(taken, cand.as_str())
        invariant
            tv == strs_view(taken@),
            2 <= n <= tv.len() + 2,
            tv.contains(base@),
            taken@.len() < usize::MAX,
            cand@ == numbered_name(base@, n as nat),
            forall|m: nat| 2 <= m < n ==> tv.contains(#[trigger] numbered_name(base@, m)),
        decreases tv.len() + 2 - n,
    {
        proof {
            assert forall|m: nat| 2 <= m <= n implies tv.contains(#[trigger] numbered_name(base@, m)) by {
                if m == n {
                    assert(tv.contains(cand@));
                }
            }
            lemma_numbered_bound(base@, tv, n as nat);
            assert(taken@.len() == tv.len());
        }
        n = n + 1;
        cand = numbered(base, n);
    }
    assert(free_name_ok(base@, tv, cand@));
    cand
}

} // verus!
