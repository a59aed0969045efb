//! Text primitives over `Seq<char>`: whitespace, trimming, splitting into words,
//! joining, substring search, replacement, decimal digits and UTF-8 widths.
use vstd::prelude::*;

verus! {

/// The characters with the Unicode `White_Space` property, which is what
/// `char::is_whitespace` tests.
pub open spec fn is_ws(c: char) -> bool {
    ||| ('\u{9}' <= c && c <= '\u{d}')
    ||| c == ' '
    ||| c == '\u{85}'
    ||| c == '\u{a0}'
    ||| c == '\u{1680}'
    ||| ('\u{2000}' <= c && c <= '\u{200a}')
    ||| c == '\u{2028}'
    ||| c == '\u{2029}'
    ||| c == '\u{202f}'
    ||| c == '\u{205f}'
    ||| c == '\u{3000}'
}

/// Whether `c` is a whitespace character.
pub fn is_whitespace(c: char) -> (b: bool)
    ensures
        b == is_ws(c),
{
    ('\u{9}' <= c && c <= '\u{d}') || c == ' ' || c == '\u{85}' || c == '\u{a0}' || c
        == '\u{1680}' || ('\u{2000}' <= c && c <= '\u{200a}') || c == '\u{2028}' || c == '\u{2029}'
        || c == '\u{202f}' || c == '\u{205f}' || c == '\u{3000}'
}

/// Appends one character to a string.
///
/// Calls `String::push`, which the standard library documents as appending the
/// given char to the end of the string; the contract says exactly that.
#[verifier::external_body]
pub fn push_char(s: &mut String, c: char)
    ensures
        final(s)@ == old(s)@.push(c),
{
    s.push(c)
}

/// The lowercase form of a string, as Unicode's full case mapping gives it.
pub uninterp spec fn lowercase(s: Seq<char>) -> Seq<char>;

/// Lowercases a string.
///
/// Calls `str::to_lowercase`. The contract only names the result: it is the same
/// for the same input, and is otherwise left to the Unicode case tables.
#[verifier::external_body]
pub fn to_lowercase(s: &str) -> (r: String)
    ensures
        r@ == lowercase(s@),
{
    s.to_lowercase()
}

/// The characters of a string, in order.
pub fn chars_of(s: &str) -> (v: Vec<char>)
    ensures
        v@ == s@,
{
    let n = s.unicode_len();
    let mut v: Vec<char> = Vec::new();
    for i in 0..n
        invariant
            n == s@.len(),
            v@ == s@.subrange(0, i as int),
    {
        v.push(s.get_char(i));
        assert(v@ =~= s@.subrange(0, i + 1));
    }
    assert(v@ =~= s@);
    v
}

/// The string made of the given characters.
pub fn string_of(v: &Vec<char>) -> (s: String)
    ensures
        s@ == v@,
{
    let mut s = String::new();
    for i in 0..v.len()
        invariant
            s@ == v@.subrange(0, i as int),
    {
        push_char(&mut s, v[i]);
        assert(s@ =~= v@.subrange(0, i + 1));
    }
    assert(s@ =~= v@);
    s
}

/// Appends the characters of `t` to `v`.
pub fn extend_chars(v: &mut Vec<char>, t: &Vec<char>)
    ensures
        final(v)@ == old(v)@ + t@,
{
    let ghost v0 = v@;
    for i in 0..t.len()
        invariant
            v@ == v0 + t@.subrange(0, i as int),
    {
        v.push(t[i]);
        assert(v@ =~= v0 + t@.subrange(0, i + 1));
    }
    assert(t@.subrange(0, t@.len() as int) =~= t@);
}

/// The views of a sequence of strings.
pub open spec fn strs_view(v: Seq<String>) -> Seq<Seq<char>> {
    v.map_values(|s: String| s@)
}

/// The views of an optional string.
pub open spec fn opt_view(o: Option<String>) -> Option<Seq<char>> {
    match o {
        Some(s) => Some(s@),
        None => None,
    }
}

/// A copy of an optional string.
pub fn clone_opt(o: &Option<String>) -> (r: Option<String>)
    ensures
        opt_view(r) == opt_view(*o),
{
    match o {
        Some(s) => Some(s.clone()),
        None => None,
    }
}

/// A copy of a vector of strings.
pub fn clone_strs(v: &Vec<String>) -> (r: Vec<String>)
    ensures
        strs_view(r@) == strs_view(v@),
{
    let mut r: Vec<String> = Vec::new();
    for i in 0..v.len()
        invariant
            r@.len() == i,
            forall|k: int| 0 <= k < i ==> #[trigger] r@[k]@ == v@[k]@,
    {
        let c = String::from_str(v[i].as_str());
        r.push(c);
    }
    assert(strs_view(r@) =~= strs_view(v@));
    r
}

/// The decimal digit for `d` (below ten).
pub open spec fn digit_char(d: nat) -> char {
    if d == 0 {
        '0'
    } else if d == 1 {
        '1'
    } else if d == 2 {
        '2'
    } else if d == 3 {
        '3'
    } else if d == 4 {
        '4'
    } else if d == 5 {
        '5'
    } else if d == 6 {
        '6'
    } else if d == 7 {
        '7'
    } else if d == 8 {
        '8'
    } else {
        '9'
    }
}

/// The decimal notation of `n`, without sign or leading zeros.
pub open spec fn decimal(n: nat) -> Seq<char>
    decreases n,
{
    if n < 10 {
        seq![digit_char(n)]
    } else {
        decimal(n / 10).push(digit_char(n % 10))
    }
}

fn digit(d: u64) -> (c: char)
    requires
        d < 10,
    ensures
        c == digit_char(d as nat),
{
    if d == 0 {
        '0'
    } else if d == 1 {
        '1'
    } else if d == 2 {
        '2'
    } else if d == 3 {
        '3'
    } else if d == 4 {
        '4'
    } else if d == 5 {
        '5'
    } else if d == 6 {
        '6'
    } else if d == 7 {
        '7'
    } else if d == 8 {
        '8'
    } else {
        '9'
    }
}

/// The decimal digits of `n`.
pub fn decimal_chars(n: u64) -> (v: Vec<char>)
    ensures
        v@ == decimal(n as nat),
    decreases n,
{
    if n < 10 {
        let mut v: Vec<char> = Vec::new();
        v.push(digit(n));
        assert(v@ =~= seq![digit_char(n as nat)]);
        v
    } else {
        let mut v = decimal_chars(n / 10);
        v.push(digit(n % 10));
        v
    }
}

/// The decimal notation of `n` as a string.
pub fn decimal_string(n: u64) -> (s: String)
    ensures
        s@ == decimal(n as nat),
{
    let v = decimal_chars(n);
    string_of(&v)
}

/// Joins the parts with `sep` between each two neighbours.
pub open spec fn join(parts: Seq<Seq<char>>, sep: Seq<char>) -> Seq<char>
    decreases parts.len(),
{
    if parts.len() == 0 {
        seq![]
    } else if parts.len() == 1 {
        parts[0]
    } else {
        join(parts.drop_last(), sep) + sep + parts.last()
    }
}

/// Joins the strings with `sep` between each two neighbours (`[String]::join`).
pub fn join_strings(parts: &Vec<String>, sep: &str) -> (r: String)
    ensures
        r@ == join(strs_view(parts@), sep@),
{
    let mut r = String::new();
    let ghost pv = strs_view(parts@);
    for i in 0..parts.len()
        invariant
            pv == strs_view(parts@),
            r@ == join(pv.subrange(0, i as int), sep@),
    {
        if i != 0 {
            r.append(sep);
        }
        r.append(parts[i].as_str());
        assert(pv.subrange(0, i + 1).drop_last() =~= pv.subrange(0, i as int));
    }
    assert(pv.subrange(0, parts@.len() as int) =~= pv);
    r
}

/// Joins the non-empty parts with `sep`, skipping the empty ones.
pub open spec fn join_nonempty(parts: Seq<Seq<char>>, sep: Seq<char>) -> Seq<char>
    decreases parts.len(),
{
    if parts.len() == 0 {
        seq![]
    } else {
        let rest = join_nonempty(parts.drop_last(), sep);
        let p = parts.last();
        if p.len() == 0 {
            rest
        } else if rest.len() == 0 {
            p
        } else {
            rest + sep + p
        }
    }
}

/// Joins the non-empty strings with `sep`.
pub fn join_nonempty_strings(parts: &Vec<String>, sep: &str) -> (r: String)
    ensures
        r@ == join_nonempty(strs_view(parts@), sep@),
{
    let mut r = String::new();
    let ghost pv = strs_view(parts@);
    for i in 0..parts.len()
        invariant
            pv == strs_view(parts@),
            r@ == join_nonempty(pv.subrange(0, i as int), sep@),
    {
        assert(pv.subrange(0, i + 1).drop_last() =~= pv.subrange(0, i as int));
        if parts[i].unicode_len() != 0 {
            if r.unicode_len() != 0 {
                r.append(sep);
            }
            r.append(parts[i].as_str());
        }
    }
    assert(pv.subrange(0, parts@.len() as int) =~= pv);
    r
}

/// `n` occurs in `h` starting at position `i`.
pub open spec fn occurs_at(h: Seq<char>, n: Seq<char>, i: int) -> bool {
    0 <= i && i + n.len() <= h.len() && h.subrange(i, i + n.len()) == n
}

/// `n` occurs somewhere in `h`.
pub open spec fn contains_seq(h: Seq<char>, n: Seq<char>) -> bool {
    exists|i: int| occurs_at(h, n, i)
}

/// Whether `n` occurs in `h` at position `i`.
pub fn matches_at(h: &Vec<char>, n: &Vec<char>, i: usize) -> (b: bool)
    ensures
        b == occurs_at(h@, n@, i as int),
{
    if i > h.len() || n.len() > h.len() - i {
        return false;
    }
    for k in 0..n.len()
        invariant
            i + n@.len() <= h@.len(),
            h@.len() == h.len(),
            forall|j: int| 0 <= j < k ==> h@[i + j] == n@[j],
    {
        if h[i + k] != n[k] {
            assert(h@.subrange(i as int, i + n@.len())[k as int] != n@[k as int]);
            return false;
        }
    }
    assert(h@.subrange(i as int, i + n@.len()) =~= n@);
    true
}

/// Whether `n` occurs in `h` (`str::contains`).
pub fn contains_chars(h: &Vec<char>, n: &Vec<char>) -> (b: bool)
    ensures
        b == contains_seq(h@, n@),
{
    if n.len() > h.len() {
        assert forall|i: int| !occurs_at(h@, n@, i) by {}
        return false;
    }
    let last = h.len() - n.len();
    let mut i: usize = 0;
    while i <= last
        invariant
            last == h@.len() - n@.len(),
            i <= last + 1,
            forall|j: int| 0 <= j < i ==> !occurs_at(h@, n@, j),
        decreases last + 1 - i,
    {
        if matches_at(h, n, i) {
            return true;
        }
        if i == last {
            assert forall|j: int| !occurs_at(h@, n@, j) by {}
            return false;
        }
        i = i + 1;
    }
    assert forall|j: int| !occurs_at(h@, n@, j) by {}
    false
}

/// `s` with its leading whitespace removed.
pub open spec fn trim_start(s: Seq<char>) -> Seq<char>
    decreases s.len(),
{
    if s.len() > 0 && is_ws(s[0]) {
        trim_start(s.drop_first())
    } else {
        s
    }
}

/// `s` with its trailing whitespace removed.
pub open spec fn trim_end(s: Seq<char>) -> Seq<char>
    decreases s.len(),
{
    if s.len() > 0 && is_ws(s.last()) {
        trim_end(s.drop_last())
    } else {
        s
    }
}

/// `s` with leading and trailing whitespace removed (`str::trim`).
pub open spec fn trim(s: Seq<char>) -> Seq<char> {
    trim_end(trim_start(s))
}

/// The first position from `i` on that does not hold whitespace, or the end.
fn skip_ws_forward(s: &Vec<char>) -> (i: usize)
    ensures
        i <= s@.len(),
        trim_start(s@) == s@.skip(i as int),
{
    let n = s.len();
    let mut i: usize = 0;
    assert(s@.skip(0) =~= s@);
    while i < n && is_whitespace(s[i])
        invariant
            i <= n,
            n == s@.len(),
            trim_start(s@) == trim_start(s@.skip(i as int)),
        decreases n - i,
    {
        assert(s@.skip(i as int).drop_first() =~= s@.skip(i + 1));
        i = i + 1;
    }
    i
}

/// The end of `s[i..]` once trailing whitespace is dropped.
fn skip_ws_backward(s: &Vec<char>, i: usize) -> (j: usize)
    requires
        i <= s@.len(),
    ensures
        i <= j <= s@.len(),
        trim_end(s@.skip(i as int)) == s@.subrange(i as int, j as int),
{
    let n = s.len();
    let ghost t = s@.skip(i as int);
    let mut j: usize = n;
    assert(t.subrange(0, n - i) =~= t);
    while j > i && is_whitespace(s[j - 1])
        invariant
            i <= j <= n,
            n == s@.len(),
            t == s@.skip(i as int),
            trim_end(t) == trim_end(t.subrange(0, j - i)),
        decreases j,
    {
        assert(t.subrange(0, j - i).drop_last() =~= t.subrange(0, j - 1 - i));
        j = j - 1;
    }
    assert(t.subrange(0, j - i) =~= s@.subrange(i as int, j as int));
    j
}

/// The characters `s[i..j]`.
pub fn slice_chars(s: &Vec<char>, i: usize, j: usize) -> (r: Vec<char>)
    requires
        i <= j <= s@.len(),
    ensures
        r@ == s@.subrange(i as int, j as int),
{
    let mut r: Vec<char> = Vec::new();
    for k in i..j
        invariant
            i <= j <= s@.len(),
            r@ == s@.subrange(i as int, k as int),
    {
        r.push(s[k]);
        assert(r@ =~= s@.subrange(i as int, k + 1));
    }
    r
}

/// Removes leading and trailing whitespace.
pub fn trim_chars(s: &Vec<char>) -> (r: Vec<char>)
    ensures
        r@ == trim(s@),
{
    let i = skip_ws_forward(s);
    let j = skip_ws_backward(s, i);
    slice_chars(s, i, j)
}

/// The whitespace-separated words of `s`, in order (`str::split_whitespace`),
/// defined one character at a time from the left.
pub open spec fn words(s: Seq<char>) -> Seq<Seq<char>>
    decreases s.len(),
{
    if s.len() == 0 {
        seq![]
    } else {
        let p = s.drop_last();
        let c = s.last();
        let w = words(p);
        if is_ws(c) {
            w
        } else if p.len() == 0 || is_ws(p.last()) {
            w.push(seq![c])
        } else {
            w.update(w.len() - 1, w.last().push(c))
        }
    }
}

/// Once `s` ends in a non-whitespace character, it has at least one word.
pub proof fn lemma_words_nonempty(s: Seq<char>)
    requires
        s.len() > 0,
        !is_ws(s.last()),
    ensures
        words(s).len() > 0,
    decreases s.len(),
{
    let p = s.drop_last();
    if p.len() > 0 && !is_ws(p.last()) {
        lemma_words_nonempty(p);
    }
}

/// The view of a list of character vectors.
pub open spec fn chars_view(v: Seq<Vec<char>>) -> Seq<Seq<char>> {
    v.map_values(|w: Vec<char>| w@)
}

/// Splits `s` into its whitespace-separated words.
pub fn split_words(s: &Vec<char>) -> (r: Vec<Vec<char>>)
    ensures
        chars_view(r@) == words(s@),
{
    let mut r: Vec<Vec<char>> = Vec::new();
    assert(chars_view(r@) =~= words(s@.subrange(0, 0)));
    for i in 0..s.len()
        invariant
            chars_view(r@) == words(s@.subrange(0, i as int)),
    {
        let c = s[i];
        let ghost p = s@.subrange(0, i as int);
        assert(s@.subrange(0, i + 1).drop_last() =~= p);
        if is_whitespace(c) {
        } else if i == 0 || is_whitespace(s[i - 1]) {
            let mut w: Vec<char> = Vec::new();
            w.push(c);
            r.push(w);
            assert(w@ =~= seq![c]);
            assert(chars_view(r@) =~= words(p).push(seq![c]));
        } else {
            proof {
                lemma_words_nonempty(p);
            }
            let mut w = r.pop().unwrap();
            w.push(c);
            r.push(w);
            assert(chars_view(r@) =~= words(p).update(words(p).len() - 1, words(p).last().push(c)));
        }
    }
    assert(s@.subrange(0, s@.len() as int) =~= s@);
    r
}

/// `s` with every non-overlapping occurrence of `pat`, found from the left,
/// replaced by `rep` (`str::replace` with a non-empty pattern).
pub open spec fn replace_all(s: Seq<char>, pat: Seq<char>, rep: Seq<char>) -> Seq<char>
    decreases s.len(),
{
    if s.len() == 0 || pat.len() == 0 {
        s
    } else if s.len() >= pat.len() && s.take(pat.len() as int) == pat {
        rep + replace_all(s.skip(pat.len() as int), pat, rep)
    } else {
        seq![s[0]] + replace_all(s.drop_first(), pat, rep)
    }
}

/// Replaces every occurrence of the non-empty `pat` in `s` by `rep`.
pub fn replace_chars(s: &Vec<char>, pat: &Vec<char>, rep: &Vec<char>) -> (r: Vec<char>)
    requires
        pat@.len() > 0,
    ensures
        r@ == replace_all(s@, pat@, rep@),
{
    let mut r: Vec<char> = Vec::new();
    let mut i: usize = 0;
    let n = s.len();
    assert(s@.skip(0) =~= s@);
    while i < n
        invariant
            i <= n,
            n == s@.len(),
            pat@.len() > 0,
            replace_all(s@, pat@, rep@) == r@ + replace_all(s@.skip(i as int), pat@, rep@),
        decreases n - i,
    {
        let ghost t = s@.skip(i as int);
        if matches_at(s, pat, i) {
            assert(t.take(pat@.len() as int) =~= s@.subrange(i as int, i + pat@.len()));
            assert(t.skip(pat@.len() as int) =~= s@.skip(i + pat@.len()));
            let ghost r0 = r@;
            extend_chars(&mut r, rep);
            assert(r0 + (rep@ + replace_all(s@.skip(i + pat@.len()), pat@, rep@)) =~= r@
                + replace_all(s@.skip(i + pat@.len()), pat@, rep@));
            i = i + pat.len();
        } else {
            assert(!(t.len() >= pat@.len() && t.take(pat@.len() as int) == pat@)) by {
                if t.len() >= pat@.len() && t.take(pat@.len() as int) == pat@ {
                    assert(s@.subrange(i as int, i + pat@.len()) =~= t.take(pat@.len() as int));
                }
            }
            assert(t.drop_first() =~= s@.skip(i + 1));
            let ghost r0 = r@;
            r.push(s[i]);
            assert(r@ =~= r0 + seq![s@[i as int]]);
            i = i + 1;
        }
    }
    assert(s@.skip(n as int) =~= Seq::<char>::empty());
    assert(r@ + Seq::<char>::empty() =~= r@);
    r
}

/// `s` begins with `p`.
pub open spec fn starts_with(s: Seq<char>, p: Seq<char>) -> bool {
    p.len() <= s.len() && s.take(p.len() as int) == p
}

/// `s` ends with `p`.
pub open spec fn ends_with(s: Seq<char>, p: Seq<char>) -> bool {
    p.len() <= s.len() && s.skip(s.len() - p.len()) == p
}

/// Whether `s` begins with `p`.
pub fn starts_with_chars(s: &Vec<char>, p: &Vec<char>) -> (b: bool)
    ensures
        b == starts_with(s@, p@),
{
    let b = matches_at(s, p, 0);
    assert(b ==> s@.take(p@.len() as int) =~= s@.subrange(0, p@.len() as int));
    assert(starts_with(s@, p@) ==> s@.take(p@.len() as int) =~= s@.subrange(0, p@.len() as int));
    b
}

/// Whether `s` ends with `p`.
pub fn ends_with_chars(s: &Vec<char>, p: &Vec<char>) -> (b: bool)
    ensures
        b == ends_with(s@, p@),
{
    if p.len() > s.len() {
        return false;
    }
    let k = s.len() - p.len();
    let b = matches_at(s, p, k);
    assert(s@.skip(k as int) =~= s@.subrange(k as int, k + p@.len()));
    b
}

/// `c` is an ASCII capital letter.
pub open spec fn is_ascii_upper(c: char) -> bool {
    'A' <= c && c <= 'Z'
}

/// `x` and `y` are the same character once ASCII letters are taken without case.
pub open spec fn ascii_fold_eq(x: char, y: char) -> bool {
    ||| x == y
    ||| (is_ascii_upper(x) && (x as u32) + 32 == (y as u32))
    ||| (is_ascii_upper(y) && (y as u32) + 32 == (x as u32))
}

/// `a` and `b` are equal up to the case of ASCII letters (`str::eq_ignore_ascii_case`).
pub open spec fn eq_ignore_ascii_case(a: Seq<char>, b: Seq<char>) -> bool {
    a.len() == b.len() && forall|i: int| 0 <= i < a.len() ==> ascii_fold_eq(#[trigger] a[i], b[i])
}

/// Whether `a` and `b` are equal up to the case of ASCII letters.
pub fn eq_ignore_ascii_case_chars(a: &Vec<char>, b: &Vec<char>) -> (r: bool)
    ensures
        r == eq_ignore_ascii_case(a@, b@),
{
    if a.len() != b.len() {
        return false;
    }
    for i in 0..a.len()
        invariant
            a@.len() == b@.len(),
            forall|k: int| 0 <= k < i ==> ascii_fold_eq(#[trigger] a@[k], b@[k]),
    {
        let x = a[i];
        let y = b[i];
        let eq = x == y || ('A' <= x && x <= 'Z' && (x as u32) + 32 == (y as u32)) || ('A' <= y
            && y <= 'Z' && (y as u32) + 32 == (x as u32));
        if !eq {
            return false;
        }
    }
    true
}

/// The position of the last `c` in `s`, or -1.
pub open spec fn last_index_of(s: Seq<char>, c: char) -> int
    decreases s.len(),
{
    if s.len() == 0 {
        -1
    } else if s.last() == c {
        s.len() - 1
    } else {
        last_index_of(s.drop_last(), c)
    }
}

/// The position of the last `c` in `s`, if any.
pub fn last_index_of_char(s: &Vec<char>, c: char) -> (r: Option<usize>)
    ensures
        match r {
            Some(i) => last_index_of(s@, c) == i as int && i < s@.len() && s@[i as int] == c,
            None => last_index_of(s@, c) == -1,
        },
{
    let mut j: usize = s.len();
    assert(s@.subrange(0, j as int) =~= s@);
    while j > 0
        invariant
            j <= s@.len(),
            last_index_of(s@, c) == last_index_of(s@.subrange(0, j as int), c),
        decreases j,
    {
        if s[j - 1] == c {
            return Some(j - 1);
        }
        assert(s@.subrange(0, j as int).drop_last() =~= s@.subrange(0, j - 1));
        j = j - 1;
    }
    None
}

/// The number of bytes of `c` in UTF-8.
pub open spec fn utf8_width(c: char) -> nat {
    if (c as u32) < 0x80 {
        1
    } else if (c as u32) < 0x800 {
        2
    } else if (c as u32) < 0x10000 {
        3
    } else {
        4
    }
}

/// The number of bytes of `s` in UTF-8 (`str::len`).
pub open spec fn byte_len(s: Seq<char>) -> nat
    decreases s.len(),
{
    if s.len() == 0 {
        0
    } else {
        byte_len(s.drop_last()) + utf8_width(s.last())
    }
}

/// The number of bytes of `c` in UTF-8 (`char::len_utf8`).
pub fn char_width(c: char) -> (w: usize)
    ensures
        w == utf8_width(c),
{
    let u = c as u32;
    if u < 0x80 {
        1
    } else if u < 0x800 {
        2
    } else if u < 0x10000 {
        3
    } else {
        4
    }
}

/// A longer prefix has at least as many bytes.
pub proof fn lemma_byte_len_mono(s: Seq<char>, i: int, j: int)
    requires
        0 <= i <= j <= s.len(),
    ensures
        byte_len(s.take(i)) <= byte_len(s.take(j)),
    decreases j - i,
{
    if i < j {
        lemma_byte_len_mono(s, i, j - 1);
        assert(s.take(j).drop_last() =~= s.take(j - 1));
    }
}

/// The number of bytes of `s` in UTF-8, when it fits in a `usize`.
pub fn byte_len_chars(s: &Vec<char>) -> (n: Option<usize>)
    ensures
        match n {
            Some(k) => k == byte_len(s@),
            None => byte_len(s@) > usize::MAX,
        },
{
    let mut acc: usize = 0;
    assert(s@.take(0) =~= Seq::<char>::empty());
    for i in 0..s.len()
        invariant
            acc == byte_len(s@.take(i as int)),
    {
        let w = char_width(s[i]);
        assert(s@.take(i + 1).drop_last() =~= s@.take(i as int));
        if w > usize::MAX - acc {
            proof {
                lemma_byte_len_mono(s@, i + 1, s@.len() as int);
                assert(s@.take(s@.len() as int) =~= s@);
            }
            return None;
        }
        acc = acc + w;
    }
    assert(s@.take(s@.len() as int) =~= s@);
    Some(acc)
}

/// The longest prefix of `s` with at most `max` bytes, the prefix that ends at
/// `str::floor_char_boundary(max)`.
pub open spec fn is_floor_prefix(s: Seq<char>, max: nat, k: int) -> bool {
    &&& 0 <= k <= s.len()
    &&& byte_len(s.take(k)) <= max
    &&& (k == s.len() || byte_len(s.take(k + 1)) > max)
}

/// The number of leading characters of `s` that fit in `max` bytes.
pub fn floor_prefix_len(s: &Vec<char>, max: usize) -> (k: usize)
    ensures
        is_floor_prefix(s@, max as nat, k as int),
{
    let mut acc: usize = 0;
    assert(s@.take(0) =~= Seq::<char>::empty());
    let n = s.len();
    for i in 0..n
        invariant
            n == s@.len(),
            acc == byte_len(s@.take(i as int)),
            acc <= max,
    {
        let w = char_width(s[i]);
        assert(s@.take(i + 1).drop_last() =~= s@.take(i as int));
        if w > max - acc {
            return i;
        }
        acc = acc + w;
    }
    n
}

/// The prefix of a floor split is unique: it is the whole string when that fits.
pub proof fn lemma_floor_prefix_whole(s: Seq<char>, max: nat, k: int)
    requires
        is_floor_prefix(s, max, k),
        byte_len(s) <= max,
    ensures
        k == s.len(),
{
    if k < s.len() {
        lemma_byte_len_mono(s, k + 1, s.len() as int);
        assert(s.take(s.len() as int) =~= s);
    }
}

/// Only one prefix is the floor split of `s` at `max` bytes.
pub proof fn lemma_floor_prefix_unique(s: Seq<char>, max: nat, k1: int, k2: int)
    requires
        is_floor_prefix(s, max, k1),
        is_floor_prefix(s, max, k2),
    ensures
        k1 == k2,
{
    if k1 < k2 {
        lemma_byte_len_mono(s, k1 + 1, k2);
    } else if k2 < k1 {
        lemma_byte_len_mono(s, k2 + 1, k1);
    }
}

/// The longest prefix of `s` with at most `max` bytes (`&s[..s.floor_char_boundary(max)]`).
pub open spec fn floor_prefix(s: Seq<char>, max: nat) -> Seq<char> {
    s.take(choose|k: int| is_floor_prefix(s, max, k))
}

/// The prefix that a floor split at `k` gives is [`floor_prefix`].
pub proof fn lemma_floor_prefix_is(s: Seq<char>, max: nat, k: int)
    requires
        is_floor_prefix(s, max, k),
    ensures
        floor_prefix(s, max) == s.take(k),
{
    let c = choose|k: int| is_floor_prefix(s, max, k);
    lemma_floor_prefix_unique(s, max, c, k);
}

} // verus!
