//! The report of `carina duplicates`: the titles, then the DOIs, that two or more
//! references share, each key in sorted order with the directories that carry it.
use vstd::prelude::*;

use crate::dedup::{keys_view, DupKeys};
use crate::order::{insert_sorted, lex_lt, sorted_lists_equal, strictly_sorted};
use crate::present::{owned, str_eq};
use crate::text::strs_view;

verus! {

/// The key under which a reference is listed: its title key, or (`by_doi`) its
/// DOI key; none when that key is empty or missing.
pub open spec fn listing_key(k: (Seq<char>, Option<Seq<char>>), by_doi: bool) -> Option<Seq<char>> {
    if by_doi {
        match k.1 {
            Some(d) => if d.len() > 0 {
                Some(d)
            } else {
                None
            },
            None => None,
        }
    } else if k.0.len() > 0 {
        Some(k.0)
    } else {
        None
    }
}

/// The references among the first `n` listed under `key`, in order.
pub open spec fn key_members(ks: Seq<(Seq<char>, Option<Seq<char>>)>, key: Seq<char>, by_doi: bool, n: int) -> Seq<usize>
    decreases n,
{
    if n <= 0 {
        seq![]
    } else if listing_key(ks[n - 1], by_doi) == Some(key) {
        key_members(ks, key, by_doi, n - 1).push((n - 1) as usize)
    } else {
        key_members(ks, key, by_doi, n - 1)
    }
}

/// Two or more references are listed under `key`.
pub open spec fn shared_key(ks: Seq<(Seq<char>, Option<Seq<char>>)>, key: Seq<char>, by_doi: bool) -> bool {
    key_members(ks, key, by_doi, ks.len() as int).len() >= 2
}

/// `keys` are the shared keys, sorted, each once.
pub open spec fn shared_keys_ok(keys: Seq<Seq<char>>, ks: Seq<(Seq<char>, Option<Seq<char>>)>, by_doi: bool) -> bool {
    &&& strictly_sorted(keys)
    &&& forall|t: Seq<char>| keys.contains(t) <==> shared_key(ks, t, by_doi)
}

/// The line that introduces a key: a title in double quotes, a DOI as it is.
pub open spec fn key_line(key: Seq<char>, by_doi: bool) -> Seq<char> {
    if by_doi {
        "  "@ + key
    } else {
        "  \""@ + key + "\""@
    }
}

/// The lines naming the directories of the given references.
pub open spec fn member_lines(names: Seq<Seq<char>>, m: Seq<usize>) -> Seq<Seq<char>>
    decreases m.len(),
{
    if m.len() == 0 {
        seq![]
    } else {
        member_lines(names, m.drop_last()).push("    "@ + names[m.last() as int])
    }
}

/// The lines for the first `n` keys: each key's line, then its directories.
pub open spec fn section_lines(
    ks: Seq<(Seq<char>, Option<Seq<char>>)>,
    names: Seq<Seq<char>>,
    keys: Seq<Seq<char>>,
    by_doi: bool,
    n: int,
) -> Seq<Seq<char>>
    decreases n,
{
    if n <= 0 {
        seq![]
    } else {
        section_lines(ks, names, keys, by_doi, n - 1) + seq![key_line(keys[n - 1], by_doi)] + member_lines(
            names,
            key_members(ks, keys[n - 1], by_doi, ks.len() as int),
        )
    }
}

/// The whole report: the title section when there are shared titles, a blank
/// line between the sections, the DOI section when there are shared DOIs, and a
/// line saying there are none when there are neither.
pub open spec fn report_of(
    ks: Seq<(Seq<char>, Option<Seq<char>>)>,
    names: Seq<Seq<char>>,
    tkeys: Seq<Seq<char>>,
    dkeys: Seq<Seq<char>>,
) -> Seq<Seq<char>> {
    (if tkeys.len() > 0 {
        seq!["Duplicates by title:"@] + section_lines(ks, names, tkeys, false, tkeys.len() as int)
    } else {
        seq![]
    }) + (if dkeys.len() > 0 {
        (if tkeys.len() > 0 {
            seq![seq![]]
        } else {
            seq![]
        }) + seq!["Duplicates by DOI:"@] + section_lines(ks, names, dkeys, true, dkeys.len() as int)
    } else {
        seq![]
    }) + (if tkeys.len() == 0 && dkeys.len() == 0 {
        seq!["No duplicates found."@]
    } else {
        seq![]
    })
}

/// The report of shared titles and DOIs.
pub struct DuplicateReport {
    pub title_keys: Vec<String>,
    pub doi_keys: Vec<String>,
    pub lines: Vec<String>,
}

/// The key under which reference `i` is listed.
fn key_of(keys: &Vec<DupKeys>, i: usize, by_doi: bool) -> (k: Option<&String>)
    requires
        i < keys@.len(),
    ensures
        match k {
            Some(s) => listing_key(keys_view(keys@)[i as int], by_doi) == Some(s@),
            None => listing_key(keys_view(keys@)[i as int], by_doi) is None,
        },
{
    assert(keys_view(keys@)[i as int] == keys@[i as int]@);
    if by_doi {
        match &keys[i].doi {
            Some(d) => if d.unicode_len() > 0 {
                Some(d)
            } else {
                None
            },
            None => None,
        }
    } else if keys[i].title.unicode_len() > 0 {
        Some(&keys[i].title)
    } else {
        None
    }
}

/// The references listed under `key`.
fn members_of(keys: &Vec<DupKeys>, key: &str, by_doi: bool) -> (m: Vec<usize>)
    ensures
        m@ == key_members(keys_view(keys@), key@, by_doi, keys@.len() as int),
{
    let ghost ks = keys_view(keys@);
    let mut m: Vec<usize> = Vec::new();
    for i in 0..keys.len()
        invariant
            ks == keys_view(keys@),
            m@ == key_members(ks, key@, by_doi, i as int),
    {
        let hit = match key_of(keys, i, by_doi) {
            Some(k) => str_eq(k.as_str(), key),
            None => false,
        };
        if hit {
            m.push(i);
        }
    }
    m
}

/// Every key under which some reference is listed, sorted, each once.
fn all_keys(keys: &Vec<DupKeys>, by_doi: bool) -> (all: Vec<String>)
    ensures
        strictly_sorted(strs_view(all@)),
        forall|t: Seq<char>|
            strs_view(all@).contains(t) <==> exists|i: int|
                0 <= i < keys@.len() && #[trigger] listing_key(keys_view(keys@)[i], by_doi) == Some(t),
{
    let ghost ks = keys_view(keys@);
    let mut all: Vec<String> = Vec::new();
    assert(strs_view(all@) =~= Seq::<Seq<char>>::empty());
    for i in 0..keys.len()
        invariant
            ks == keys_view(keys@),
            strictly_sorted(strs_view(all@)),
            forall|t: Seq<char>|
                strs_view(all@).contains(t) <==> exists|j: int| 0 <= j < i && #[trigger] listing_key(ks[j], by_doi) == Some(t),
    {
        let ghost before = strs_view(all@);
        match key_of(keys, i, by_doi) {
            Some(k) => {
                let kc = owned(k.as_str());
                insert_sorted(&mut all, &kc);
            },
            None => {},
        }
        assert forall|t: Seq<char>|
            strs_view(all@).contains(t) <==> exists|j: int| 0 <= j < i + 1 && #[trigger] listing_key(ks[j], by_doi) == Some(t) by {
            assert(before.contains(t) <==> exists|j: int| 0 <= j < i && #[trigger] listing_key(ks[j], by_doi) == Some(t));
            if exists|j: int| 0 <= j < i + 1 && #[trigger] listing_key(ks[j], by_doi) == Some(t) {
                let j = choose|j: int| 0 <= j < i + 1 && #[trigger] listing_key(ks[j], by_doi) == Some(t);
                if j < i {
                    assert(before.contains(t));
                }
            }
            if before.contains(t) {
                let j = choose|j: int| 0 <= j < i && #[trigger] listing_key(ks[j], by_doi) == Some(t);
                assert(0 <= j < i + 1);
            }
        }
    }
    all
}

/// `t` is among the first `j` strings of `s`.
spec fn in_first(s: Seq<Seq<char>>, j: int, t: Seq<char>) -> bool {
    exists|m: int| 0 <= m < j && s[m] == t
}

/// A key with members has one whose listing key it is.
proof fn lemma_members_listed(ks: Seq<(Seq<char>, Option<Seq<char>>)>, key: Seq<char>, by_doi: bool, n: int)
    requires
        0 <= n <= ks.len(),
        key_members(ks, key, by_doi, n).len() > 0,
    ensures
        exists|i: int| 0 <= i < ks.len() && #[trigger] listing_key(ks[i], by_doi) == Some(key),
    decreases n,
{
    if listing_key(ks[n - 1], by_doi) == Some(key) {
        assert(listing_key(ks[n - 1], by_doi) == Some(key));
    } else {
        lemma_members_listed(ks, key, by_doi, n - 1);
    }
}

/// The keys that two or more references share, sorted.
fn shared_keys(keys: &Vec<DupKeys>, by_doi: bool) -> (r: Vec<String>)
    ensures
        shared_keys_ok(strs_view(r@), keys_view(keys@), by_doi),
{
    let ghost ks = keys_view(keys@);
    let all = all_keys(keys, by_doi);
    let ghost av = strs_view(all@);
    let mut r: Vec<String> = Vec::new();
    let ghost mut pos: Seq<int> = Seq::empty();
    for j in 0..all.len()
        invariant
            ks == keys_view(keys@),
            av == strs_view(all@),
            strictly_sorted(av),
            forall|t: Seq<char>|
                av.contains(t) <==> exists|i: int| 0 <= i < keys@.len() && #[trigger] listing_key(ks[i], by_doi) == Some(t),
            strictly_sorted(strs_view(r@)),
            pos.len() == r@.len(),
            forall|x: int| 0 <= x < r@.len() ==> 0 <= #[trigger] pos[x] < j && av[pos[x]] == strs_view(r@)[x],
            forall|t: Seq<char>| #[trigger] strs_view(r@).contains(t) <==> in_first(av, j as int, t) && shared_key(ks, t, by_doi),
    {
        let m = members_of(keys, all[j].as_str(), by_doi);
        assert(av[j as int] == all@[j as int]@);
        let ghost before = strs_view(r@);
        if m.len() >= 2 {
            let ghost old_pos = pos;
            r.push(owned(all[j].as_str()));
            proof {
                pos = pos.push(j as int);
            }
            let ghost after = strs_view(r@);
            assert(after =~= before.push(av[j as int]));
            assert forall|a: int, b: int| 0 <= a < b < after.len() implies lex_lt(#[trigger] after[a], #[trigger] after[b]) by {
                if b == before.len() {
                    assert(pos[a] == old_pos[a]);
                    assert(lex_lt(av[old_pos[a]], av[j as int]));
                }
            }
            assert forall|x: int| 0 <= x < after.len() implies 0 <= #[trigger] pos[x] < j + 1 && av[pos[x]] == after[x] by {
                if x < before.len() {
                    assert(pos[x] == old_pos[x]);
                }
            }
            assert forall|t: Seq<char>| after.contains(t) <==> in_first(av, j + 1, t) && shared_key(ks, t, by_doi) by {
                if after.contains(t) {
                    let x = choose|x: int| 0 <= x < after.len() && after[x] == t;
                    if x < before.len() {
                        assert(before[x] == t);
                        assert(before.contains(t));
                        assert(av[old_pos[x]] == t);
                        assert(0 <= old_pos[x] < j + 1);
                        assert(in_first(av, j + 1, t));
                    } else {
                        assert(av[j as int] == t);
                        assert(in_first(av, j + 1, t));
                    }
                }
                if in_first(av, j + 1, t) && shared_key(ks, t, by_doi) {
                    let m = choose|m: int| 0 <= m < j + 1 && av[m] == t;
                    if m < j {
                        assert(in_first(av, j as int, t));
                        assert(before.contains(t));
                        let x = choose|x: int| 0 <= x < before.len() && before[x] == t;
                        assert(after[x] == t);
                    } else {
                        assert(after[before.len() as int] == t);
                    }
                }
            }
        } else {
            assert forall|t: Seq<char>| before.contains(t) <==> in_first(av, j + 1, t) && shared_key(ks, t, by_doi) by {
                if before.contains(t) {
                    assert(strs_view(r@).contains(t));
                    assert(in_first(av, j as int, t));
                    let m = choose|m: int| 0 <= m < j && av[m] == t;
                    assert(0 <= m < j + 1);
                    assert(in_first(av, j + 1, t));
                }
                if in_first(av, j + 1, t) && shared_key(ks, t, by_doi) {
                    let m = choose|m: int| 0 <= m < j + 1 && av[m] == t;
                    if m == j {
                        assert(t == av[j as int]);
                        assert(false);
                    }
                }
            }
        }
    }
    assert forall|t: Seq<char>| strs_view(r@).contains(t) <==> shared_key(ks, t, by_doi) by {
        if shared_key(ks, t, by_doi) {
            lemma_members_listed(ks, t, by_doi, ks.len() as int);
            assert(av.contains(t));
            let m = choose|m: int| 0 <= m < av.len() && av[m] == t;
            assert(in_first(av, all@.len() as int, t));
        }
    }
    r
}

/// Appends the lines of one key: its line, then its directories.
fn push_key_block(
    lines: &mut Vec<String>,
    keys: &Vec<DupKeys>,
    names: &Vec<String>,
    key: &str,
    by_doi: bool,
)
    requires
        names@.len() == keys@.len(),
    ensures
        strs_view(final(lines)@) == strs_view(old(lines)@) + seq![key_line(key@, by_doi)] + member_lines(
            strs_view(names@),
            key_members(keys_view(keys@), key@, by_doi, keys@.len() as int),
        ),
{
    let ghost nv = strs_view(names@);
    let mut head = if by_doi {
        owned("  ")
    } else {
        owned("  \"")
    };
    head.append(key);
    if !by_doi {
        head.append("\"");
    }
    lines.push(head);
    let ghost start = strs_view(lines@);
    let m = members_of(keys, key, by_doi);
    proof {
        lemma_members_below(keys_view(keys@), key@, by_doi, keys@.len() as int);
    }
    assert(m@.take(0) =~= Seq::<usize>::empty());
    for k in 0..m.len()
        invariant
            nv == strs_view(names@),
            names@.len() == keys@.len(),
            forall|x: int| 0 <= x < m@.len() ==> (#[trigger] m@[x] as int) < keys@.len(),
            strs_view(lines@) == start + member_lines(nv, m@.take(k as int)),
    {
        let i = m[k];
        let mut l = owned("    ");
        l.append(names[i].as_str());
        let ghost before = strs_view(lines@);
        lines.push(l);
        assert(m@.take(k + 1).drop_last() =~= m@.take(k as int));
        assert(nv[i as int] == names@[i as int]@);
        assert(strs_view(lines@) =~= before.push("    "@ + nv[i as int]));
    }
    assert(m@.take(m@.len() as int) =~= m@);
}

/// The members of a key are references of the library.
proof fn lemma_members_below(ks: Seq<(Seq<char>, Option<Seq<char>>)>, key: Seq<char>, by_doi: bool, n: int)
    requires
        0 <= n <= ks.len(),
    ensures
        forall|x: int|
            0 <= x < key_members(ks, key, by_doi, n).len() ==> (#[trigger] key_members(ks, key, by_doi, n)[x] as int) < n,
    decreases n,
{
    if n > 0 {
        lemma_members_below(ks, key, by_doi, n - 1);
        let p = key_members(ks, key, by_doi, n - 1);
        let q = key_members(ks, key, by_doi, n);
        assert forall|x: int| 0 <= x < q.len() implies (#[trigger] q[x] as int) < n by {
            if x < p.len() {
                assert(q[x] == p[x]);
            }
        }
    }
}

/// Appends the lines of the given keys.
fn push_section(
    lines: &mut Vec<String>,
    keys: &Vec<DupKeys>,
    names: &Vec<String>,
    skeys: &Vec<String>,
    by_doi: bool,
)
    requires
        names@.len() == keys@.len(),
    ensures
        strs_view(final(lines)@) == strs_view(old(lines)@) + section_lines(
            keys_view(keys@),
            strs_view(names@),
            strs_view(skeys@),
            by_doi,
            skeys@.len() as int,
        ),
{
    let ghost start = strs_view(lines@);
    let ghost sv = strs_view(skeys@);
    for j in 0..skeys.len()
        invariant
            names@.len() == keys@.len(),
            sv == strs_view(skeys@),
            strs_view(lines@) == start + section_lines(keys_view(keys@), strs_view(names@), sv, by_doi, j as int),
    {
        assert(sv[j as int] == skeys@[j as int]@);
        push_key_block(lines, keys, names, skeys[j].as_str(), by_doi);
    }
}

/// The report of `carina duplicates`, given the keys and directory names of the
/// references in library order.
pub fn duplicates_report(keys: &Vec<DupKeys>, names: &Vec<String>) -> (r: DuplicateReport)
    requires
        names@.len() == keys@.len(),
    ensures
        shared_keys_ok(strs_view(r.title_keys@), keys_view(keys@), false),
        shared_keys_ok(strs_view(r.doi_keys@), keys_view(keys@), true),
        strs_view(r.lines@) == report_of(
            keys_view(keys@),
            strs_view(names@),
            strs_view(r.title_keys@),
            strs_view(r.doi_keys@),
        ),
{
    let tkeys = shared_keys(keys, false);
    let dkeys = shared_keys(keys, true);
    let ghost ks = keys_view(keys@);
    let ghost nv = strs_view(names@);
    let mut lines: Vec<String> = Vec::new();
    if tkeys.len() > 0 {
        lines.push(owned("Duplicates by title:"));
        push_section(&mut lines, keys, names, &tkeys, false);
    }
    let ghost first = strs_view(lines@);
    assert(first =~= (if tkeys@.len() > 0 {
        seq!["Duplicates by title:"@] + section_lines(ks, nv, strs_view(tkeys@), false, tkeys@.len() as int)
    } else {
        Seq::<Seq<char>>::empty()
    }));
    if dkeys.len() > 0 {
        if tkeys.len() > 0 {
            lines.push(String::new());
        }
        lines.push(owned("Duplicates by DOI:"));
        push_section(&mut lines, keys, names, &dkeys, true);
    }
    let ghost second = strs_view(lines@);
    assert(second =~= first + (if dkeys@.len() > 0 {
        (if tkeys@.len() > 0 {
            seq![Seq::<char>::empty()]
        } else {
            Seq::<Seq<char>>::empty()
        }) + seq!["Duplicates by DOI:"@] + section_lines(ks, nv, strs_view(dkeys@), true, dkeys@.len() as int)
    } else {
        Seq::<Seq<char>>::empty()
    }));
    if tkeys.len() == 0 && dkeys.len() == 0 {
        lines.push(owned("No duplicates found."));
    }
    assert(strs_view(lines@) =~= report_of(ks, nv, strs_view(tkeys@), strs_view(dkeys@)));
    DuplicateReport { title_keys: tkeys, doi_keys: dkeys, lines }
}

/// The report is determined by the library: any two lists of shared keys that
/// meet its description are the same list.
pub proof fn shared_keys_unique(
    k1: Seq<Seq<char>>,
    k2: Seq<Seq<char>>,
    ks: Seq<(Seq<char>, Option<Seq<char>>)>,
    by_doi: bool,
)
    requires
        shared_keys_ok(k1, ks, by_doi),
        shared_keys_ok(k2, ks, by_doi),
    ensures
        k1 == k2,
{
    sorted_lists_equal(k1, k2);
}

} // verus!
