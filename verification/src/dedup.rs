//! Duplicate detection: references count as duplicates when their normalised
//! titles agree, or, failing that, when their normalised DOIs agree.
use vstd::prelude::*;

use crate::model::Reference;
use crate::text::{chars_of, lowercase, opt_view, to_lowercase, trim, trim_chars, string_of};

verus! {

/// The normalised keys of one reference: title and DOI, trimmed and lowercased.
pub struct DupKeys {
    pub title: String,
    pub doi: Option<String>,
}

impl View for DupKeys {
    type V = (Seq<char>, Option<Seq<char>>);

    open spec fn view(&self) -> (Seq<char>, Option<Seq<char>>) {
        (self.title@, opt_view(self.doi))
    }
}

/// The keys of a list of references.
pub open spec fn keys_view(v: Seq<DupKeys>) -> Seq<(Seq<char>, Option<Seq<char>>)> {
    v.map_values(|k: DupKeys| k@)
}

/// A key as `carina` compares it: without surrounding whitespace, in lowercase.
pub open spec fn normal_of(s: Seq<char>) -> Seq<char> {
    lowercase(trim(s))
}

/// Normalises a title or DOI for comparison.
pub fn normalize_key(s: &str) -> (r: String)
    ensures
        r@ == normal_of(s@),
{
    let c = chars_of(s);
    let t = trim_chars(&c);
    let ts = string_of(&t);
    to_lowercase(ts.as_str())
}

/// The duplicate keys of a reference.
pub fn duplicate_keys(r: &Reference) -> (k: DupKeys)
    ensures
        k@.0 == normal_of(r@.title),
        k@.1 == match r@.doi {
            Some(d) => Some(normal_of(d)),
            None => None,
        },
{
    let title = normalize_key(r.title.as_str());
    let doi = match &r.doi {
        Some(d) => Some(normalize_key(d.as_str())),
        None => None,
    };
    DupKeys { title, doi }
}

/// The references `i` and `j` share a non-empty title key.
pub open spec fn same_title(ks: Seq<(Seq<char>, Option<Seq<char>>)>, i: int, j: int) -> bool {
    ks[i].0.len() > 0 && ks[i].0 == ks[j].0
}

/// Some other reference shares the title key of `i`.
pub open spec fn title_dup(ks: Seq<(Seq<char>, Option<Seq<char>>)>, i: int) -> bool {
    exists|j: int| 0 <= j < ks.len() && j != i && #[trigger] same_title(ks, i, j)
}

/// The reference has a non-empty DOI key.
pub open spec fn has_doi(k: (Seq<char>, Option<Seq<char>>)) -> bool {
    k.1 is Some && k.1->0.len() > 0
}

/// Neither `i` nor `j` has a title duplicate, and they share a non-empty DOI key.
pub open spec fn same_doi(ks: Seq<(Seq<char>, Option<Seq<char>>)>, i: int, j: int) -> bool {
    !title_dup(ks, i) && !title_dup(ks, j) && has_doi(ks[i]) && ks[i].1 == ks[j].1
}

/// `i` and `j` belong together, by title (`by_doi` false) or by DOI.
pub open spec fn same_key(
    ks: Seq<(Seq<char>, Option<Seq<char>>)>,
    i: int,
    j: int,
    by_doi: bool,
) -> bool {
    if by_doi {
        same_doi(ks, i, j)
    } else {
        same_title(ks, i, j)
    }
}

/// Some other reference belongs together with `i`.
pub open spec fn has_partner(ks: Seq<(Seq<char>, Option<Seq<char>>)>, i: int, by_doi: bool) -> bool {
    exists|j: int| 0 <= j < ks.len() && j != i && #[trigger] same_key(ks, i, j, by_doi)
}

/// `r` is the first reference of its group.
pub open spec fn is_rep(ks: Seq<(Seq<char>, Option<Seq<char>>)>, r: int, by_doi: bool) -> bool {
    has_partner(ks, r, by_doi) && forall|j: int| 0 <= j < r ==> !#[trigger] same_key(ks, r, j, by_doi)
}

/// The references below `k` that belong together with `r`, in order.
pub open spec fn members_upto(
    ks: Seq<(Seq<char>, Option<Seq<char>>)>,
    r: int,
    k: int,
    by_doi: bool,
) -> Seq<usize>
    decreases k,
{
    if k <= 0 {
        seq![]
    } else {
        let p = members_upto(ks, r, k - 1, by_doi);
        if same_key(ks, r, k - 1, by_doi) {
            p.push((k - 1) as usize)
        } else {
            p
        }
    }
}

/// The groups whose first reference lies below `k`, in order of that reference.
pub open spec fn groups_upto(ks: Seq<(Seq<char>, Option<Seq<char>>)>, k: int, by_doi: bool) -> Seq<
    Seq<usize>,
>
    decreases k,
{
    if k <= 0 {
        seq![]
    } else {
        let p = groups_upto(ks, k - 1, by_doi);
        if is_rep(ks, k - 1, by_doi) {
            p.push(members_upto(ks, k - 1, ks.len() as int, by_doi))
        } else {
            p
        }
    }
}

/// The duplicate groups of a library: first the groups of references that share a
/// title, then, among the rest, the groups that share a DOI; each group lists its
/// references in library order, and groups come in order of their first reference.
pub open spec fn duplicate_groups_of(ks: Seq<(Seq<char>, Option<Seq<char>>)>) -> Seq<Seq<usize>> {
    groups_upto(ks, ks.len() as int, false) + groups_upto(ks, ks.len() as int, true)
}

fn chars_eq(a: &Vec<char>, b: &Vec<char>) -> (r: bool)
    ensures
        r == (a@ == b@),
{
    if a.len() != b.len() {
        return false;
    }
    for i in 0..a.len()
        invariant
            a@.len() == b@.len(),
            forall|k: int| 0 <= k < i ==> a@[k] == b@[k],
    {
        if a[i] != b[i] {
            return false;
        }
    }
    assert(a@ =~= b@);
    true
}

fn opt_chars_eq(a: &Option<Vec<char>>, b: &Option<Vec<char>>) -> (r: bool)
    ensures
        r == (opt_chars_view(*a) == opt_chars_view(*b)),
{
    match (a, b) {
        (Some(x), Some(y)) => chars_eq(x, y),
        (None, None) => true,
        _ => false,
    }
}

/// The view of an optional character vector.
pub open spec fn opt_chars_view(o: Option<Vec<char>>) -> Option<Seq<char>> {
    match o {
        Some(v) => Some(v@),
        None => None,
    }
}

/// The keys laid out as character vectors, for comparison.
struct KeyTable {
    titles: Vec<Vec<char>>,
    dois: Vec<Option<Vec<char>>>,
    tdup: Vec<bool>,
}

impl KeyTable {
    spec fn matches(&self, ks: Seq<(Seq<char>, Option<Seq<char>>)>) -> bool {
        &&& self.titles@.len() == ks.len()
        &&& self.dois@.len() == ks.len()
        &&& forall|i: int| 0 <= i < ks.len() ==> #[trigger] self.titles@[i]@ == ks[i].0
        &&& forall|i: int| 0 <= i < ks.len() ==> #[trigger] opt_chars_view(self.dois@[i]) == ks[i].1
    }

    spec fn complete(&self, ks: Seq<(Seq<char>, Option<Seq<char>>)>) -> bool {
        &&& self.matches(ks)
        &&& self.tdup@.len() == ks.len()
        &&& forall|i: int| 0 <= i < ks.len() ==> #[trigger] self.tdup@[i] == title_dup(ks, i)
    }

    fn same_title_at(&self, Ghost(ks): Ghost<Seq<(Seq<char>, Option<Seq<char>>)>>, i: usize, j: usize) -> (b: bool)
        requires
            self.matches(ks),
            i < ks.len(),
            j < ks.len(),
        ensures
            b == same_title(ks, i as int, j as int),
    {
        self.titles[i].len() > 0 && chars_eq(&self.titles[i], &self.titles[j])
    }

    fn same_key_at(
        &self,
        Ghost(ks): Ghost<Seq<(Seq<char>, Option<Seq<char>>)>>,
        i: usize,
        j: usize,
        by_doi: bool,
    ) -> (b: bool)
        requires
            self.complete(ks),
            i < ks.len(),
            j < ks.len(),
        ensures
            b == same_key(ks, i as int, j as int, by_doi),
    {
        if by_doi {
            assert(opt_chars_view(self.dois@[i as int]) == ks[i as int].1);
            assert(opt_chars_view(self.dois@[j as int]) == ks[j as int].1);
            assert(self.tdup@[i as int] == title_dup(ks, i as int));
            assert(self.tdup@[j as int] == title_dup(ks, j as int));
            let ok = match &self.dois[i] {
                Some(d) => d.len() > 0,
                None => false,
            };
            !self.tdup[i] && !self.tdup[j] && ok && opt_chars_eq(&self.dois[i], &self.dois[j])
        } else {
            self.same_title_at(Ghost(ks), i, j)
        }
    }
}

fn key_table(keys: &Vec<DupKeys>) -> (t: KeyTable)
    ensures
        t.complete(keys_view(keys@)),
{
    let ghost ks = keys_view(keys@);
    let n = keys.len();
    let mut titles: Vec<Vec<char>> = Vec::new();
    let mut dois: Vec<Option<Vec<char>>> = Vec::new();
    for i in 0..n
        invariant
            n == keys@.len(),
            ks == keys_view(keys@),
            titles@.len() == i,
            dois@.len() == i,
            forall|k: int| 0 <= k < i ==> #[trigger] titles@[k]@ == ks[k].0,
            forall|k: int| 0 <= k < i ==> #[trigger] opt_chars_view(dois@[k]) == ks[k].1,
    {
        titles.push(chars_of(keys[i].title.as_str()));
        let d = match &keys[i].doi {
            Some(s) => Some(chars_of(s.as_str())),
            None => None,
        };
        dois.push(d);
    }
    let mut t = KeyTable { titles, dois, tdup: Vec::new() };
    for i in 0..n
        invariant
            n == ks.len(),
            t.matches(ks),
            t.tdup@.len() == i,
            forall|k: int| 0 <= k < i ==> #[trigger] t.tdup@[k] == title_dup(ks, k),
    {
        let mut found = false;
        for j in 0..n
            invariant
                n == ks.len(),
                i < n,
                t.matches(ks),
                found == exists|m: int| 0 <= m < j && m != i && #[trigger] same_title(ks, i as int, m),
        {
            if j != i && t.same_title_at(Ghost(ks), i, j) {
                found = true;
            }
        }
        t.tdup.push(found);
    }
    t
}

fn members(t: &KeyTable, Ghost(ks): Ghost<Seq<(Seq<char>, Option<Seq<char>>)>>, r: usize, by_doi: bool) -> (m: Vec<usize>)
    requires
        t.complete(ks),
        r < ks.len(),
    ensures
        m@ == members_upto(ks, r as int, ks.len() as int, by_doi),
{
    let n = t.titles.len();
    let mut m: Vec<usize> = Vec::new();
    for j in 0..n
        invariant
            n == ks.len(),
            t.complete(ks),
            r < n,
            m@ == members_upto(ks, r as int, j as int, by_doi),
    {
        if t.same_key_at(Ghost(ks), r, j, by_doi) {
            m.push(j);
        }
    }
    m
}

fn collect_groups(
    t: &KeyTable,
    Ghost(ks): Ghost<Seq<(Seq<char>, Option<Seq<char>>)>>,
    groups: &mut Vec<Vec<usize>>,
    by_doi: bool,
)
    requires
        t.complete(ks),
    ensures
        groups_view(final(groups)@) == groups_view(old(groups)@) + groups_upto(ks, ks.len() as int, by_doi),
{
    let n = t.titles.len();
    let ghost g0 = groups_view(groups@);
    for r in 0..n
        invariant
            n == ks.len(),
            t.complete(ks),
            groups_view(groups@) == g0 + groups_upto(ks, r as int, by_doi),
    {
        let mut partner = false;
        let mut earlier = false;
        for j in 0..n
            invariant
                n == ks.len(),
                r < n,
                t.complete(ks),
                partner == exists|m: int| 0 <= m < j && m != r && #[trigger] same_key(ks, r as int, m, by_doi),
                earlier == exists|m: int| 0 <= m < j && m < r && #[trigger] same_key(ks, r as int, m, by_doi),
        {
            if t.same_key_at(Ghost(ks), r, j, by_doi) {
                if j != r {
                    partner = true;
                }
                if j < r {
                    earlier = true;
                }
            }
        }
        assert(is_rep(ks, r as int, by_doi) == (partner && !earlier));
        if partner && !earlier {
            let m = members(t, Ghost(ks), r, by_doi);
            let ghost before = groups_view(groups@);
            groups.push(m);
            assert(groups_view(groups@) =~= before.push(m@));
        }
        assert(groups_view(groups@) =~= g0 + groups_upto(ks, r + 1, by_doi));
    }
}

/// The view of a list of index groups.
pub open spec fn groups_view(g: Seq<Vec<usize>>) -> Seq<Seq<usize>> {
    g.map_values(|v: Vec<usize>| v@)
}

/// The duplicate groups of a library, as positions in `keys` (`carina dedup`).
pub fn find_duplicate_groups(keys: &Vec<DupKeys>) -> (groups: Vec<Vec<usize>>)
    ensures
        groups_view(groups@) == duplicate_groups_of(keys_view(keys@)),
{
    let ghost ks = keys_view(keys@);
    let t = key_table(keys);
    let mut groups: Vec<Vec<usize>> = Vec::new();
    assert(groups_view(groups@) =~= Seq::<Seq<usize>>::empty());
    collect_groups(&t, Ghost(ks), &mut groups, false);
    collect_groups(&t, Ghost(ks), &mut groups, true);
    assert(groups_view(groups@) =~= duplicate_groups_of(ks));
    groups
}

/// Belonging together is symmetric.
proof fn lemma_same_key_sym(ks: Seq<(Seq<char>, Option<Seq<char>>)>, a: int, b: int, by_doi: bool)
    requires
        same_key(ks, a, b, by_doi),
    ensures
        same_key(ks, b, a, by_doi),
{
}

/// Belonging together is transitive.
proof fn lemma_same_key_trans(
    ks: Seq<(Seq<char>, Option<Seq<char>>)>,
    a: int,
    b: int,
    c: int,
    by_doi: bool,
)
    requires
        same_key(ks, a, b, by_doi),
        same_key(ks, b, c, by_doi),
    ensures
        same_key(ks, a, c, by_doi),
{
}

/// The members below `k` of the group of `r` are the references below `k` that
/// belong with `r`, in increasing order.
proof fn lemma_members(ks: Seq<(Seq<char>, Option<Seq<char>>)>, r: int, k: int, by_doi: bool)
    requires
        0 <= k <= ks.len(),
        ks.len() <= usize::MAX,
    ensures
        forall|x: int|
            0 <= x < members_upto(ks, r, k, by_doi).len() ==> #[trigger] members_upto(
                ks,
                r,
                k,
                by_doi,
            )[x] < k && same_key(ks, r, members_upto(ks, r, k, by_doi)[x] as int, by_doi),
        forall|x: int, y: int|
            0 <= x < y < members_upto(ks, r, k, by_doi).len() ==> #[trigger] members_upto(
                ks,
                r,
                k,
                by_doi,
            )[x] < #[trigger] members_upto(ks, r, k, by_doi)[y],
        forall|j: int|
            0 <= j < k && #[trigger] same_key(ks, r, j, by_doi) ==> members_upto(
                ks,
                r,
                k,
                by_doi,
            ).contains(j as usize),
    decreases k,
{
    if k > 0 {
        lemma_members(ks, r, k - 1, by_doi);
        let p = members_upto(ks, r, k - 1, by_doi);
        let m = members_upto(ks, r, k, by_doi);
        if same_key(ks, r, k - 1, by_doi) {
            assert(m == p.push((k - 1) as usize));
            assert forall|x: int| 0 <= x < m.len() implies #[trigger] m[x] < k && same_key(
                ks,
                r,
                m[x] as int,
                by_doi,
            ) by {
                if x < p.len() {
                    assert(m[x] == p[x]);
                }
            }
            assert forall|x: int, y: int| 0 <= x < y < m.len() implies #[trigger] m[x] < #[trigger] m[y] by {
                assert(m[x] == p[x]);
                if y < p.len() {
                    assert(m[y] == p[y]);
                }
            }
            assert forall|j: int| 0 <= j < k && #[trigger] same_key(ks, r, j, by_doi) implies m.contains(
                j as usize,
            ) by {
                if j == k - 1 {
                    assert(m[m.len() - 1] == j as usize);
                } else {
                    let x = choose|x: int| 0 <= x < p.len() && p[x] == j as usize;
                    assert(m[x] == j as usize);
                }
            }
        } else {
            assert(m == p);
            assert forall|j: int| 0 <= j < k && #[trigger] same_key(ks, r, j, by_doi) implies m.contains(
                j as usize,
            ) by {
                assert(j != k - 1);
            }
        }
    }
}

/// The first references of the groups whose first reference lies below `k`.
pub open spec fn reps_upto(ks: Seq<(Seq<char>, Option<Seq<char>>)>, k: int, by_doi: bool) -> Seq<int>
    decreases k,
{
    if k <= 0 {
        seq![]
    } else {
        let p = reps_upto(ks, k - 1, by_doi);
        if is_rep(ks, k - 1, by_doi) {
            p.push(k - 1)
        } else {
            p
        }
    }
}

/// Each group is the set of members of its first reference, and the first
/// references are exactly the representatives, in increasing order.
proof fn lemma_groups_upto(ks: Seq<(Seq<char>, Option<Seq<char>>)>, k: int, by_doi: bool)
    requires
        0 <= k <= ks.len(),
    ensures
        groups_upto(ks, k, by_doi).len() == reps_upto(ks, k, by_doi).len(),
        forall|g: int|
            0 <= g < reps_upto(ks, k, by_doi).len() ==> #[trigger] groups_upto(ks, k, by_doi)[g]
                == members_upto(ks, reps_upto(ks, k, by_doi)[g], ks.len() as int, by_doi),
        forall|g: int|
            0 <= g < reps_upto(ks, k, by_doi).len() ==> 0 <= #[trigger] reps_upto(ks, k, by_doi)[g]
                < k && is_rep(ks, reps_upto(ks, k, by_doi)[g], by_doi),
        forall|g1: int, g2: int|
            0 <= g1 < g2 < reps_upto(ks, k, by_doi).len() ==> #[trigger] reps_upto(ks, k, by_doi)[g1]
                < #[trigger] reps_upto(ks, k, by_doi)[g2],
        forall|r: int|
            0 <= r < k && #[trigger] is_rep(ks, r, by_doi) ==> reps_upto(ks, k, by_doi).contains(r),
    decreases k,
{
    if k > 0 {
        lemma_groups_upto(ks, k - 1, by_doi);
        let p = reps_upto(ks, k - 1, by_doi);
        let q = reps_upto(ks, k, by_doi);
        if is_rep(ks, k - 1, by_doi) {
            assert(q == p.push(k - 1));
            assert forall|r: int| 0 <= r < k && #[trigger] is_rep(ks, r, by_doi) implies q.contains(r) by {
                if r == k - 1 {
                    assert(q[q.len() - 1] == r);
                } else {
                    let x = choose|x: int| 0 <= x < p.len() && p[x] == r;
                    assert(q[x] == r);
                }
            }
        } else {
            assert forall|r: int| 0 <= r < k && #[trigger] is_rep(ks, r, by_doi) implies q.contains(r) by {
                assert(r != k - 1);
            }
        }
    }
}

/// The group of reference `i`: the smallest reference it belongs with.
proof fn lemma_first_partner(
    ks: Seq<(Seq<char>, Option<Seq<char>>)>,
    i: int,
    by_doi: bool,
    k: int,
) -> (r: int)
    requires
        0 <= k <= i < ks.len(),
        same_key(ks, i, i, by_doi),
        forall|j: int| 0 <= j < k ==> !#[trigger] same_key(ks, i, j, by_doi),
    ensures
        0 <= r <= i,
        same_key(ks, i, r, by_doi),
        forall|j: int| 0 <= j < r ==> !#[trigger] same_key(ks, i, j, by_doi),
    decreases i - k,
{
    if same_key(ks, i, k, by_doi) {
        k
    } else {
        lemma_first_partner(ks, i, by_doi, k + 1)
    }
}

/// The groups of one kind (by title, or by DOI) over the whole library.
pub open spec fn kind_groups(ks: Seq<(Seq<char>, Option<Seq<char>>)>, by_doi: bool) -> Seq<Seq<usize>> {
    groups_upto(ks, ks.len() as int, by_doi)
}

/// Facts about the groups of one kind: each has at least two references in
/// increasing order, its references belong together, it holds every reference
/// that belongs with one of its own, no reference lies in two of them, and every
/// reference with a partner lies in one of them.
proof fn lemma_kind_groups(ks: Seq<(Seq<char>, Option<Seq<char>>)>, by_doi: bool)
    requires
        ks.len() <= usize::MAX,
    ensures
        forall|g: int|
            0 <= g < kind_groups(ks, by_doi).len() ==> (#[trigger] kind_groups(ks, by_doi)[g]).len()
                >= 2,
        forall|g: int, x: int, y: int|
            0 <= g < kind_groups(ks, by_doi).len() && 0 <= x < y < kind_groups(ks, by_doi)[g].len()
                ==> #[trigger] kind_groups(ks, by_doi)[g][x] < #[trigger] kind_groups(ks, by_doi)[g][y],
        forall|g: int, x: int|
            0 <= g < kind_groups(ks, by_doi).len() && 0 <= x < kind_groups(ks, by_doi)[g].len() ==> (
            #[trigger] kind_groups(ks, by_doi)[g][x] as int) < ks.len(),
        forall|g: int, x: int, y: int|
            0 <= g < kind_groups(ks, by_doi).len() && 0 <= x < kind_groups(ks, by_doi)[g].len() && 0
                <= y < kind_groups(ks, by_doi)[g].len() ==> same_key(
                ks,
                #[trigger] kind_groups(ks, by_doi)[g][x] as int,
                #[trigger] kind_groups(ks, by_doi)[g][y] as int,
                by_doi,
            ),
        forall|g: int, x: int, j: int|
            0 <= g < kind_groups(ks, by_doi).len() && 0 <= x < kind_groups(ks, by_doi)[g].len() && 0
                <= j < ks.len() && #[trigger] same_key(ks, kind_groups(ks, by_doi)[g][x] as int, j, by_doi)
                ==> kind_groups(ks, by_doi)[g].contains(j as usize),
        forall|g1: int, g2: int, x: int, y: int|
            0 <= g1 < kind_groups(ks, by_doi).len() && 0 <= g2 < kind_groups(ks, by_doi).len() && g1
                != g2 && 0 <= x < kind_groups(ks, by_doi)[g1].len() && 0 <= y < kind_groups(
                ks,
                by_doi,
            )[g2].len() ==> #[trigger] kind_groups(ks, by_doi)[g1][x] != #[trigger] kind_groups(
                ks,
                by_doi,
            )[g2][y],
        forall|i: int|
            0 <= i < ks.len() && #[trigger] has_partner(ks, i, by_doi) ==> exists|g: int|
                0 <= g < kind_groups(ks, by_doi).len() && #[trigger] kind_groups(ks, by_doi)[g].contains(
                    i as usize,
                ),
{
    let n = ks.len() as int;
    let gs = kind_groups(ks, by_doi);
    let reps = reps_upto(ks, n, by_doi);
    lemma_groups_upto(ks, n, by_doi);
    assert forall|g: int| #![trigger gs[g]] 0 <= g < gs.len() implies {
        let m = #[trigger] gs[g];
        &&& m.len() >= 2
        &&& forall|x: int, y: int| 0 <= x < y < m.len() ==> m[x] < m[y]
        &&& forall|x: int| 0 <= x < m.len() ==> (m[x] as int) < n && same_key(
            ks,
            reps[g],
            m[x] as int,
            by_doi,
        )
        &&& forall|j: int| 0 <= j < n && same_key(ks, reps[g], j, by_doi) ==> m.contains(j as usize)
    } by {
        let r = reps[g];
        let m = gs[g];
        lemma_members(ks, r, n, by_doi);
        let j = choose|j: int| 0 <= j < n && j != r && #[trigger] same_key(ks, r, j, by_doi);
        lemma_same_key_sym(ks, r, j, by_doi);
        lemma_same_key_trans(ks, r, j, r, by_doi);
        assert(same_key(ks, r, r, by_doi));
        assert(m.contains(r as usize));
        assert(m.contains(j as usize));
        let xr = choose|x: int| 0 <= x < m.len() && m[x] == r as usize;
        let xj = choose|x: int| 0 <= x < m.len() && m[x] == j as usize;
        assert(xr != xj);
    }
    assert forall|g: int, x: int, y: int|
        0 <= g < gs.len() && 0 <= x < gs[g].len() && 0 <= y < gs[g].len() implies same_key(
        ks,
        #[trigger] gs[g][x] as int,
        #[trigger] gs[g][y] as int,
        by_doi,
    ) by {
        let r = reps[g];
        assert(same_key(ks, r, gs[g][x] as int, by_doi));
        assert(same_key(ks, r, gs[g][y] as int, by_doi));
        lemma_same_key_sym(ks, r, gs[g][x] as int, by_doi);
        lemma_same_key_trans(ks, gs[g][x] as int, r, gs[g][y] as int, by_doi);
    }
    assert forall|g: int, x: int, j: int|
        0 <= g < gs.len() && 0 <= x < gs[g].len() && 0 <= j < n && #[trigger] same_key(
            ks,
            gs[g][x] as int,
            j,
            by_doi,
        ) implies gs[g].contains(j as usize) by {
        let r = reps[g];
        assert(same_key(ks, r, gs[g][x] as int, by_doi));
        lemma_same_key_trans(ks, r, gs[g][x] as int, j, by_doi);
    }
    assert forall|g1: int, g2: int, x: int, y: int|
        0 <= g1 < gs.len() && 0 <= g2 < gs.len() && g1 != g2 && 0 <= x < gs[g1].len() && 0 <= y
            < gs[g2].len() implies #[trigger] gs[g1][x] != #[trigger] gs[g2][y] by {
        let r1 = reps[g1];
        let r2 = reps[g2];
        if gs[g1][x] == gs[g2][y] {
            let e = gs[g1][x] as int;
            assert(same_key(ks, r1, e, by_doi));
            assert(same_key(ks, r2, e, by_doi));
            lemma_same_key_sym(ks, r2, e, by_doi);
            lemma_same_key_trans(ks, r1, e, r2, by_doi);
            lemma_same_key_sym(ks, r1, r2, by_doi);
            if g1 < g2 {
                assert(r1 < r2);
                assert(!same_key(ks, r2, r1, by_doi));
            } else {
                assert(r2 < r1);
                assert(!same_key(ks, r1, r2, by_doi));
            }
        }
    }
    assert forall|i: int| 0 <= i < n && #[trigger] has_partner(ks, i, by_doi) implies exists|g: int|
        0 <= g < gs.len() && #[trigger] gs[g].contains(i as usize) by {
        let j = choose|j: int| 0 <= j < n && j != i && #[trigger] same_key(ks, i, j, by_doi);
        lemma_same_key_sym(ks, i, j, by_doi);
        lemma_same_key_trans(ks, i, j, i, by_doi);
        let r = lemma_first_partner(ks, i, by_doi, 0);
        lemma_same_key_sym(ks, i, r, by_doi);
        assert(has_partner(ks, r, by_doi)) by {
            if r == i {
                assert(same_key(ks, r, j, by_doi));
            } else {
                assert(same_key(ks, r, i, by_doi));
            }
        }
        assert forall|m: int| 0 <= m < r implies !#[trigger] same_key(ks, r, m, by_doi) by {
            if same_key(ks, r, m, by_doi) {
                lemma_same_key_trans(ks, i, r, m, by_doi);
            }
        }
        assert(is_rep(ks, r, by_doi));
        assert(reps.contains(r));
        let g = choose|g: int| 0 <= g < reps.len() && reps[g] == r;
        assert(gs[g].contains(i as usize));
    }
}

/// References `a` and `b` are duplicates of each other, by title or by DOI.
pub open spec fn dup_match(ks: Seq<(Seq<char>, Option<Seq<char>>)>, a: int, b: int) -> bool {
    same_title(ks, a, b) || same_doi(ks, a, b)
}

/// A reference that shares its title with another is never in a DOI group.
proof fn lemma_title_dup_of_title_group(ks: Seq<(Seq<char>, Option<Seq<char>>)>, a: int, b: int)
    requires
        0 <= a < ks.len(),
        0 <= b < ks.len(),
        same_title(ks, a, b),
        a != b,
    ensures
        title_dup(ks, a),
        title_dup(ks, b),
{
    assert(same_title(ks, b, a));
}

/// The duplicate groups of a library are well formed: each holds at least two
/// references, in library order; the references of a group share a title, or
/// share a DOI while sharing their title with no other reference; a group holds
/// every reference that matches one of its own in this way; no reference lies
/// in two groups; and every reference that has such a match lies in a group.
pub proof fn duplicate_groups_partition(ks: Seq<(Seq<char>, Option<Seq<char>>)>)
    requires
        ks.len() <= usize::MAX,
    ensures
        forall|g: int|
            0 <= g < duplicate_groups_of(ks).len() ==> (#[trigger] duplicate_groups_of(ks)[g]).len()
                >= 2,
        forall|g: int, x: int, y: int|
            0 <= g < duplicate_groups_of(ks).len() && 0 <= x < y < duplicate_groups_of(ks)[g].len()
                ==> #[trigger] duplicate_groups_of(ks)[g][x] < #[trigger] duplicate_groups_of(ks)[g][y],
        forall|g: int, x: int|
            0 <= g < duplicate_groups_of(ks).len() && 0 <= x < duplicate_groups_of(ks)[g].len() ==> (
            #[trigger] duplicate_groups_of(ks)[g][x] as int) < ks.len(),
        forall|g: int, x: int, y: int|
            0 <= g < duplicate_groups_of(ks).len() && 0 <= x < duplicate_groups_of(ks)[g].len() && 0
                <= y < duplicate_groups_of(ks)[g].len() ==> dup_match(
                ks,
                #[trigger] duplicate_groups_of(ks)[g][x] as int,
                #[trigger] duplicate_groups_of(ks)[g][y] as int,
            ),
        forall|g: int, x: int, j: int|
            0 <= g < duplicate_groups_of(ks).len() && 0 <= x < duplicate_groups_of(ks)[g].len() && 0
                <= j < ks.len() && #[trigger] dup_match(ks, duplicate_groups_of(ks)[g][x] as int, j)
                ==> duplicate_groups_of(
                ks,
            )[g].contains(j as usize),
        forall|g1: int, g2: int, x: int, y: int|
            0 <= g1 < duplicate_groups_of(ks).len() && 0 <= g2 < duplicate_groups_of(ks).len() && g1
                != g2 && 0 <= x < duplicate_groups_of(ks)[g1].len() && 0 <= y < duplicate_groups_of(
                ks,
            )[g2].len() ==> #[trigger] duplicate_groups_of(ks)[g1][x] != #[trigger] duplicate_groups_of(
                ks,
            )[g2][y],
        forall|i: int|
            0 <= i < ks.len() && (title_dup(ks, i) || has_partner(ks, i, true)) ==> exists|g: int|
                0 <= g < duplicate_groups_of(ks).len() && #[trigger] duplicate_groups_of(ks)[g].contains(
                    i as usize,
                ),
{
    let t = kind_groups(ks, false);
    let d = kind_groups(ks, true);
    let all = duplicate_groups_of(ks);
    lemma_kind_groups(ks, false);
    lemma_kind_groups(ks, true);
    assert(all == t + d);
    assert forall|g: int| 0 <= g < all.len() implies (#[trigger] all[g] == if g < t.len() {
        t[g]
    } else {
        d[g - t.len()]
    }) by {}
    // Members of a title group have title partners; members of a DOI group have none.
    assert forall|g: int, x: int| 0 <= g < t.len() && 0 <= x < t[g].len() implies title_dup(
        ks,
        #[trigger] t[g][x] as int,
    ) by {
        let other = if x == 0 { 1int } else { 0int };
        assert(t[g][other] != t[g][x]);
        assert(same_key(ks, t[g][x] as int, t[g][other] as int, false));
        lemma_title_dup_of_title_group(ks, t[g][x] as int, t[g][other] as int);
    }
    assert forall|g: int, x: int| 0 <= g < d.len() && 0 <= x < d[g].len() implies !title_dup(
        ks,
        #[trigger] d[g][x] as int,
    ) by {
        assert(same_key(ks, d[g][x] as int, d[g][x] as int, true));
    }
    assert forall|g: int, x: int, j: int|
        0 <= g < all.len() && 0 <= x < all[g].len() && 0 <= j < ks.len() && #[trigger] dup_match(
            ks,
            all[g][x] as int,
            j,
        ) implies all[g].contains(j as usize) by {
        if g < t.len() {
            assert(all[g] == t[g]);
            if !same_title(ks, all[g][x] as int, j) {
                assert(title_dup(ks, t[g][x] as int));
            }
            assert(same_key(ks, t[g][x] as int, j, false));
        } else {
            let h = g - t.len();
            assert(all[g] == d[h]);
            assert(!title_dup(ks, d[h][x] as int));
            if same_title(ks, all[g][x] as int, j) {
                if j != d[h][x] as int {
                    lemma_title_dup_of_title_group(ks, d[h][x] as int, j);
                }
                assert(same_key(ks, d[h][x] as int, d[h][x] as int, true));
                assert(d[h].contains(d[h][x]));
                assert(j == d[h][x] as int);
            } else {
                assert(same_key(ks, d[h][x] as int, j, true));
            }
        }
    }
    assert forall|g1: int, g2: int, x: int, y: int|
        0 <= g1 < all.len() && 0 <= g2 < all.len() && g1 != g2 && 0 <= x < all[g1].len() && 0 <= y
            < all[g2].len() implies #[trigger] all[g1][x] != #[trigger] all[g2][y] by {
        if g1 < t.len() && g2 >= t.len() {
            assert(title_dup(ks, t[g1][x] as int));
            assert(!title_dup(ks, d[g2 - t.len()][y] as int));
        } else if g1 >= t.len() && g2 < t.len() {
            assert(title_dup(ks, t[g2][y] as int));
            assert(!title_dup(ks, d[g1 - t.len()][x] as int));
        } else if g1 < t.len() {
            assert(t[g1][x] != t[g2][y]);
        } else {
            assert(d[g1 - t.len()][x] != d[g2 - t.len()][y]);
        }
    }
    assert forall|i: int|
        0 <= i < ks.len() && (title_dup(ks, i) || has_partner(ks, i, true)) implies exists|g: int|
        0 <= g < all.len() && #[trigger] all[g].contains(i as usize) by {
        if title_dup(ks, i) {
            assert(has_partner(ks, i, false)) by {
                let j = choose|j: int| 0 <= j < ks.len() && j != i && #[trigger] same_title(ks, i, j);
                assert(same_key(ks, i, j, false));
            }
            let g = choose|g: int| 0 <= g < t.len() && #[trigger] t[g].contains(i as usize);
            assert(all[g] == t[g]);
        } else {
            let g = choose|g: int| 0 <= g < d.len() && #[trigger] d[g].contains(i as usize);
            assert(all[g + t.len()] == d[g]);
        }
    }
}

/// The duplicate groups are the classes of the two keys: a reference that shares
/// its title lies in a group that holds exactly the references with that title;
/// one that shares no title but shares its DOI lies in a group that holds exactly
/// the references with that DOI and no shared title; and every group is one of
/// these classes, named by its first reference.
pub proof fn duplicate_groups_are_key_classes(ks: Seq<(Seq<char>, Option<Seq<char>>)>)
    requires
        ks.len() <= usize::MAX,
    ensures
        forall|i: int|
            0 <= i < ks.len() && #[trigger] title_dup(ks, i) ==> exists|g: int|
                0 <= g < duplicate_groups_of(ks).len() && duplicate_groups_of(ks)[g].contains(i as usize)
                    && forall|j: int|
                    0 <= j < ks.len() ==> (#[trigger] duplicate_groups_of(ks)[g].contains(j as usize)
                        <==> same_title(ks, i, j)),
        forall|i: int|
            0 <= i < ks.len() && !title_dup(ks, i) && #[trigger] has_partner(ks, i, true) ==> exists|g: int|
                0 <= g < duplicate_groups_of(ks).len() && duplicate_groups_of(ks)[g].contains(i as usize)
                    && forall|j: int|
                    0 <= j < ks.len() ==> (#[trigger] duplicate_groups_of(ks)[g].contains(j as usize)
                        <==> same_doi(ks, i, j)),
        forall|g: int|
            #![trigger duplicate_groups_of(ks)[g]]
            0 <= g < duplicate_groups_of(ks).len() ==> {
                let i = duplicate_groups_of(ks)[g][0] as int;
                &&& 0 <= i < ks.len()
                &&& (title_dup(ks, i) ==> forall|j: int|
                    0 <= j < ks.len() ==> (#[trigger] duplicate_groups_of(ks)[g].contains(j as usize)
                        <==> same_title(ks, i, j)))
                &&& (!title_dup(ks, i) ==> forall|j: int|
                    0 <= j < ks.len() ==> (#[trigger] duplicate_groups_of(ks)[g].contains(j as usize)
                        <==> same_doi(ks, i, j)))
            },
{
    duplicate_groups_partition(ks);
    let gs = duplicate_groups_of(ks);
    // within a group, membership is matching the group's member `i`
    assert forall|g: int, x: int, j: int|
        0 <= g < gs.len() && 0 <= x < gs[g].len() && 0 <= j < ks.len() implies
        (#[trigger] gs[g].contains(j as usize) <==> dup_match(ks, #[trigger] gs[g][x] as int, j)) by {
        if gs[g].contains(j as usize) {
            let y = choose|y: int| 0 <= y < gs[g].len() && gs[g][y] == j as usize;
            assert(dup_match(ks, gs[g][x] as int, gs[g][y] as int));
        }
    }
    // matching a member is matching by title or by DOI, depending on the member
    assert forall|i: int, j: int| 0 <= i < ks.len() && 0 <= j < ks.len() && title_dup(ks, i) implies
        (#[trigger] dup_match(ks, i, j) <==> same_title(ks, i, j)) by {
    }
    assert forall|i: int, j: int| 0 <= i < ks.len() && 0 <= j < ks.len() && !title_dup(ks, i) && same_doi(ks, i, i)
        implies (#[trigger] dup_match(ks, i, j) <==> same_doi(ks, i, j)) by {
        if same_title(ks, i, j) && j != i {
            assert(title_dup(ks, i));
        }
    }
    assert forall|i: int| 0 <= i < ks.len() && #[trigger] title_dup(ks, i) implies exists|g: int|
        0 <= g < gs.len() && gs[g].contains(i as usize) && forall|j: int|
        0 <= j < ks.len() ==> (#[trigger] gs[g].contains(j as usize) <==> same_title(ks, i, j)) by {
        let g = choose|g: int| 0 <= g < gs.len() && #[trigger] gs[g].contains(i as usize);
        let x = choose|x: int| 0 <= x < gs[g].len() && gs[g][x] == i as usize;
        assert forall|j: int| 0 <= j < ks.len() implies (#[trigger] gs[g].contains(j as usize) <==> same_title(ks, i, j)) by {
            assert(gs[g].contains(j as usize) <==> dup_match(ks, gs[g][x] as int, j));
            assert(dup_match(ks, i, j) <==> same_title(ks, i, j));
        }
    }
    assert forall|i: int| 0 <= i < ks.len() && !title_dup(ks, i) && #[trigger] has_partner(ks, i, true) implies exists|g: int|
        0 <= g < gs.len() && gs[g].contains(i as usize) && forall|j: int|
        0 <= j < ks.len() ==> (#[trigger] gs[g].contains(j as usize) <==> same_doi(ks, i, j)) by {
        let g = choose|g: int| 0 <= g < gs.len() && #[trigger] gs[g].contains(i as usize);
        let x = choose|x: int| 0 <= x < gs[g].len() && gs[g][x] == i as usize;
        let m = choose|m: int| 0 <= m < ks.len() && m != i && #[trigger] same_key(ks, i, m, true);
        assert(same_doi(ks, i, i));
        assert(dup_match(ks, i, i));
        assert forall|j: int| 0 <= j < ks.len() implies (#[trigger] gs[g].contains(j as usize) <==> same_doi(ks, i, j)) by {
            assert(gs[g].contains(j as usize) <==> dup_match(ks, gs[g][x] as int, j));
        }
    }
    assert forall|g: int| #![trigger gs[g]] 0 <= g < gs.len() implies {
        let i = gs[g][0] as int;
        &&& 0 <= i < ks.len()
        &&& (title_dup(ks, i) ==> forall|j: int|
            0 <= j < ks.len() ==> (#[trigger] gs[g].contains(j as usize) <==> same_title(ks, i, j)))
        &&& (!title_dup(ks, i) ==> forall|j: int|
            0 <= j < ks.len() ==> (#[trigger] gs[g].contains(j as usize) <==> same_doi(ks, i, j)))
    } by {
        let i = gs[g][0] as int;
        assert(gs[g].len() >= 2);
        assert(dup_match(ks, gs[g][0] as int, gs[g][0] as int));
        let k = gs[g][1] as int;
        assert(gs[g][0] < gs[g][1]);
        assert(dup_match(ks, i, k));
        if !title_dup(ks, i) {
            if same_title(ks, i, k) {
                assert(title_dup(ks, i));
            }
            assert(same_doi(ks, i, i));
        }
        assert forall|j: int| 0 <= j < ks.len() implies (#[trigger] gs[g].contains(j as usize) <==> dup_match(ks, i, j)) by {
            assert(gs[g].contains(j as usize) <==> dup_match(ks, gs[g][0] as int, j));
        }
    }
}

} // verus!
