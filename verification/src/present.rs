//! How references are shown: picker lines, listings, the `show` page, BibTeX
//! entries, citation keys and the completeness score.
use vstd::prelude::*;

use crate::model::{RefView, Reference};
use crate::text::{
    chars_of, decimal, decimal_string, eq_ignore_ascii_case, eq_ignore_ascii_case_chars, join,
    join_nonempty, join_nonempty_strings, join_strings, opt_view, slice_chars, string_of,
    strs_view, trim, trim_chars,
};

verus! {

/// Whether two strings hold the same characters.
pub fn str_eq(a: &str, b: &str) -> (r: bool)
    ensures
        r == (a@ == b@),
{
    let x = chars_of(a);
    let y = chars_of(b);
    if x.len() != y.len() {
        return false;
    }
    for i in 0..x.len()
        invariant
            x@ == a@,
            y@ == b@,
            x@.len() == y@.len(),
            forall|k: int| 0 <= k < i ==> x@[k] == y@[k],
    {
        if x[i] != y[i] {
            return false;
        }
    }
    assert(x@ =~= y@);
    true
}

/// A copy of a string slice as an owned string.
pub fn owned(s: &str) -> (r: String)
    ensures
        r@ == s@,
{
    String::from_str(s)
}

/// The authors part of a picker line: nothing, the only author, or the first
/// author followed by "et al.".
pub open spec fn author_summary(authors: Seq<Seq<char>>) -> Seq<char> {
    if authors.len() == 0 {
        seq![]
    } else if authors.len() == 1 {
        authors[0]
    } else {
        authors[0] + " et al."@
    }
}

/// The year in parentheses, or nothing.
pub open spec fn year_paren(year: Option<u16>) -> Seq<char> {
    match year {
        Some(y) => "("@ + decimal(y as nat) + ")"@,
        None => seq![],
    }
}

/// The one-line summary of a reference shown in pickers: authors, year and
/// title, the non-empty ones separated by two spaces.
pub open spec fn display_of(r: RefView) -> Seq<char> {
    join_nonempty(seq![author_summary(r.authors), year_paren(r.year), r.title], "  "@)
}

/// The one-line summary of a reference shown in pickers.
pub fn display_line(r: &Reference) -> (s: String)
    ensures
        s@ == display_of(r@),
{
    let authors = if r.authors.len() == 0 {
        String::new()
    } else if r.authors.len() == 1 {
        owned(r.authors[0].as_str())
    } else {
        let mut a = owned(r.authors[0].as_str());
        a.append(" et al.");
        a
    };
    let year = match r.year {
        Some(y) => {
            let mut s = owned("(");
            let d = decimal_string(y as u64);
            s.append(d.as_str());
            s.append(")");
            s
        },
        None => String::new(),
    };
    let title = owned(r.title.as_str());
    let mut parts: Vec<String> = Vec::new();
    parts.push(authors);
    parts.push(year);
    parts.push(title);
    assert(strs_view(parts@) =~= seq![author_summary(r@.authors), year_paren(r@.year), r@.title]);
    join_nonempty_strings(&parts, "  ")
}

/// A line handed to the external picker: the directory name, a tab, and what
/// the picker shows.
pub open spec fn picker_line_of(dir_name: Seq<char>, shown: Seq<char>) -> Seq<char> {
    dir_name + "\t"@ + shown
}

/// A line handed to the external picker.
pub fn picker_line(dir_name: &str, shown: &str) -> (s: String)
    ensures
        s@ == picker_line_of(dir_name@, shown@),
{
    let mut s = owned(dir_name);
    s.append("\t");
    s.append(shown);
    s
}

/// The key the external picker printed for the chosen line: what precedes the
/// first tab, without surrounding whitespace.
pub open spec fn selection_key_of(output: Seq<char>) -> Seq<char> {
    let k = first_index_of(output, '\t');
    trim(if k < 0 { output } else { output.take(k) })
}

/// The position of the first `c` in `s`, or -1.
pub open spec fn first_index_of(s: Seq<char>, c: char) -> int
    decreases s.len(),
{
    if s.len() == 0 {
        -1
    } else if s[0] == c {
        0
    } else {
        let k = first_index_of(s.drop_first(), c);
        if k < 0 {
            -1
        } else {
            k + 1
        }
    }
}

/// The position of the first `c` in `s`, if any.
pub fn first_index_of_char(s: &Vec<char>, c: char) -> (r: Option<usize>)
    ensures
        match r {
            Some(i) => first_index_of(s@, c) == i as int && i < s@.len(),
            None => first_index_of(s@, c) == -1,
        },
{
    let n = s.len();
    assert(s@.skip(0) =~= s@);
    for i in 0..n
        invariant
            n == s@.len(),
            first_index_of(s@, c) == if first_index_of(s@.skip(i as int), c) < 0 {
                -1
            } else {
                first_index_of(s@.skip(i as int), c) + i
            },
    {
        assert(s@.skip(i as int).drop_first() =~= s@.skip(i + 1));
        if s[i] == c {
            return Some(i);
        }
    }
    None
}

/// The first tab of `a + b` lies in `b` when `a` has none.
proof fn lemma_first_tab_after(a: Seq<char>, b: Seq<char>)
    requires
        !a.contains('\t'),
    ensures
        first_index_of(a + b, '\t') == if first_index_of(b, '\t') < 0 {
            -1
        } else {
            a.len() + first_index_of(b, '\t')
        },
    decreases a.len(),
{
    if a.len() > 0 {
        assert(a[0] != '\t') by {
            if a[0] == '\t' {
                assert(a.contains(a[0]));
            }
        }
        assert(!a.drop_first().contains('\t')) by {
            if a.drop_first().contains('\t') {
                let x = choose|x: int| 0 <= x < a.drop_first().len() && a.drop_first()[x] == '\t';
                assert(a[x + 1] == '\t');
            }
        }
        lemma_first_tab_after(a.drop_first(), b);
        assert((a + b).drop_first() =~= a.drop_first() + b);
    } else {
        assert(a + b =~= b);
    }
}

/// What the picker prints for a chosen line gives back the line's key: for a
/// directory name without tabs or surrounding whitespace, the key read from
/// the line (whatever follows it, such as a newline) is that name.
pub proof fn picked_line_gives_its_key(name: Seq<char>, shown: Seq<char>, rest: Seq<char>)
    requires
        !name.contains('\t'),
        trim(name) == name,
    ensures
        selection_key_of(picker_line_of(name, shown) + rest) == name,
{
    let line = picker_line_of(name, shown) + rest;
    let tail = "\t"@ + shown + rest;
    reveal_strlit("\t");
    assert(line =~= name + tail);
    assert(first_index_of(tail, '\t') == 0);
    lemma_first_tab_after(name, tail);
    assert(line.take(name.len() as int) =~= name);
}

/// The key that the external picker printed.
pub fn selection_key(output: &str) -> (k: String)
    ensures
        k@ == selection_key_of(output@),
{
    let v = chars_of(output);
    let head = match first_index_of_char(&v, '\t') {
        Some(i) => slice_chars(&v, 0, i),
        None => slice_chars(&v, 0, v.len()),
    };
    assert(v@.subrange(0, v@.len() as int) =~= v@);
    let t = trim_chars(&head);
    string_of(&t)
}

/// How a citation key is written for the given output format.
pub open spec fn citation_of(format: Seq<char>, key: Seq<char>) -> Seq<char> {
    if format == "latex"@ {
        "\\cite{"@ + key + "}"@
    } else if format == "typst"@ {
        "@"@ + key
    } else {
        key
    }
}

/// Writes a citation key in the given output format: `latex`, `typst`, or plain.
pub fn format_citation(format: &str, key: &str) -> (s: String)
    ensures
        s@ == citation_of(format@, key@),
{
    if str_eq(format, "latex") {
        let mut s = owned("\\cite{");
        s.append(key);
        s.append("}");
        s
    } else if str_eq(format, "typst") {
        let mut s = owned("@");
        s.append(key);
        s
    } else {
        owned(key)
    }
}

/// The listing line of `carina list`: title, then the authors after a dash,
/// then the year in parentheses.
pub open spec fn list_line_of(r: RefView) -> Seq<char> {
    r.title + (if r.authors.len() == 0 {
        seq![]
    } else {
        " — "@ + join(r.authors, ", "@)
    }) + (match r.year {
        Some(y) => " ("@ + decimal(y as nat) + ")"@,
        None => seq![],
    })
}

/// The listing line of `carina list`.
pub fn list_line(r: &Reference) -> (s: String)
    ensures
        s@ == list_line_of(r@),
{
    let mut s = owned(r.title.as_str());
    if r.authors.len() != 0 {
        s.append(" — ");
        let a = join_strings(&r.authors, ", ");
        s.append(a.as_str());
    }
    if let Some(y) = r.year {
        s.append(" (");
        let d = decimal_string(y as u64);
        s.append(d.as_str());
        s.append(")");
    }
    s
}

/// The reference carries `tag` among its tags, ASCII case aside.
pub open spec fn has_tag_of(r: RefView, tag: Seq<char>) -> bool {
    exists|i: int| 0 <= i < r.tags.len() && eq_ignore_ascii_case(#[trigger] r.tags[i], tag)
}

/// Whether the reference carries `tag`, ASCII case aside (the filter of `carina list --tag`).
pub fn has_tag(r: &Reference, tag: &str) -> (b: bool)
    ensures
        b == has_tag_of(r@, tag@),
{
    let t = chars_of(tag);
    for i in 0..r.tags.len()
        invariant
            t@ == tag@,
            forall|k: int| 0 <= k < i ==> !eq_ignore_ascii_case(#[trigger] r@.tags[k], tag@),
    {
        let c = chars_of(r.tags[i].as_str());
        if eq_ignore_ascii_case_chars(&c, &t) {
            assert(eq_ignore_ascii_case(r@.tags[i as int], tag@));
            return true;
        }
    }
    false
}

/// The year and journal line of the `show` page, when either is known.
pub open spec fn year_journal_parts(r: RefView) -> Seq<Seq<char>> {
    (match r.year {
        Some(y) => seq![decimal(y as nat)],
        None => seq![],
    }) + (match r.journal {
        Some(j) => seq![j],
        None => seq![],
    })
}

/// The author lines of the `show` page: at most five authors, a count of the
/// others, and a blank line.
pub open spec fn author_block(authors: Seq<Seq<char>>) -> Seq<Seq<char>> {
    if authors.len() == 0 {
        seq![]
    } else {
        let shown = if authors.len() > 5 {
            authors.take(5)
        } else {
            authors
        };
        shown.map_values(|a: Seq<char>| "  "@ + a) + (if authors.len() > 5 {
            seq!["  +"@ + decimal((authors.len() - 5) as nat) + " more"@]
        } else {
            seq![]
        }) + seq![seq![]]
    }
}

/// A labelled line for an optional field.
pub open spec fn labelled(label: Seq<char>, value: Option<Seq<char>>) -> Seq<Seq<char>> {
    match value {
        Some(v) => seq![label + v],
        None => seq![],
    }
}

/// The year and journal line of the `show` page, when either is known.
pub open spec fn year_journal_block(r: RefView) -> Seq<Seq<char>> {
    if r.year is Some || r.journal is Some {
        seq![join(year_journal_parts(r), " · "@)]
    } else {
        seq![]
    }
}

/// The tags line of the `show` page, when there are tags.
pub open spec fn tags_block(tags: Seq<Seq<char>>) -> Seq<Seq<char>> {
    if tags.len() > 0 {
        seq!["Tags:  "@ + join(tags, ", "@)]
    } else {
        seq![]
    }
}

/// The abstract of the `show` page, after a blank line.
pub open spec fn abstract_block(a: Option<Seq<char>>) -> Seq<Seq<char>> {
    match a {
        Some(a) => seq![seq![], a],
        None => seq![],
    }
}

/// The lines that `carina show` prints for a reference.
pub open spec fn show_lines_of(r: RefView) -> Seq<Seq<char>> {
    seq![r.title] + year_journal_block(r) + seq![seq![]] + author_block(r.authors) + labelled(
        "DOI:   "@,
        r.doi,
    ) + labelled("arXiv: "@, r.arxiv) + tags_block(r.tags) + abstract_block(r.abstract_text)
}

fn push_line(lines: &mut Vec<String>, line: String)
    ensures
        strs_view(final(lines)@) == strs_view(old(lines)@).push(line@),
{
    lines.push(line);
    assert(strs_view(lines@) =~= strs_view(old(lines)@).push(line@));
}

fn push_labelled(lines: &mut Vec<String>, label: &str, value: &Option<String>)
    ensures
        strs_view(final(lines)@) == strs_view(old(lines)@) + labelled(label@, opt_view(*value)),
{
    match value {
        Some(v) => {
            let mut s = owned(label);
            s.append(v.as_str());
            push_line(lines, s);
            assert(strs_view(lines@) =~= strs_view(old(lines)@) + labelled(label@, opt_view(*value)));
        },
        None => {
            assert(strs_view(lines@) =~= strs_view(old(lines)@) + labelled(label@, opt_view(*value)));
        },
    }
}

fn push_author_block(lines: &mut Vec<String>, authors: &Vec<String>)
    ensures
        strs_view(final(lines)@) == strs_view(old(lines)@) + author_block(strs_view(authors@)),
{
    let ghost av = strs_view(authors@);
    let ghost l0 = strs_view(lines@);
    if authors.len() == 0 {
        assert(strs_view(lines@) =~= l0 + author_block(av));
        return;
    }
    let n = if authors.len() > 5 {
        5
    } else {
        authors.len()
    };
    let ghost shown = if av.len() > 5 {
        av.take(5)
    } else {
        av
    };
    for i in 0..n
        invariant
            n <= authors@.len(),
            av == strs_view(authors@),
            n == shown.len(),
            shown == av.take(n as int),
            strs_view(lines@) == l0 + shown.take(i as int).map_values(|a: Seq<char>| "  "@ + a),
    {
        let mut s = owned("  ");
        s.append(authors[i].as_str());
        push_line(lines, s);
        assert(shown.take(i + 1).map_values(|a: Seq<char>| "  "@ + a) =~= shown.take(
            i as int,
        ).map_values(|a: Seq<char>| "  "@ + a).push("  "@ + av[i as int]));
    }
    assert(shown.take(n as int) =~= shown);
    let ghost l1 = strs_view(lines@);
    if authors.len() > 5 {
        let mut s = owned("  +");
        let d = decimal_string((authors.len() - 5) as u64);
        s.append(d.as_str());
        s.append(" more");
        push_line(lines, s);
    }
    let ghost l2 = strs_view(lines@);
    assert(l2 == l1 + (if av.len() > 5 {
        seq!["  +"@ + decimal((av.len() - 5) as nat) + " more"@]
    } else {
        seq![]
    })) by {
        if av.len() <= 5 {
            assert(l2 =~= l1 + Seq::<Seq<char>>::empty());
        }
    }
    push_line(lines, String::new());
    assert(strs_view(lines@) =~= l0 + author_block(av));
}

fn push_year_journal(lines: &mut Vec<String>, r: &Reference)
    ensures
        strs_view(final(lines)@) == strs_view(old(lines)@) + year_journal_block(r@),
{
    if r.year.is_some() || r.journal.is_some() {
        let mut parts: Vec<String> = Vec::new();
        if let Some(y) = r.year {
            parts.push(decimal_string(y as u64));
        }
        if let Some(j) = &r.journal {
            parts.push(owned(j.as_str()));
        }
        assert(strs_view(parts@) =~= year_journal_parts(r@));
        let line = join_strings(&parts, " · ");
        push_line(lines, line);
    }
    assert(strs_view(lines@) =~= strs_view(old(lines)@) + year_journal_block(r@));
}

fn push_tags(lines: &mut Vec<String>, tags: &Vec<String>)
    ensures
        strs_view(final(lines)@) == strs_view(old(lines)@) + tags_block(strs_view(tags@)),
{
    if tags.len() > 0 {
        let mut s = owned("Tags:  ");
        let t = join_strings(tags, ", ");
        s.append(t.as_str());
        push_line(lines, s);
    }
    assert(strs_view(lines@) =~= strs_view(old(lines)@) + tags_block(strs_view(tags@)));
}

fn push_abstract(lines: &mut Vec<String>, a: &Option<String>)
    ensures
        strs_view(final(lines)@) == strs_view(old(lines)@) + abstract_block(opt_view(*a)),
{
    if let Some(a) = a {
        push_line(lines, String::new());
        push_line(lines, owned(a.as_str()));
    }
    assert(strs_view(lines@) =~= strs_view(old(lines)@) + abstract_block(opt_view(*a)));
}

/// The lines that `carina show` prints for a reference.
pub fn show_lines(r: &Reference) -> (lines: Vec<String>)
    ensures
        strs_view(lines@) == show_lines_of(r@),
{
    let mut lines: Vec<String> = Vec::new();
    push_line(&mut lines, owned(r.title.as_str()));
    push_year_journal(&mut lines, r);
    push_line(&mut lines, String::new());
    push_author_block(&mut lines, &r.authors);
    push_labelled(&mut lines, "DOI:   ", &r.doi);
    push_labelled(&mut lines, "arXiv: ", &r.arxiv);
    push_tags(&mut lines, &r.tags);
    push_abstract(&mut lines, &r.abstract_text);
    assert(strs_view(lines@) =~= show_lines_of(r@));
    lines
}

/// A BibTeX field line for an optional value.
pub open spec fn opt_field(head: Seq<char>, value: Option<Seq<char>>) -> Seq<Seq<char>> {
    match value {
        Some(v) => seq![head + v + "},"@],
        None => seq![],
    }
}

/// The `author` line of a BibTeX entry, present when the joined authors are not empty.
pub open spec fn author_field(authors: Seq<Seq<char>>) -> Seq<Seq<char>> {
    let joined = join(authors, " and "@);
    if joined.len() > 0 {
        seq!["  author = {"@ + joined + "},"@]
    } else {
        seq![]
    }
}

/// The `eprint` and `archiveprefix` lines of a BibTeX entry for an arXiv identifier.
pub open spec fn eprint_fields(arxiv: Option<Seq<char>>) -> Seq<Seq<char>> {
    match arxiv {
        Some(a) => seq!["  eprint = {"@ + a + "},"@, "  archiveprefix = {arXiv},"@],
        None => seq![],
    }
}

/// The year as an optional decimal value.
pub open spec fn year_value(year: Option<u16>) -> Option<Seq<char>> {
    match year {
        Some(y) => Some(decimal(y as nat)),
        None => None,
    }
}

/// The lines of the BibTeX entry of a reference whose key is `key`.
pub open spec fn bib_lines_of(key: Seq<char>, r: RefView) -> Seq<Seq<char>> {
    seq!["@article{"@ + key + ","@, "  title = {"@ + r.title + "},"@] + author_field(r.authors)
        + opt_field("  year = {"@, year_value(r.year)) + opt_field("  journal = {"@, r.journal)
        + opt_field("  doi = {"@, r.doi) + eprint_fields(r.arxiv) + seq!["}"@]
}

/// The BibTeX entry of a reference whose key is `key`, its lines joined by newlines.
pub open spec fn bibtex_of(key: Seq<char>, r: RefView) -> Seq<char> {
    join(bib_lines_of(key, r), "\n"@)
}

fn push_field(lines: &mut Vec<String>, head: &str, value: &str)
    ensures
        strs_view(final(lines)@) == strs_view(old(lines)@).push(head@ + value@ + "},"@),
{
    let mut s = owned(head);
    s.append(value);
    s.append("},");
    push_line(lines, s);
}

fn push_opt_field(lines: &mut Vec<String>, head: &str, value: &Option<String>)
    ensures
        strs_view(final(lines)@) == strs_view(old(lines)@) + opt_field(head@, opt_view(*value)),
{
    match value {
        Some(v) => {
            push_field(lines, head, v.as_str());
        },
        None => {},
    }
    assert(strs_view(lines@) =~= strs_view(old(lines)@) + opt_field(head@, opt_view(*value)));
}

fn push_author_field(lines: &mut Vec<String>, authors: &Vec<String>)
    ensures
        strs_view(final(lines)@) == strs_view(old(lines)@) + author_field(strs_view(authors@)),
{
    let joined = join_strings(authors, " and ");
    if joined.unicode_len() > 0 {
        push_field(lines, "  author = {", joined.as_str());
    }
    assert(strs_view(lines@) =~= strs_view(old(lines)@) + author_field(strs_view(authors@)));
}

fn push_eprint_fields(lines: &mut Vec<String>, arxiv: &Option<String>)
    ensures
        strs_view(final(lines)@) == strs_view(old(lines)@) + eprint_fields(opt_view(*arxiv)),
{
    if let Some(a) = arxiv {
        push_field(lines, "  eprint = {", a.as_str());
        push_line(lines, owned("  archiveprefix = {arXiv},"));
    }
    assert(strs_view(lines@) =~= strs_view(old(lines)@) + eprint_fields(opt_view(*arxiv)));
}

/// The BibTeX entry of a reference whose key is `key`.
pub fn bibtex_entry(key: &str, r: &Reference) -> (s: String)
    ensures
        s@ == bibtex_of(key@, r@),
{
    let mut lines: Vec<String> = Vec::new();
    let mut first = owned("@article{");
    first.append(key);
    first.append(",");
    push_line(&mut lines, first);
    push_field(&mut lines, "  title = {", r.title.as_str());
    push_author_field(&mut lines, &r.authors);
    let year = match r.year {
        Some(y) => Some(decimal_string(y as u64)),
        None => None,
    };
    assert(opt_view(year) == year_value(r@.year));
    push_opt_field(&mut lines, "  year = {", &year);
    push_opt_field(&mut lines, "  journal = {", &r.journal);
    push_opt_field(&mut lines, "  doi = {", &r.doi);
    push_eprint_fields(&mut lines, &r.arxiv);
    push_line(&mut lines, owned("}"));
    assert(strs_view(lines@) =~= bib_lines_of(key@, r@));
    join_strings(&lines, "\n")
}

/// A reference with an arXiv identifier `a` gets, whatever its journal and DOI,
/// a BibTeX entry whose last lines are `  eprint = {a},`, then
/// `  archiveprefix = {arXiv},`, then the closing `}`.
pub proof fn bibtex_ends_with_eprint(key: Seq<char>, r: RefView, a: Seq<char>)
    requires
        r.arxiv == Some(a),
    ensures
        exists|p: Seq<char>|
            bibtex_of(key, r) == p + "\n"@ + ("  eprint = {"@ + a + "},"@) + "\n"@ + "  archiveprefix = {arXiv},"@
                + "\n"@ + "}"@,
{
    let l0 = bib_lines_of(key, r);
    let e = "  eprint = {"@ + a + "},"@;
    let x = "  archiveprefix = {arXiv},"@;
    let l3 = seq!["@article{"@ + key + ","@, "  title = {"@ + r.title + "},"@] + author_field(r.authors)
        + opt_field("  year = {"@, year_value(r.year)) + opt_field("  journal = {"@, r.journal)
        + opt_field("  doi = {"@, r.doi);
    let l2 = l3.push(e);
    let l1 = l2.push(x);
    assert(l0 =~= l1.push("}"@));
    assert(l0.drop_last() =~= l1);
    assert(l1.drop_last() =~= l2);
    assert(l2.drop_last() =~= l3);
    let sep = "\n"@;
    assert(join(l0, sep) == join(l1, sep) + sep + "}"@);
    assert(join(l1, sep) == join(l2, sep) + sep + x);
    assert(join(l2, sep) == join(l3, sep) + sep + e);
    let p = join(l3, sep);
    assert(bibtex_of(key, r) == p + sep + e + sep + x + sep + "}"@);
}

/// How many of the nine metadata fields a reference fills in.
pub open spec fn score_of(r: RefView) -> nat {
    (if r.title.len() > 0 { 1nat } else { 0nat }) + (if r.authors.len() > 0 {
        1nat
    } else {
        0nat
    }) + (match r.year {
        Some(y) => if y != 0 { 1nat } else { 0nat },
        None => 0nat,
    }) + (if r.doi is Some { 1nat } else { 0nat }) + (if r.arxiv is Some {
        1nat
    } else {
        0nat
    }) + (if r.journal is Some { 1nat } else { 0nat }) + (if r.tags.len() > 0 {
        1nat
    } else {
        0nat
    }) + (if r.files.len() > 0 { 1nat } else { 0nat }) + (if r.abstract_text is Some {
        1nat
    } else {
        0nat
    })
}

/// How many of the nine metadata fields a reference fills in; `carina dedup`
/// shows it to help pick the entry to keep.
pub fn metadata_score(r: &Reference) -> (n: u32)
    ensures
        n == score_of(r@),
        n <= 9,
{
    let mut n: u32 = 0;
    if r.title.unicode_len() != 0 {
        n = n + 1;
    }
    if r.authors.len() != 0 {
        n = n + 1;
    }
    if let Some(y) = r.year {
        if y != 0 {
            n = n + 1;
        }
    }
    if r.doi.is_some() {
        n = n + 1;
    }
    if r.arxiv.is_some() {
        n = n + 1;
    }
    if r.journal.is_some() {
        n = n + 1;
    }
    if r.tags.len() != 0 {
        n = n + 1;
    }
    if r.files.len() != 0 {
        n = n + 1;
    }
    if r.abstract_text.is_some() {
        n = n + 1;
    }
    n
}

} // verus!
