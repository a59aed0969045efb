//! The rules of the `carina` commands: the external picker's arguments, shell
//! quoting, finding a reference from a query, the search index's rows and
//! queries, and the steps of interactive de-duplication.
use vstd::prelude::*;

use crate::model::{RefView, Reference};
use crate::present::{owned, str_eq};
use crate::tui::{Entry, EntryView, entries_view};
use crate::text::{
    chars_of, clone_opt, clone_strs, contains_chars, contains_seq, decimal, decimal_string, join,
    join_strings, lowercase, opt_view, replace_all, replace_chars, split_words, string_of,
    strs_view, to_lowercase, words, chars_view,
};

verus! {

/// `s` quoted for a POSIX shell: between single quotes, each single quote
/// written `'\''`.
pub open spec fn shell_escape_of(s: Seq<char>) -> Seq<char> {
    seq!['\''] + replace_all(s, seq!['\''], "'\\''"@) + seq!['\'']
}

/// Quotes a string for a POSIX shell.
pub fn shell_escape(s: &str) -> (r: String)
    ensures
        r@ == shell_escape_of(s@),
{
    let v = chars_of(s);
    let mut pat: Vec<char> = Vec::new();
    pat.push('\'');
    let rep = chars_of("'\\''");
    let body = replace_chars(&v, &pat, &rep);
    let mut out: Vec<char> = Vec::new();
    out.push('\'');
    for i in 0..body.len()
        invariant
            out@ == seq!['\''] + body@.take(i as int),
    {
        out.push(body[i]);
        assert(out@ =~= seq!['\''] + body@.take(i + 1));
    }
    out.push('\'');
    assert(body@.take(body@.len() as int) =~= body@);
    assert(pat@ =~= seq!['\'']);
    assert(out@ =~= shell_escape_of(s@));
    string_of(&out)
}

/// A character that a POSIX shell takes as it is outside quotes, in any
/// context: letters, digits and `%+,-./:=@_`.
pub open spec fn shell_plain(c: char) -> bool {
    ('a' <= c <= 'z') || ('A' <= c <= 'Z') || ('0' <= c <= '9') || c == '%' || c == '+' || c == ','
        || c == '-' || c == '.' || c == '/' || c == ':' || c == '=' || c == '@' || c == '_'
}

/// `c` in front of a word that was read, if one was.
pub open spec fn prepend_char(c: char, w: Option<Seq<char>>) -> Option<Seq<char>> {
    match w {
        Some(t) => Some(seq![c] + t),
        None => None,
    }
}

/// How a POSIX shell reads `q` as one word with no expansion: between single
/// quotes every character stands for itself up to the closing quote; outside
/// them a quote opens a quoted part, a backslash makes the next character stand
/// for itself, and a plain character stands for itself. Anything else (a space,
/// `$`, a backtick, `*`, `~`, an unclosed quote, ...) would split or expand the
/// word, and the reading gives nothing.
pub open spec fn shell_read(q: Seq<char>, quoted: bool) -> Option<Seq<char>>
    decreases q.len(),
{
    if q.len() == 0 {
        if quoted {
            None
        } else {
            Some(seq![])
        }
    } else if quoted {
        if q[0] == '\'' {
            shell_read(q.drop_first(), false)
        } else {
            prepend_char(q[0], shell_read(q.drop_first(), true))
        }
    } else if q[0] == '\'' {
        shell_read(q.drop_first(), true)
    } else if q[0] == '\\' && q.len() >= 2 {
        prepend_char(q[1], shell_read(q.skip(2), false))
    } else if shell_plain(q[0]) {
        prepend_char(q[0], shell_read(q.drop_first(), false))
    } else {
        None
    }
}

proof fn lemma_read_escaped_body(s: Seq<char>)
    ensures
        shell_read(replace_all(s, seq!['\''], "'\\''"@) + seq!['\''], true) == Some(s),
    decreases s.len(),
{
    reveal_strlit("'\\''");
    let rep = "'\\''"@;
    assert(rep == seq!['\'', '\\', '\'', '\'']);
    let body = replace_all(s, seq!['\''], rep);
    if s.len() == 0 {
        assert(body + seq!['\''] =~= seq!['\'']);
        assert((seq!['\'']).drop_first() =~= Seq::<char>::empty());
        assert(shell_read(seq!['\''], true) == shell_read(Seq::<char>::empty(), false));
        assert(s =~= Seq::<char>::empty());
    } else {
        let t = s.drop_first();
        lemma_read_escaped_body(t);
        let x = replace_all(t, seq!['\''], rep) + seq!['\''];
        if s[0] == '\'' {
            assert(s.take(1) =~= seq!['\'']);
            assert(s.skip(1) =~= t);
            assert(body == rep + replace_all(t, seq!['\''], rep));
            let q = body + seq!['\''];
            assert(q =~= seq!['\'', '\\', '\'', '\''] + x);
            assert(q.drop_first() =~= seq!['\\', '\'', '\''] + x);
            assert((seq!['\\', '\'', '\''] + x).skip(2) =~= seq!['\''] + x);
            assert((seq!['\''] + x).drop_first() =~= x);
            assert(shell_read(seq!['\''] + x, false) == Some(t));
            let q1 = seq!['\\', '\'', '\''] + x;
            assert(q1[1] == '\'');
            assert(shell_read(q1, false) == prepend_char('\'', shell_read(q1.skip(2), false)));
            assert(shell_read(q.drop_first(), false) == Some(seq!['\''] + t));
            assert(shell_read(q, true) == shell_read(q.drop_first(), false));
            assert(seq![s[0]] + t =~= s);
        } else {
            assert(s.take(1) != seq!['\'']) by {
                assert(s.take(1)[0] == s[0]);
            }
            assert(body == seq![s[0]] + replace_all(t, seq!['\''], rep));
            let q = body + seq!['\''];
            assert(q =~= seq![s[0]] + x);
            assert(q.drop_first() =~= x);
            assert(shell_read(q, true) == prepend_char(s[0], shell_read(x, true)));
            assert(seq![s[0]] + t =~= s);
        }
    }
}

/// A shell reads the quoted form of any text back as exactly that text, as one
/// word, with nothing expanded or split.
pub proof fn shell_escape_reads_back(s: Seq<char>)
    ensures
        shell_read(shell_escape_of(s), false) == Some(s),
{
    lemma_read_escaped_body(s);
    let body = replace_all(s, seq!['\''], "'\\''"@);
    assert(shell_escape_of(s) =~= seq!['\''] + (body + seq!['\'']));
    assert(shell_escape_of(s).drop_first() =~= body + seq!['\'']);
}

/// The command that runs `carina <sub>` on the library, for the picker to call.
pub open spec fn carina_command_of(library: Seq<char>, bin: Seq<char>, sub: Seq<char>) -> Seq<char> {
    "CARINA_LIBRARY="@ + shell_escape_of(library) + " "@ + shell_escape_of(bin) + " "@ + sub
}

/// The command that runs `carina <sub>` on the library.
pub fn carina_command(library: &str, bin: &str, sub: &str) -> (c: String)
    ensures
        c@ == carina_command_of(library@, bin@, sub@),
{
    let mut c = owned("CARINA_LIBRARY=");
    let a = shell_escape(library);
    c.append(a.as_str());
    c.append(" ");
    let b = shell_escape(bin);
    c.append(b.as_str());
    c.append(" ");
    c.append(sub);
    c
}

/// The arguments of the picker that browses the library: tab-separated input of
/// which it shows all but the first field, a preview through `carina show`, enter
/// to open, ctrl-e to edit, ctrl-y to copy the BibTeX entry, and the query when
/// one was given.
pub open spec fn browse_args_of(library: Seq<char>, bin: Seq<char>, query: Option<Seq<char>>) -> Seq<Seq<char>> {
    seq![
        "--delimiter=\t"@,
        "--with-nth=2.."@,
        "--height=100%"@,
        "--preview"@,
        carina_command_of(library, bin, "show {1}"@),
        "--preview-window=right:40%:wrap"@,
        "--preview-wrap-sign="@,
        "--bind=enter:execute("@ + carina_command_of(library, bin, "open {1}"@) + ")+abort"@,
        "--bind=ctrl-e:execute("@ + carina_command_of(library, bin, "edit {1}"@) + ")"@,
        "--bind=ctrl-y:execute-silent("@ + carina_command_of(library, bin, "bib {1} | pbcopy"@) + ")"@,
        "--bind=ctrl-f:page-down,ctrl-b:page-up"@,
        "--header=enter: open │ ctrl-e: edit │ ctrl-y: copy bib"@,
        "--no-mouse"@,
    ] + match query {
        Some(q) => seq!["--query="@ + q],
        None => seq![],
    }
}

/// The arguments of the picker that browses the library.
pub fn browse_args(library: &str, bin: &str, query: Option<&str>) -> (args: Vec<String>)
    ensures
        strs_view(args@) == browse_args_of(library@, bin@, match query {
            Some(q) => Some(q@),
            None => None,
        }),
{
    let mut args: Vec<String> = Vec::new();
    args.push(owned("--delimiter=\t"));
    args.push(owned("--with-nth=2.."));
    args.push(owned("--height=100%"));
    args.push(owned("--preview"));
    args.push(carina_command(library, bin, "show {1}"));
    args.push(owned("--preview-window=right:40%:wrap"));
    args.push(owned("--preview-wrap-sign="));
    let mut open = owned("--bind=enter:execute(");
    let oc = carina_command(library, bin, "open {1}");
    open.append(oc.as_str());
    open.append(")+abort");
    args.push(open);
    let mut edit = owned("--bind=ctrl-e:execute(");
    let ec = carina_command(library, bin, "edit {1}");
    edit.append(ec.as_str());
    edit.append(")");
    args.push(edit);
    let mut bib = owned("--bind=ctrl-y:execute-silent(");
    let bc = carina_command(library, bin, "bib {1} | pbcopy");
    bib.append(bc.as_str());
    bib.append(")");
    args.push(bib);
    args.push(owned("--bind=ctrl-f:page-down,ctrl-b:page-up"));
    args.push(owned("--header=enter: open │ ctrl-e: edit │ ctrl-y: copy bib"));
    args.push(owned("--no-mouse"));
    if let Some(q) = query {
        let mut a = owned("--query=");
        a.append(q);
        args.push(a);
    }
    let ghost q = match query {
        Some(q) => Some(q@),
        None => None,
    };
    assert(strs_view(args@) =~= browse_args_of(library@, bin@, q));
    args
}

/// The arguments of the picker that chooses a reference to cite.
pub open spec fn cite_args_of() -> Seq<Seq<char>> {
    seq!["--delimiter=\t"@, "--with-nth=2.."@, "--height=100%"@, "--no-mouse"@, "--header=Pick a reference"@]
}

/// The arguments of the picker that chooses a reference to cite.
pub fn cite_args() -> (args: Vec<String>)
    ensures
        strs_view(args@) == cite_args_of(),
{
    let mut args: Vec<String> = Vec::new();
    args.push(owned("--delimiter=\t"));
    args.push(owned("--with-nth=2.."));
    args.push(owned("--height=100%"));
    args.push(owned("--no-mouse"));
    args.push(owned("--header=Pick a reference"));
    assert(strs_view(args@) =~= cite_args_of());
    args
}

/// The arguments of the picker that chooses which duplicate to keep, with a
/// preview through `carina show`.
pub open spec fn dedup_args_of(library: Seq<char>, bin: Seq<char>) -> Seq<Seq<char>> {
    seq![
        "--delimiter=\t"@,
        "--with-nth=2.."@,
        "--height=100%"@,
        "--no-mouse"@,
        "--header=Select entry to KEEP (others will be trashed)"@,
        "--preview-window=right:50%:wrap"@,
        "--preview="@ + carina_command_of(library, bin, "show {1}"@),
    ]
}

/// The arguments of the picker that chooses which duplicate to keep.
pub fn dedup_args(library: &str, bin: &str) -> (args: Vec<String>)
    ensures
        strs_view(args@) == dedup_args_of(library@, bin@),
{
    let mut args: Vec<String> = Vec::new();
    args.push(owned("--delimiter=\t"));
    args.push(owned("--with-nth=2.."));
    args.push(owned("--height=100%"));
    args.push(owned("--no-mouse"));
    args.push(owned("--header=Select entry to KEEP (others will be trashed)"));
    args.push(owned("--preview-window=right:50%:wrap"));
    let mut p = owned("--preview=");
    let c = carina_command(library, bin, "show {1}");
    p.append(c.as_str());
    args.push(p);
    assert(strs_view(args@) =~= dedup_args_of(library@, bin@));
    args
}

/// The picker ended well: it succeeded, or it was interrupted (status 130).
pub open spec fn picker_ok_of(success: bool, code: Option<i32>) -> bool {
    success || code == Some(130i32)
}

/// Whether the picker ended well.
pub fn picker_ok(success: bool, code: Option<i32>) -> (b: bool)
    ensures
        b == picker_ok_of(success, code),
{
    success || match code {
        Some(c) => c == 130,
        None => false,
    }
}

/// The query words of a command, joined by spaces.
pub fn query_string(words: &Vec<String>) -> (q: String)
    ensures
        q@ == join(strs_view(words@), " "@),
{
    join_strings(words, " ")
}

/// A word of a full-text query: without its double quotes, between double quotes.
pub open spec fn fts_word(w: Seq<char>) -> Seq<char> {
    seq!['"'] + w.filter(|c: char| c != '"') + seq!['"']
}

/// Each word quoted for the full-text query.
pub open spec fn fts_words(ws: Seq<Seq<char>>) -> Seq<Seq<char>>
    decreases ws.len(),
{
    if ws.len() == 0 {
        seq![]
    } else {
        fts_words(ws.drop_last()).push(fts_word(ws.last()))
    }
}

/// The full-text query for a search: each word of the query, with its double
/// quotes removed, between double quotes, the words separated by spaces.
pub open spec fn fts_query_of(query: Seq<char>) -> Seq<char> {
    join(fts_words(words(query)), " "@)
}

fn quote_word(w: &Vec<char>) -> (r: String)
    ensures
        r@ == fts_word(w@),
{
    let mut v: Vec<char> = Vec::new();
    v.push('"');
    let ghost f = |c: char| c != '"';
    assert(w@.take(0).filter(f) =~= Seq::<char>::empty());
    for i in 0..w.len()
        invariant
            f == (|c: char| c != '"'),
            v@ == seq!['"'] + w@.take(i as int).filter(f),
    {
        let c = w[i];
        proof {
            assert(w@.take(i + 1) =~= w@.take(i as int).push(c));
            w@.take(i as int).lemma_filter_push(c, f);
        }
        if c != '"' {
            v.push(c);
        }
        assert(v@ =~= seq!['"'] + w@.take(i + 1).filter(f));
    }
    v.push('"');
    assert(w@.take(w@.len() as int) =~= w@);
    string_of(&v)
}

/// The full-text query for a search.
pub fn fts_query(query: &str) -> (q: String)
    ensures
        q@ == fts_query_of(query@),
{
    let c = chars_of(query);
    let ws = split_words(&c);
    let ghost wv = words(query@);
    let mut parts: Vec<String> = Vec::new();
    assert(wv.take(0) =~= Seq::<Seq<char>>::empty());
    for i in 0..ws.len()
        invariant
            wv == words(query@),
            chars_view(ws@) == wv,
            strs_view(parts@) == fts_words(wv.take(i as int)),
    {
        let p = quote_word(&ws[i]);
        assert(chars_view(ws@)[i as int] == ws@[i as int]@);
        let ghost before = strs_view(parts@);
        parts.push(p);
        assert(wv.take(i + 1).drop_last() =~= wv.take(i as int));
        assert(strs_view(parts@) =~= before.push(fts_word(wv[i as int])));
    }
    assert(wv.take(ws@.len() as int) =~= wv);
    join_strings(&parts, " ")
}

/// One row of the search index: the reference's fields, its authors joined by
/// semicolons, its tags and files joined by commas.
pub struct IndexRow {
    pub dir_name: String,
    pub title: String,
    pub authors: String,
    pub year: Option<u16>,
    pub doi: Option<String>,
    pub arxiv: Option<String>,
    pub journal: Option<String>,
    pub tags: String,
    pub abstract_text: Option<String>,
    pub files: String,
}

/// The index row of a reference.
pub fn index_row(dir_name: &str, r: &Reference) -> (row: IndexRow)
    ensures
        row.dir_name@ == dir_name@,
        row.title@ == r@.title,
        row.authors@ == join(r@.authors, "; "@),
        row.year == r@.year,
        opt_view(row.doi) == r@.doi,
        opt_view(row.arxiv) == r@.arxiv,
        opt_view(row.journal) == r@.journal,
        row.tags@ == join(r@.tags, ", "@),
        opt_view(row.abstract_text) == r@.abstract_text,
        row.files@ == join(r@.files, ", "@),
{
    IndexRow {
        dir_name: owned(dir_name),
        title: owned(r.title.as_str()),
        authors: join_strings(&r.authors, "; "),
        year: r.year,
        doi: clone_opt(&r.doi),
        arxiv: clone_opt(&r.arxiv),
        journal: clone_opt(&r.journal),
        tags: join_strings(&r.tags, ", "),
        abstract_text: clone_opt(&r.abstract_text),
        files: join_strings(&r.files, ", "),
    }
}

/// A hit of a full-text search.
pub struct SearchHit {
    pub dir_name: String,
    pub title: String,
    pub authors: String,
    pub year: Option<u16>,
    pub snippet: String,
}

/// A reference's metadata once what arXiv returned replaces its title, authors,
/// year, DOI, arXiv id and abstract.
pub open spec fn merged_of(r: RefView, fetched: RefView) -> RefView {
    RefView {
        title: fetched.title,
        authors: fetched.authors,
        year: fetched.year,
        doi: fetched.doi,
        arxiv: fetched.arxiv,
        abstract_text: fetched.abstract_text,
        ..r
    }
}

/// Takes over what arXiv returned for a reference read from a PDF.
pub fn merge_fetched(r: &mut Reference, fetched: Reference)
    ensures
        final(r)@ == merged_of(old(r)@, fetched@),
{
    r.title = fetched.title;
    r.authors = fetched.authors;
    r.year = fetched.year;
    r.doi = fetched.doi;
    r.arxiv = fetched.arxiv;
    r.abstract_text = fetched.abstract_text;
}

/// Merging what arXiv returned takes over its title, authors, year, DOI, arXiv
/// id and abstract, and keeps the reference's own journal, tags and files.
pub proof fn merge_takes_fetched_metadata(r: RefView, fetched: RefView)
    ensures
        merged_of(r, fetched).title == fetched.title,
        merged_of(r, fetched).authors == fetched.authors,
        merged_of(r, fetched).year == fetched.year,
        merged_of(r, fetched).doi == fetched.doi,
        merged_of(r, fetched).arxiv == fetched.arxiv,
        merged_of(r, fetched).abstract_text == fetched.abstract_text,
        merged_of(r, fetched).journal == r.journal,
        merged_of(r, fetched).tags == r.tags,
        merged_of(r, fetched).files == r.files,
{
}

/// What a query searches in a reference: its title, its authors joined by
/// spaces and its directory name, each lowercased, separated by spaces.
pub open spec fn haystack_of(dir: Seq<char>, r: RefView) -> Seq<char> {
    lowercase(r.title) + " "@ + lowercase(join(r.authors, " "@)) + " "@ + lowercase(dir)
}

/// Every word of `q` occurs in the haystack.
pub open spec fn words_in_of(q: Seq<char>, hay: Seq<char>) -> bool {
    forall|i: int| 0 <= i < words(q).len() ==> contains_seq(hay, #[trigger] words(q)[i])
}

/// Every word of the lowercased query occurs in the haystack.
pub open spec fn query_matches(query: Seq<char>, hay: Seq<char>) -> bool {
    words_in_of(lowercase(query), hay)
}

/// Whether every word of the (lowercased) query occurs in the (lowercased) haystack.
pub fn words_in(query_lower: &str, haystack: &str) -> (b: bool)
    ensures
        b == words_in_of(query_lower@, haystack@),
{
    let q = chars_of(query_lower);
    let ws = split_words(&q);
    let h = chars_of(haystack);
    all_words_in(&ws, &h)
}

/// The positions of the entries that the query matches, in order.
pub open spec fn matching_of(query: Seq<char>, es: Seq<EntryView>, n: int) -> Seq<usize>
    decreases n,
{
    if n <= 0 {
        seq![]
    } else if query_matches(query, haystack_of(es[n - 1].dir_name, es[n - 1].reference)) {
        matching_of(query, es, n - 1).push((n - 1) as usize)
    } else {
        matching_of(query, es, n - 1)
    }
}

fn haystack(dir_name: &str, r: &Reference) -> (h: Vec<char>)
    ensures
        h@ == haystack_of(dir_name@, r@),
{
    let t = to_lowercase(r.title.as_str());
    let a = join_strings(&r.authors, " ");
    let al = to_lowercase(a.as_str());
    let d = to_lowercase(dir_name);
    let mut s = t;
    s.append(" ");
    s.append(al.as_str());
    s.append(" ");
    s.append(d.as_str());
    chars_of(s.as_str())
}

fn all_words_in(ws: &Vec<Vec<char>>, hay: &Vec<char>) -> (b: bool)
    ensures
        b == forall|i: int| 0 <= i < ws@.len() ==> contains_seq(hay@, #[trigger] chars_view(ws@)[i]),
{
    for i in 0..ws.len()
        invariant
            forall|k: int| 0 <= k < i ==> contains_seq(hay@, #[trigger] chars_view(ws@)[k]),
    {
        assert(chars_view(ws@)[i as int] == ws@[i as int]@);
        if !contains_chars(hay, &ws[i]) {
            return false;
        }
    }
    true
}

/// The entries that a query matches.
pub fn find_matches(query: &str, entries: &Vec<Entry>) -> (m: Vec<usize>)
    ensures
        m@ == matching_of(query@, entries_view(entries@), entries@.len() as int),
{
    let ghost es = entries_view(entries@);
    let ql = to_lowercase(query);
    let mut m: Vec<usize> = Vec::new();
    for i in 0..entries.len()
        invariant
            es == entries_view(entries@),
            ql@ == lowercase(query@),
            m@ == matching_of(query@, es, i as int),
    {
        let e = &entries[i];
        assert(es[i as int] == e@);
        let hay = haystack(e.dir_name.as_str(), &e.reference);
        let hs = string_of(&hay);
        if words_in(ql.as_str(), hs.as_str()) {
            m.push(i);
        }
    }
    m
}

/// Why a reference could not be found.
pub enum LookupError {
    EmptyLibrary,
    NoQuery,
    NoMatch,
    Ambiguous(Vec<usize>),
}

impl LookupError {
    /// The error's message.
    pub fn message(&self) -> (s: String)
        ensures
            s@ == match self {
                LookupError::EmptyLibrary => "Library is empty"@,
                LookupError::NoQuery => "No search query provided"@,
                LookupError::NoMatch => "No matching reference found"@,
                LookupError::Ambiguous(_) => "Multiple matches — refine your query"@,
            },
    {
        match self {
            LookupError::EmptyLibrary => owned("Library is empty"),
            LookupError::NoQuery => owned("No search query provided"),
            LookupError::NoMatch => owned("No matching reference found"),
            LookupError::Ambiguous(_) => owned("Multiple matches — refine your query"),
        }
    }
}

/// The reference a query designates: the directory the query names, or the one
/// entry it matches.
#[derive(Clone, Copy, PartialEq, Eq, Structural, Debug)]
pub enum Found {
    Exact,
    Entry(usize),
}

/// Finds the reference a query designates. `library_size` counts the reference
/// directories; `exact` says whether a directory named as the query holds
/// metadata; `entries` are the references whose metadata could be read.
pub fn find_reference(query: &str, library_size: usize, exact: bool, entries: &Vec<Entry>) -> (r: Result<Found, LookupError>)
    ensures
        library_size == 0 ==> r matches Err(LookupError::EmptyLibrary),
        library_size > 0 && query@.len() == 0 ==> r matches Err(LookupError::NoQuery),
        library_size > 0 && query@.len() > 0 && exact ==> r == Ok::<Found, LookupError>(Found::Exact),
        library_size > 0 && query@.len() > 0 && !exact ==> {
            let m = matching_of(query@, entries_view(entries@), entries@.len() as int);
            match r {
                Ok(Found::Entry(i)) => m.len() == 1 && i == m[0],
                Err(LookupError::NoMatch) => m.len() == 0,
                Err(LookupError::Ambiguous(v)) => m.len() > 1 && v@ == m,
                _ => false,
            }
        },
{
    if library_size == 0 {
        return Err(LookupError::EmptyLibrary);
    }
    if query.unicode_len() == 0 {
        return Err(LookupError::NoQuery);
    }
    if exact {
        return Ok(Found::Exact);
    }
    let m = find_matches(query, entries);
    if m.len() == 0 {
        Err(LookupError::NoMatch)
    } else if m.len() == 1 {
        Ok(Found::Entry(m[0]))
    } else {
        Err(LookupError::Ambiguous(m))
    }
}

/// The line that lists match `k` (counted from 0).
pub open spec fn match_line_of(k: int, title: Seq<char>) -> Seq<char> {
    "  ["@ + decimal((k + 1) as nat) + "] "@ + title
}

/// The lines that list several matches: a count, then each title numbered from 1.
pub open spec fn ambiguous_lines_of(titles: Seq<Seq<char>>) -> Seq<Seq<char>> {
    seq!["Found "@ + decimal(titles.len()) + " matches:"@] + Seq::new(
        titles.len(),
        |k: int| match_line_of(k, titles[k]),
    )
}

/// The lines that list several matches.
pub fn ambiguous_lines(titles: &Vec<String>) -> (lines: Vec<String>)
    requires
        titles@.len() < u64::MAX,
    ensures
        strs_view(lines@) == ambiguous_lines_of(strs_view(titles@)),
{
    let ghost tv = strs_view(titles@);
    let mut lines: Vec<String> = Vec::new();
    let mut head = owned("Found ");
    let n = decimal_string(titles.len() as u64);
    head.append(n.as_str());
    head.append(" matches:");
    lines.push(head);
    for k in 0..titles.len()
        invariant
            tv == strs_view(titles@),
            titles@.len() < u64::MAX,
            lines@.len() == k + 1,
            lines@[0]@ == "Found "@ + decimal(tv.len()) + " matches:"@,
            forall|j: int| 0 <= j < k ==> #[trigger] lines@[j + 1]@ == match_line_of(j, tv[j]),
    {
        let mut l = owned("  [");
        let d = decimal_string(k as u64 + 1);
        l.append(d.as_str());
        l.append("] ");
        l.append(titles[k].as_str());
        assert(tv[k as int] == titles@[k as int]@);
        lines.push(l);
        assert(lines@[k + 1]@ == match_line_of(k as int, tv[k as int]));
    }
    assert(strs_view(lines@) =~= ambiguous_lines_of(tv)) by {
        assert forall|j: int| 0 <= j < tv.len() implies strs_view(lines@)[j + 1] == match_line_of(j, tv[j]) by {
            assert(lines@[j + 1]@ == match_line_of(j, tv[j]));
        }
    }
    lines
}

/// The line of the de-duplication picker for one directory: its name (the key),
/// a tab, its name again, `[PDF]` when it holds one, and how many of the nine
/// metadata fields it fills.
pub open spec fn dedup_line_of(name: Seq<char>, has_pdf: bool, score: nat) -> Seq<char> {
    name + "	"@ + name + (if has_pdf {
        " [PDF]"@
    } else {
        seq![]
    }) + " ("@ + decimal(score) + "/9 fields)"@
}

/// The line of the de-duplication picker for one directory.
pub fn dedup_line(name: &str, has_pdf: bool, score: u32) -> (s: String)
    ensures
        s@ == dedup_line_of(name@, has_pdf, score as nat),
{
    let mut s = owned(name);
    s.append("\t");
    s.append(name);
    if has_pdf {
        s.append(" [PDF]");
    }
    s.append(" (");
    let d = decimal_string(score as u64);
    s.append(d.as_str());
    s.append("/9 fields)");
    s
}

/// The heading of the `i`-th of `n` duplicate groups (counted from 0).
pub open spec fn dedup_heading_of(i: nat, n: nat, title: Seq<char>) -> Seq<char> {
    "["@ + decimal(i + 1) + "/"@ + decimal(n) + "] \""@ + title + "\""@
}

/// The heading of a duplicate group.
pub fn dedup_heading(i: usize, n: usize, title: &str) -> (s: String)
    requires
        i < n,
    ensures
        s@ == dedup_heading_of(i as nat, n as nat, title@),
{
    let mut s = owned("[");
    let a = decimal_string(i as u64 + 1);
    s.append(a.as_str());
    s.append("/");
    let b = decimal_string(n as u64);
    s.append(b.as_str());
    s.append("] \"");
    s.append(title);
    s.append("\"");
    s
}

/// The members of a duplicate group that go to the trash: all but those named
/// as the one to keep, in order.
pub open spec fn trash_of(names: Seq<Seq<char>>, keep: Seq<char>) -> Seq<usize>
    decreases names.len(),
{
    if names.len() == 0 {
        seq![]
    } else if names.last() != keep {
        trash_of(names.drop_last(), keep).push((names.len() - 1) as usize)
    } else {
        trash_of(names.drop_last(), keep)
    }
}

/// De-duplication trashes exactly the members of a group that do not carry the
/// name chosen to keep, each once, in order.
pub proof fn trash_spares_only_the_kept(names: Seq<Seq<char>>, keep: Seq<char>)
    requires
        names.len() <= usize::MAX,
    ensures
        forall|x: int| 0 <= x < trash_of(names, keep).len() ==> {
            let i = #[trigger] trash_of(names, keep)[x] as int;
            0 <= i < names.len() && names[i] != keep
        },
        forall|i: int| 0 <= i < names.len() && names[i] != keep ==> #[trigger] trash_of(names, keep).contains(i as usize),
        forall|x: int, y: int| 0 <= x < y < trash_of(names, keep).len() ==> #[trigger] trash_of(names, keep)[x] < #[trigger] trash_of(names, keep)[y],
    decreases names.len(),
{
    if names.len() > 0 {
        let p = names.drop_last();
        trash_spares_only_the_kept(p, keep);
        let t = trash_of(names, keep);
        let tp = trash_of(p, keep);
        assert forall|x: int| 0 <= x < t.len() implies {
            let i = #[trigger] t[x] as int;
            0 <= i < names.len() && names[i] != keep
        } by {
            if x < tp.len() {
                assert(t[x] == tp[x]);
                assert(names[tp[x] as int] == p[tp[x] as int]);
            } else {
                assert(t[x] as int == names.len() - 1);
            }
        }
        assert forall|i: int| 0 <= i < names.len() && names[i] != keep implies #[trigger] t.contains(i as usize) by {
            if i < names.len() - 1 {
                assert(p[i] == names[i]);
                assert(tp.contains(i as usize));
                let x = choose|x: int| 0 <= x < tp.len() && tp[x] == i as usize;
                assert(t[x] == i as usize);
            } else {
                assert(t[t.len() - 1] == i as usize);
            }
        }
        assert forall|x: int, y: int| 0 <= x < y < t.len() implies #[trigger] t[x] < #[trigger] t[y] by {
            if y < tp.len() {
                assert(t[x] == tp[x] && t[y] == tp[y]);
            } else if x < tp.len() {
                assert(t[x] == tp[x]);
                assert((tp[x] as int) < p.len());
                assert(t[y] as int == names.len() - 1);
            }
        }
    }
}

/// The members of a duplicate group that go to the trash.
pub fn to_trash(names: &Vec<String>, keep: &str) -> (t: Vec<usize>)
    ensures
        t@ == trash_of(strs_view(names@), keep@),
{
    let ghost nv = strs_view(names@);
    let mut t: Vec<usize> = Vec::new();
    for i in 0..names.len()
        invariant
            nv == strs_view(names@),
            t@ == trash_of(nv.take(i as int), keep@),
    {
        assert(nv.take(i + 1).drop_last() =~= nv.take(i as int));
        assert(nv.take(i + 1).last() == names@[i as int]@);
        if !str_eq(names[i].as_str(), keep) {
            t.push(i);
        }
    }
    assert(nv.take(nv.len() as int) =~= nv);
    t
}

/// The closing lines of de-duplication: how many were removed, and a reminder to
/// rebuild the index when any were.
pub open spec fn dedup_done_of(removed: nat) -> Seq<Seq<char>> {
    seq!["Done. Removed "@ + decimal(removed) + " duplicates (moved to .trash/)"@] + if removed > 0 {
        seq!["Run `carina reindex` to update the search index."@]
    } else {
        seq![]
    }
}

/// The closing lines of de-duplication.
pub fn dedup_done(removed: usize) -> (lines: Vec<String>)
    ensures
        strs_view(lines@) == dedup_done_of(removed as nat),
{
    let mut lines: Vec<String> = Vec::new();
    let mut a = owned("Done. Removed ");
    let d = decimal_string(removed as u64);
    a.append(d.as_str());
    a.append(" duplicates (moved to .trash/)");
    lines.push(a);
    if removed > 0 {
        lines.push(owned("Run `carina reindex` to update the search index."));
    }
    assert(strs_view(lines@) =~= dedup_done_of(removed as nat));
    lines
}

} // verus!
