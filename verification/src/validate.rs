//! Checking the library: what is wrong in each reference directory, what the
//! `--fix` mode repairs, and the one-line summary of a run.
use vstd::prelude::*;

use crate::model::{RefView, Reference};
use crate::present::{owned, str_eq};
use crate::text::{
    chars_of, chars_view, decimal, decimal_string, ends_with, ends_with_chars, eq_ignore_ascii_case,
    eq_ignore_ascii_case_chars, last_index_of, last_index_of_char, replace_all, replace_chars,
    slice_chars, starts_with, starts_with_chars, string_of, strs_view,
};

verus! {

/// The file begins with the bytes `%PDF`.
pub open spec fn pdf_header(head: Seq<u8>) -> bool {
    head.len() >= 4 && head[0] == 0x25u8 && head[1] == 0x50u8 && head[2] == 0x44u8 && head[3] == 0x46u8
}

/// Whether the first bytes of a file mark it as a PDF; fewer than four bytes do not.
pub fn is_pdf_header(head: &Vec<u8>) -> (b: bool)
    ensures
        b == pdf_header(head@),
{
    head.len() >= 4 && head[0] == 0x25u8 && head[1] == 0x50u8 && head[2] == 0x44u8 && head[3] == 0x46u8
}

/// The file name has the extension `pdf`, in any case: a dot that is not the
/// name's first character, followed by `pdf` up to the end.
pub open spec fn has_pdf_extension(name: Seq<char>) -> bool {
    last_index_of(name, '.') > 0 && eq_ignore_ascii_case(name.skip(last_index_of(name, '.') + 1), "pdf"@)
}

/// Whether the file name has the extension `pdf`.
pub fn pdf_extension(name: &str) -> (b: bool)
    ensures
        b == has_pdf_extension(name@),
{
    let v = chars_of(name);
    let n = v.len();
    match last_index_of_char(&v, '.') {
        Some(i) => if i == 0 {
            false
        } else {
            let ext = slice_chars(&v, i + 1, n);
            let pdf = chars_of("pdf");
            assert(ext@ =~= name@.skip(i + 1));
            eq_ignore_ascii_case_chars(&ext, &pdf)
        },
        None => false,
    }
}

/// The file to open for a reference: the first file its metadata lists, else the
/// first PDF among the names in its directory.
pub open spec fn open_target_of(files: Seq<Seq<char>>, names: Seq<Seq<char>>) -> Option<Seq<char>>
    decreases names.len(),
{
    if files.len() > 0 {
        Some(files[0])
    } else if names.len() == 0 {
        None
    } else if has_pdf_extension(names[0]) {
        Some(names[0])
    } else {
        open_target_of(files, names.drop_first())
    }
}

/// The file to open for a reference, given the names in its directory.
pub fn open_target(files: &Vec<String>, names: &Vec<String>) -> (r: Option<String>)
    ensures
        match r {
            Some(f) => open_target_of(strs_view(files@), strs_view(names@)) == Some(f@),
            None => open_target_of(strs_view(files@), strs_view(names@)) is None,
        },
{
    if files.len() > 0 {
        return Some(owned(files[0].as_str()));
    }
    let ghost nv = strs_view(names@);
    assert(nv.skip(0) =~= nv);
    for i in 0..names.len()
        invariant
            files@.len() == 0,
            nv == strs_view(names@),
            open_target_of(strs_view(files@), nv) == open_target_of(strs_view(files@), nv.skip(i as int)),
    {
        assert(nv.skip(i as int)[0] == names@[i as int]@);
        if pdf_extension(names[i].as_str()) {
            return Some(owned(names[i].as_str()));
        }
        assert(nv.skip(i as int).drop_first() =~= nv.skip(i + 1));
    }
    assert(nv.skip(nv.len() as int) =~= Seq::<Seq<char>>::empty());
    None
}

/// What a file that the metadata lists is on disk.
#[derive(Clone, Copy, PartialEq, Eq, Structural, Debug)]
pub enum FileState {
    Missing,
    NotPdf,
    Pdf,
}

/// A name in a reference directory, the key of the entry it names (see
/// [`removed_before`]), and whether the file begins like a PDF.
pub struct DirEntry {
    pub name: String,
    pub key: String,
    pub is_pdf: bool,
}

/// The metadata field that a reference lacks.
#[derive(Clone, Copy, PartialEq, Eq, Structural, Debug)]
pub enum MetaField {
    Title,
    Authors,
    Year,
}

/// What is wrong with a listed file.
#[derive(Clone, Copy, PartialEq, Eq, Structural, Debug)]
pub enum ListedProblem {
    Missing,
    NotPdf,
}

/// One problem found in a reference directory.
pub enum Issue {
    MissingPdf { dir: String },
    FileListed { dir: String, file: String, problem: ListedProblem },
    TempName { dir: String, file: String },
    NoMetadata { dir: String, field: MetaField },
}

/// The content of an [`Issue`].
pub enum IssueView {
    MissingPdf { dir: Seq<char> },
    FileListed { dir: Seq<char>, file: Seq<char>, problem: ListedProblem },
    TempName { dir: Seq<char>, file: Seq<char> },
    NoMetadata { dir: Seq<char>, field: MetaField },
}

impl View for Issue {
    type V = IssueView;

    open spec fn view(&self) -> IssueView {
        match self {
            Issue::MissingPdf { dir } => IssueView::MissingPdf { dir: dir@ },
            Issue::FileListed { dir, file, problem } => IssueView::FileListed {
                dir: dir@,
                file: file@,
                problem: *problem,
            },
            Issue::TempName { dir, file } => IssueView::TempName { dir: dir@, file: file@ },
            Issue::NoMetadata { dir, field } => IssueView::NoMetadata { dir: dir@, field: *field },
        }
    }
}

/// The views of a list of issues.
pub open spec fn issues_view(v: Seq<Issue>) -> Seq<IssueView> {
    v.map_values(|i: Issue| i@)
}

/// The name of a metadata field.
pub open spec fn field_name(f: MetaField) -> Seq<char> {
    match f {
        MetaField::Title => "title"@,
        MetaField::Authors => "authors"@,
        MetaField::Year => "year"@,
    }
}

/// The words for a listed file's problem.
pub open spec fn problem_text(p: ListedProblem) -> Seq<char> {
    match p {
        ListedProblem::Missing => "listed but missing"@,
        ListedProblem::NotPdf => "not a PDF"@,
    }
}

/// How an issue is reported, one line each.
pub open spec fn issue_message(i: IssueView) -> Seq<char> {
    match i {
        IssueView::MissingPdf { dir } => "  no PDF: "@ + dir,
        IssueView::FileListed { dir, file, problem } => "  "@ + problem_text(problem) + ": "@ + dir + "/"@
            + file,
        IssueView::TempName { dir, file } => "  temp name: "@ + dir + "/"@ + file,
        IssueView::NoMetadata { dir, field } => "  missing "@ + field_name(field) + ": "@ + dir,
    }
}

impl Issue {
    /// The line that reports this issue.
    pub fn message(&self) -> (s: String)
        ensures
            s@ == issue_message(self@),
    {
        match self {
            Issue::MissingPdf { dir } => {
                let mut s = owned("  no PDF: ");
                s.append(dir.as_str());
                s
            },
            Issue::FileListed { dir, file, problem } => {
                let mut s = owned("  ");
                match problem {
                    ListedProblem::Missing => s.append("listed but missing"),
                    ListedProblem::NotPdf => s.append("not a PDF"),
                }
                s.append(": ");
                s.append(dir.as_str());
                s.append("/");
                s.append(file.as_str());
                s
            },
            Issue::TempName { dir, file } => {
                let mut s = owned("  temp name: ");
                s.append(dir.as_str());
                s.append("/");
                s.append(file.as_str());
                s
            },
            Issue::NoMetadata { dir, field } => {
                let mut s = owned("  missing ");
                match field {
                    MetaField::Title => s.append("title"),
                    MetaField::Authors => s.append("authors"),
                    MetaField::Year => s.append("year"),
                }
                s.append(": ");
                s.append(dir.as_str());
                s
            },
        }
    }
}

/// A repair of the `--fix` mode: delete a listed file that is no PDF and write
/// the metadata without it, or rename a temporary PDF after its directory and
/// write the metadata with the new name.
pub enum FixOp {
    RemoveListed { file: String, content: String },
    RenameTemp { from: String, to: String, content: String },
}

/// The content of a [`FixOp`].
pub enum FixOpView {
    RemoveListed { file: Seq<char>, content: Seq<char> },
    RenameTemp { from: Seq<char>, to: Seq<char>, content: Seq<char> },
}

impl View for FixOp {
    type V = FixOpView;

    open spec fn view(&self) -> FixOpView {
        match self {
            FixOp::RemoveListed { file, content } => FixOpView::RemoveListed { file: file@, content: content@ },
            FixOp::RenameTemp { from, to, content } => FixOpView::RenameTemp {
                from: from@,
                to: to@,
                content: content@,
            },
        }
    }
}

/// The views of a list of repairs.
pub open spec fn ops_view(v: Seq<FixOp>) -> Seq<FixOpView> {
    v.map_values(|o: FixOp| o@)
}

/// `s` between double quotes.
pub open spec fn quoted(s: Seq<char>) -> Seq<char> {
    seq!['"'] + s + seq!['"']
}

/// The metadata text once a listed file is taken out: its quoted name removed,
/// and a list left with a blank line written as empty.
pub open spec fn without_listed(content: Seq<char>, file: Seq<char>) -> Seq<char> {
    replace_all(replace_all(content, quoted(file), seq![]), "files = [\n    \n]"@, "files = []"@)
}

/// The metadata text once a temporary file is renamed: its quoted name replaced
/// by the quoted new name.
pub open spec fn with_renamed(content: Seq<char>, from: Seq<char>, to: Seq<char>) -> Seq<char> {
    replace_all(content, quoted(from), quoted(to))
}

/// The metadata fields the reference lacks, as issues: title, authors, year.
pub open spec fn metadata_issues_of(dir: Seq<char>, r: RefView) -> Seq<IssueView> {
    (if r.title.len() == 0 {
        seq![IssueView::NoMetadata { dir, field: MetaField::Title }]
    } else {
        seq![]
    }) + (if r.authors.len() == 0 {
        seq![IssueView::NoMetadata { dir, field: MetaField::Authors }]
    } else {
        seq![]
    }) + (if r.year is None {
        seq![IssueView::NoMetadata { dir, field: MetaField::Year }]
    } else {
        seq![]
    })
}

/// In `--fix` mode the directory entry with key `key` is deleted on the way,
/// because one of the first `j` listed files is that entry and is no PDF. A key
/// names a directory entry as the file system resolves it: two paths with equal
/// keys are one entry, whatever their spelling.
pub open spec fn removed_before(keys: Seq<Seq<char>>, states: Seq<FileState>, fix: bool, j: int, key: Seq<char>) -> bool {
    fix && exists|k: int| 0 <= k < j && keys[k] == key && #[trigger] states[k] == FileState::NotPdf
}

/// What the listed file `j` is when the check reaches it: missing once an
/// earlier repair deleted it, else as found.
pub open spec fn state_at(keys: Seq<Seq<char>>, states: Seq<FileState>, fix: bool, j: int) -> FileState {
    if removed_before(keys, states, fix, j, keys[j]) {
        FileState::Missing
    } else {
        states[j]
    }
}

/// The issues about the first `n` listed files.
pub open spec fn listed_issues_of(
    dir: Seq<char>,
    files: Seq<Seq<char>>,
    keys: Seq<Seq<char>>,
    states: Seq<FileState>,
    fix: bool,
    n: int,
) -> Seq<IssueView>
    decreases n,
{
    if n <= 0 {
        seq![]
    } else {
        let p = listed_issues_of(dir, files, keys, states, fix, n - 1);
        let j = n - 1;
        match state_at(keys, states, fix, j) {
            FileState::Missing => p.push(
                IssueView::FileListed { dir, file: files[j], problem: ListedProblem::Missing },
            ),
            FileState::NotPdf => if fix {
                p
            } else {
                p.push(IssueView::FileListed { dir, file: files[j], problem: ListedProblem::NotPdf })
            },
            FileState::Pdf => p,
        }
    }
}

/// The repairs of the first `n` listed files.
pub open spec fn listed_ops_of(
    content: Seq<char>,
    files: Seq<Seq<char>>,
    keys: Seq<Seq<char>>,
    states: Seq<FileState>,
    fix: bool,
    n: int,
) -> Seq<FixOpView>
    decreases n,
{
    if n <= 0 {
        seq![]
    } else {
        let p = listed_ops_of(content, files, keys, states, fix, n - 1);
        let j = n - 1;
        if fix && state_at(keys, states, fix, j) == FileState::NotPdf {
            p.push(FixOpView::RemoveListed { file: files[j], content: without_listed(content, files[j]) })
        } else {
            p
        }
    }
}

/// A name that looks temporary: it begins with `tmp` (and is not the metadata file).
pub open spec fn is_temp_name(name: Seq<char>) -> bool {
    starts_with(name, "tmp"@) && name != "info.toml"@
}

/// The temporary file can be repaired: in `--fix` mode, a `.pdf` name whose
/// content is a PDF.
pub open spec fn temp_fixable(name: Seq<char>, is_pdf: bool, fix: bool) -> bool {
    fix && ends_with(name, ".pdf"@) && is_pdf
}

/// The directory entries that the check still sees after the listed repairs.
pub open spec fn entry_seen(e: (Seq<char>, Seq<char>, bool), keys: Seq<Seq<char>>, states: Seq<FileState>, fix: bool) -> bool {
    !removed_before(keys, states, fix, keys.len() as int, e.1)
}

/// The issues about temporary names among the first `n` entries.
pub open spec fn temp_issues_of(
    dir: Seq<char>,
    entries: Seq<(Seq<char>, Seq<char>, bool)>,
    keys: Seq<Seq<char>>,
    states: Seq<FileState>,
    fix: bool,
    n: int,
) -> Seq<IssueView>
    decreases n,
{
    if n <= 0 {
        seq![]
    } else {
        let p = temp_issues_of(dir, entries, keys, states, fix, n - 1);
        let e = entries[n - 1];
        if entry_seen(e, keys, states, fix) && is_temp_name(e.0) && !temp_fixable(e.0, e.2, fix) {
            p.push(IssueView::TempName { dir, file: e.0 })
        } else {
            p
        }
    }
}

/// The renames of temporary PDFs among the first `n` entries.
pub open spec fn temp_ops_of(
    dir: Seq<char>,
    content: Seq<char>,
    entries: Seq<(Seq<char>, Seq<char>, bool)>,
    keys: Seq<Seq<char>>,
    states: Seq<FileState>,
    fix: bool,
    n: int,
) -> Seq<FixOpView>
    decreases n,
{
    if n <= 0 {
        seq![]
    } else {
        let p = temp_ops_of(dir, content, entries, keys, states, fix, n - 1);
        let e = entries[n - 1];
        if entry_seen(e, keys, states, fix) && is_temp_name(e.0) && temp_fixable(e.0, e.2, fix) {
            p.push(
                FixOpView::RenameTemp {
                    from: e.0,
                    to: dir + ".pdf"@,
                    content: with_renamed(content, e.0, dir + ".pdf"@),
                },
            )
        } else {
            p
        }
    }
}

/// The directory holds a PDF: a `.pdf` name whose content is a PDF.
pub open spec fn holds_pdf(entries: Seq<(Seq<char>, Seq<char>, bool)>, keys: Seq<Seq<char>>, states: Seq<FileState>, fix: bool) -> bool {
    exists|i: int|
        0 <= i < entries.len() && entry_seen(#[trigger] entries[i], keys, states, fix) && has_pdf_extension(
            entries[i].0,
        ) && entries[i].2
}

/// The content of a list of directory entries.
pub open spec fn entries_view(v: Seq<DirEntry>) -> Seq<(Seq<char>, Seq<char>, bool)> {
    v.map_values(|e: DirEntry| (e.name@, e.key@, e.is_pdf))
}

/// What checking one reference directory finds, and what it repairs.
pub struct DirCheck {
    pub issues: Vec<Issue>,
    pub ops: Vec<FixOp>,
}

/// Everything the check of one directory reports, in order: missing metadata,
/// listed files, a missing PDF, temporary names.
pub open spec fn dir_issues_of(
    dir: Seq<char>,
    r: RefView,
    keys: Seq<Seq<char>>,
    states: Seq<FileState>,
    entries: Seq<(Seq<char>, Seq<char>, bool)>,
    fix: bool,
) -> Seq<IssueView> {
    metadata_issues_of(dir, r) + listed_issues_of(dir, r.files, keys, states, fix, r.files.len() as int) + (if !holds_pdf(
        entries,
        keys,
        states,
        fix,
    ) && r.files.len() == 0 {
        seq![IssueView::MissingPdf { dir }]
    } else {
        seq![]
    }) + temp_issues_of(dir, entries, keys, states, fix, entries.len() as int)
}

/// Every repair of one directory, in order: listed files, then temporary names.
pub open spec fn dir_ops_of(
    dir: Seq<char>,
    content: Seq<char>,
    r: RefView,
    keys: Seq<Seq<char>>,
    states: Seq<FileState>,
    entries: Seq<(Seq<char>, Seq<char>, bool)>,
    fix: bool,
) -> Seq<FixOpView> {
    listed_ops_of(content, r.files, keys, states, fix, r.files.len() as int) + temp_ops_of(
        dir,
        content,
        entries,
        keys,
        states,
        fix,
        entries.len() as int,
    )
}

fn quote(s: &str) -> (q: String)
    ensures
        q@ == quoted(s@),
{
    let mut q = owned("\"");
    q.append(s);
    q.append("\"");
    proof {
        reveal_strlit("\"");
    }
    q
}

/// Whether the entry with key `key` was deleted by the repair of one of the
/// first `j` listed files.
fn deleted_earlier(keys: &Vec<String>, states: &Vec<FileState>, fix: bool, j: usize, key: &str) -> (b: bool)
    requires
        j <= keys@.len(),
        keys@.len() == states@.len(),
    ensures
        b == removed_before(strs_view(keys@), states@, fix, j as int, key@),
{
    if !fix {
        return false;
    }
    for k in 0..j
        invariant
            fix,
            j <= keys@.len(),
            keys@.len() == states@.len(),
            forall|m: int| 0 <= m < k ==> !(strs_view(keys@)[m] == key@ && #[trigger] states@[m] == FileState::NotPdf),
    {
        assert(strs_view(keys@)[k as int] == keys@[k as int]@);
        if states[k] == FileState::NotPdf && str_eq(keys[k].as_str(), key) {
            assert(states@[k as int] == FileState::NotPdf);
            return true;
        }
    }
    false
}

fn metadata_issues(dir: &str, r: &Reference) -> (v: Vec<Issue>)
    ensures
        issues_view(v@) == metadata_issues_of(dir@, r@),
{
    let mut v: Vec<Issue> = Vec::new();
    if r.title.unicode_len() == 0 {
        v.push(Issue::NoMetadata { dir: owned(dir), field: MetaField::Title });
    }
    if r.authors.len() == 0 {
        v.push(Issue::NoMetadata { dir: owned(dir), field: MetaField::Authors });
    }
    if r.year.is_none() {
        v.push(Issue::NoMetadata { dir: owned(dir), field: MetaField::Year });
    }
    assert(issues_view(v@) =~= metadata_issues_of(dir@, r@));
    v
}

/// The text of `info.toml` once the listed `file` is taken out of it.
pub fn remove_listed(content: &str, file: &str) -> (s: String)
    ensures
        s@ == without_listed(content@, file@),
{
    let c = chars_of(content);
    let q = quote(file);
    let qv = chars_of(q.as_str());
    let empty: Vec<char> = Vec::new();
    let step = replace_chars(&c, &qv, &empty);
    let pat = chars_of("files = [\n    \n]");
    let rep = chars_of("files = []");
    proof {
        reveal_strlit("files = [\n    \n]");
    }
    assert(empty@ =~= Seq::<char>::empty());
    let r = replace_chars(&step, &pat, &rep);
    string_of(&r)
}

/// The text of `info.toml` once the file `from` is renamed `to`.
pub fn rename_listed(content: &str, from: &str, to: &str) -> (s: String)
    ensures
        s@ == with_renamed(content@, from@, to@),
{
    let c = chars_of(content);
    let qf = quote(from);
    let qt = quote(to);
    let a = chars_of(qf.as_str());
    let b = chars_of(qt.as_str());
    let r = replace_chars(&c, &a, &b);
    string_of(&r)
}

/// Checks one reference directory named `dir`: its metadata `r` as read from the
/// text `content`, for each listed file the key of the entry it names (`keys`)
/// and what it is on disk (`states`), and the entries of the directory. In
/// `--fix` mode the repairs are returned rather than reported; each writes the
/// metadata text derived from `content` as read.
pub fn check_dir(
    dir: &str,
    content: &str,
    r: &Reference,
    keys: &Vec<String>,
    states: &Vec<FileState>,
    entries: &Vec<DirEntry>,
    fix: bool,
) -> (c: DirCheck)
    requires
        keys@.len() == r.files@.len(),
        states@.len() == r.files@.len(),
    ensures
        issues_view(c.issues@) == dir_issues_of(dir@, r@, strs_view(keys@), states@, entries_view(entries@), fix),
        ops_view(c.ops@) == dir_ops_of(dir@, content@, r@, strs_view(keys@), states@, entries_view(entries@), fix),
{
    let ghost fv = strs_view(r.files@);
    let ghost kv = strs_view(keys@);
    let mut issues = metadata_issues(dir, r);
    let mut ops: Vec<FixOp> = Vec::new();
    let ghost base = issues_view(issues@);
    for j in 0..r.files.len()
        invariant
            fv == strs_view(r.files@),
            kv == strs_view(keys@),
            keys@.len() == r.files@.len(),
            states@.len() == r.files@.len(),
            issues_view(issues@) == base + listed_issues_of(dir@, fv, kv, states@, fix, j as int),
            ops_view(ops@) == listed_ops_of(content@, fv, kv, states@, fix, j as int),
    {
        let file = &r.files[j];
        assert(fv[j as int] == file@);
        assert(kv[j as int] == keys@[j as int]@);
        let gone = deleted_earlier(keys, states, fix, j, keys[j].as_str());
        let state = if gone {
            FileState::Missing
        } else {
            states[j]
        };
        assert(state == state_at(kv, states@, fix, j as int));
        let ghost before_i = issues_view(issues@);
        let ghost before_o = ops_view(ops@);
        match state {
            FileState::Missing => {
                issues.push(
                    Issue::FileListed { dir: owned(dir), file: owned(file.as_str()), problem: ListedProblem::Missing },
                );
                assert(issues_view(issues@) =~= before_i.push(
                    IssueView::FileListed { dir: dir@, file: fv[j as int], problem: ListedProblem::Missing },
                ));
            },
            FileState::NotPdf => {
                if fix {
                    let new_content = remove_listed(content, file.as_str());
                    ops.push(FixOp::RemoveListed { file: owned(file.as_str()), content: new_content });
                    assert(ops_view(ops@) =~= before_o.push(
                        FixOpView::RemoveListed { file: fv[j as int], content: without_listed(content@, fv[j as int]) },
                    ));
                } else {
                    issues.push(
                        Issue::FileListed {
                            dir: owned(dir),
                            file: owned(file.as_str()),
                            problem: ListedProblem::NotPdf,
                        },
                    );
                    assert(issues_view(issues@) =~= before_i.push(
                        IssueView::FileListed { dir: dir@, file: fv[j as int], problem: ListedProblem::NotPdf },
                    ));
                }
            },
            FileState::Pdf => {},
        }
        assert(issues_view(issues@) =~= base + listed_issues_of(dir@, fv, kv, states@, fix, j + 1));
        assert(ops_view(ops@) =~= listed_ops_of(content@, fv, kv, states@, fix, j + 1));
    }
    let ghost ev = entries_view(entries@);
    let n = r.files.len();
    // does the directory hold a PDF?
    let mut has_pdf = false;
    for i in 0..entries.len()
        invariant
            ev == entries_view(entries@),
            kv == strs_view(keys@),
            n == kv.len(),
            states@.len() == keys@.len(),
            has_pdf == exists|k: int|
                0 <= k < i && entry_seen(#[trigger] ev[k], kv, states@, fix) && has_pdf_extension(ev[k].0)
                    && ev[k].2,
    {
        let e = &entries[i];
        assert(ev[i as int] == (e.name@, e.key@, e.is_pdf));
        if !has_pdf && e.is_pdf && pdf_extension(e.name.as_str()) && !deleted_earlier(
            keys,
            states,
            fix,
            n,
            e.key.as_str(),
        ) {
            has_pdf = true;
        }
    }
    let ghost mid = issues_view(issues@);
    if !has_pdf && r.files.len() == 0 {
        issues.push(Issue::MissingPdf { dir: owned(dir) });
    }
    let ghost before_temp = issues_view(issues@);
    assert(before_temp =~= mid + (if !holds_pdf(ev, kv, states@, fix) && fv.len() == 0 {
        seq![IssueView::MissingPdf { dir: dir@ }]
    } else {
        Seq::<IssueView>::empty()
    }));
    let ghost ops_mid = ops_view(ops@);
    let tmp = chars_of("tmp");
    let info = chars_of("info.toml");
    let dotpdf = chars_of(".pdf");
    let mut proper = owned(dir);
    proper.append(".pdf");
    for i in 0..entries.len()
        invariant
            ev == entries_view(entries@),
            kv == strs_view(keys@),
            n == kv.len(),
            states@.len() == keys@.len(),
            tmp@ == "tmp"@,
            info@ == "info.toml"@,
            dotpdf@ == ".pdf"@,
            proper@ == dir@ + ".pdf"@,
            issues_view(issues@) == before_temp + temp_issues_of(dir@, ev, kv, states@, fix, i as int),
            ops_view(ops@) == ops_mid + temp_ops_of(dir@, content@, ev, kv, states@, fix, i as int),
    {
        let e = &entries[i];
        assert(ev[i as int] == (e.name@, e.key@, e.is_pdf));
        let ghost before_i = issues_view(issues@);
        let ghost before_o = ops_view(ops@);
        let name = chars_of(e.name.as_str());
        let seen = !deleted_earlier(keys, states, fix, n, e.key.as_str());
        let temp = starts_with_chars(&name, &tmp) && !str_eq(e.name.as_str(), "info.toml");
        if seen && temp {
            if fix && ends_with_chars(&name, &dotpdf) && e.is_pdf {
                let new_content = rename_listed(content, e.name.as_str(), proper.as_str());
                ops.push(
                    FixOp::RenameTemp {
                        from: owned(e.name.as_str()),
                        to: owned(proper.as_str()),
                        content: new_content,
                    },
                );
                assert(ops_view(ops@) =~= before_o.push(
                    FixOpView::RenameTemp {
                        from: ev[i as int].0,
                        to: dir@ + ".pdf"@,
                        content: with_renamed(content@, ev[i as int].0, dir@ + ".pdf"@),
                    },
                ));
            } else {
                issues.push(Issue::TempName { dir: owned(dir), file: owned(e.name.as_str()) });
                assert(issues_view(issues@) =~= before_i.push(IssueView::TempName { dir: dir@, file: ev[i as int].0 }));
            }
        }
        assert(issues_view(issues@) =~= before_temp + temp_issues_of(dir@, ev, kv, states@, fix, i + 1));
        assert(ops_view(ops@) =~= ops_mid + temp_ops_of(dir@, content@, ev, kv, states@, fix, i + 1));
    }
    DirCheck { issues, ops }
}

/// The outcome of checking the library: how many references, how many repairs,
/// and the lines reporting what is left.
pub struct ValidateResult {
    pub total: usize,
    pub fixed: usize,
    pub issues: Vec<String>,
}

/// The one-line summary of a check.
pub open spec fn summary_of(total: nat, fixed: nat, issues: nat) -> Seq<char> {
    if issues == 0 && fixed == 0 {
        "Library OK — "@ + decimal(total) + " references"@
    } else if fixed > 0 && issues == 0 {
        "Fixed "@ + decimal(fixed) + " issues"@
    } else if fixed > 0 {
        decimal(issues + fixed) + " issues, fixed "@ + decimal(fixed)
    } else {
        decimal(issues) + " issues found"@
    }
}

impl ValidateResult {
    /// The summary line.
    pub fn summary(&self) -> (s: String)
        requires
            self.issues@.len() + self.fixed <= u64::MAX,
        ensures
            s@ == summary_of(self.total as nat, self.fixed as nat, self.issues@.len()),
    {
        let n = self.issues.len();
        if n == 0 && self.fixed == 0 {
            let mut s = owned("Library OK — ");
            let d = decimal_string(self.total as u64);
            s.append(d.as_str());
            s.append(" references");
            s
        } else if self.fixed > 0 && n == 0 {
            let mut s = owned("Fixed ");
            let d = decimal_string(self.fixed as u64);
            s.append(d.as_str());
            s.append(" issues");
            s
        } else if self.fixed > 0 {
            let sum = n as u64 + self.fixed as u64;
            let mut s = decimal_string(sum);
            s.append(" issues, fixed ");
            let d = decimal_string(self.fixed as u64);
            s.append(d.as_str());
            s
        } else {
            let mut s = decimal_string(n as u64);
            s.append(" issues found");
            s
        }
    }

    /// Adds what the check of one directory found: its repairs to the count, its
    /// issues to the report.
    pub fn record(&mut self, c: &DirCheck)
        requires
            old(self).fixed + c.ops@.len() <= usize::MAX,
        ensures
            final(self).total == old(self).total,
            final(self).fixed == old(self).fixed + c.ops@.len(),
            strs_view(final(self).issues@) == strs_view(old(self).issues@) + issues_view(c.issues@).map_values(
                |i: IssueView| issue_message(i),
            ),
    {
        self.fixed = self.fixed + c.ops.len();
        let ghost start = strs_view(self.issues@);
        for k in 0..c.issues.len()
            invariant
                self.total == old(self).total,
                self.fixed == old(self).fixed + c.ops@.len(),
                strs_view(self.issues@) == start + issues_view(c.issues@).take(k as int).map_values(
                    |i: IssueView| issue_message(i),
                ),
        {
            let m = c.issues[k].message();
            let ghost before = strs_view(self.issues@);
            self.issues.push(m);
            assert(issues_view(c.issues@).take(k + 1).map_values(|i: IssueView| issue_message(i))
                =~= issues_view(c.issues@).take(k as int).map_values(|i: IssueView| issue_message(i)).push(
                issue_message(c.issues@[k as int]@),
            ));
            assert(strs_view(self.issues@) =~= before.push(m@));
        }
        assert(issues_view(c.issues@).take(c.issues@.len() as int) =~= issues_view(c.issues@));
    }
}

proof fn lemma_no_listed_ops(content: Seq<char>, files: Seq<Seq<char>>, keys: Seq<Seq<char>>, states: Seq<FileState>, n: int)
    ensures
        listed_ops_of(content, files, keys, states, false, n) == Seq::<FixOpView>::empty(),
    decreases n,
{
    if n > 0 {
        lemma_no_listed_ops(content, files, keys, states, n - 1);
    }
}

proof fn lemma_no_temp_ops(
    dir: Seq<char>,
    content: Seq<char>,
    entries: Seq<(Seq<char>, Seq<char>, bool)>,
    keys: Seq<Seq<char>>,
    states: Seq<FileState>,
    n: int,
)
    ensures
        temp_ops_of(dir, content, entries, keys, states, false, n) == Seq::<FixOpView>::empty(),
    decreases n,
{
    if n > 0 {
        lemma_no_temp_ops(dir, content, entries, keys, states, n - 1);
    }
}

/// Without `--fix` the check changes nothing: it repairs no file.
pub proof fn check_without_fix_repairs_nothing(
    dir: Seq<char>,
    content: Seq<char>,
    r: RefView,
    keys: Seq<Seq<char>>,
    states: Seq<FileState>,
    entries: Seq<(Seq<char>, Seq<char>, bool)>,
)
    ensures
        dir_ops_of(dir, content, r, keys, states, entries, false) == Seq::<FixOpView>::empty(),
{
    lemma_no_listed_ops(content, r.files, keys, states, r.files.len() as int);
    lemma_no_temp_ops(dir, content, entries, keys, states, entries.len() as int);
    assert(dir_ops_of(dir, content, r, keys, states, entries, false) =~= Seq::<FixOpView>::empty());
}

/// A library with nothing to report and nothing repaired is reported as OK,
/// with its number of references; any other outcome is not.
pub proof fn summary_ok_exactly_when_clean(total: nat, fixed: nat, issues: nat)
    ensures
        (issues == 0 && fixed == 0) <==> summary_of(total, fixed, issues) == "Library OK — "@ + decimal(total)
            + " references"@,
{
    reveal_strlit("Library OK — ");
    reveal_strlit("Fixed ");
    reveal_strlit(" issues, fixed ");
    reveal_strlit(" issues found");
    let ok = "Library OK — "@ + decimal(total) + " references"@;
    if !(issues == 0 && fixed == 0) {
        let s = summary_of(total, fixed, issues);
        if fixed > 0 && issues == 0 {
            assert(s[0] == 'F' && ok[0] == 'L');
        } else {
            lemma_decimal_digit_first(if fixed > 0 {
                issues + fixed
            } else {
                issues
            });
            assert(ok[0] == 'L');
            assert(s[0] != 'L');
        }
    }
}

/// A decimal notation begins with a digit.
proof fn lemma_decimal_digit_first(n: nat)
    ensures
        decimal(n).len() > 0,
        '0' <= decimal(n)[0] <= '9',
    decreases n,
{
    if n >= 10 {
        lemma_decimal_digit_first(n / 10);
        assert(decimal(n)[0] == decimal(n / 10)[0]);
    }
}

} // verus!
