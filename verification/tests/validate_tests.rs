use carina::model::Reference;
use carina::validate::{
    check_dir, is_pdf_header, open_target, pdf_extension, remove_listed, rename_listed, DirCheck,
    DirEntry, FileState, FixOp, Issue, ListedProblem, MetaField, ValidateResult,
};

fn s(x: &str) -> String {
    x.to_string()
}

fn reference(title: &str, authors: &[&str], year: Option<u16>, files: &[&str]) -> Reference {
    Reference {
        title: s(title),
        authors: authors.iter().map(|a| s(a)).collect(),
        year,
        doi: None,
        arxiv: None,
        journal: None,
        tags: vec![],
        files: files.iter().map(|f| s(f)).collect(),
        abstract_text: None,
    }
}

/// The key of the entry `name` of the directory `/lib/d`.
fn key(name: &str) -> String {
    format!("/lib/d/{}", name)
}

fn keys(names: &[&str]) -> Vec<String> {
    names.iter().map(|n| key(n)).collect()
}

fn entry(name: &str, is_pdf: bool) -> DirEntry {
    DirEntry { name: s(name), key: key(name), is_pdf }
}

fn messages(c: &DirCheck) -> Vec<String> {
    c.issues.iter().map(|i| i.message()).collect()
}

#[test]
fn pdf_header_needs_four_bytes() {
    assert!(is_pdf_header(&b"%PDF-1.7".to_vec()));
    assert!(is_pdf_header(&b"%PDF".to_vec()));
    assert!(!is_pdf_header(&b"%PD".to_vec()));
    assert!(!is_pdf_header(&b"<html>".to_vec()));
}

#[test]
fn pdf_extension_like_path_extension() {
    assert!(pdf_extension("paper.pdf"));
    assert!(pdf_extension("paper.PDF"));
    assert!(pdf_extension("a.b.Pdf"));
    assert!(!pdf_extension(".pdf"));
    assert!(!pdf_extension("paper.pdfx"));
    assert!(!pdf_extension("paper"));
    assert!(!pdf_extension("pdf"));
}

#[test]
fn open_target_prefers_listed_file() {
    let names = vec![s("info.toml"), s("x.txt"), s("b.PDF"), s("c.pdf")];
    assert_eq!(open_target(&vec![s("a.pdf")], &names), Some(s("a.pdf")));
    assert_eq!(open_target(&vec![], &names), Some(s("b.PDF")));
    assert_eq!(open_target(&vec![], &vec![s("info.toml")]), None);
}

#[test]
fn issue_messages() {
    assert_eq!(Issue::MissingPdf { dir: s("d") }.message(), "  no PDF: d");
    assert_eq!(
        Issue::FileListed { dir: s("d"), file: s("f.pdf"), problem: ListedProblem::Missing }.message(),
        "  listed but missing: d/f.pdf"
    );
    assert_eq!(
        Issue::FileListed { dir: s("d"), file: s("f.pdf"), problem: ListedProblem::NotPdf }.message(),
        "  not a PDF: d/f.pdf"
    );
    assert_eq!(Issue::TempName { dir: s("d"), file: s("tmp1.pdf") }.message(), "  temp name: d/tmp1.pdf");
    assert_eq!(Issue::NoMetadata { dir: s("d"), field: MetaField::Authors }.message(), "  missing authors: d");
}

#[test]
fn check_reports_every_problem_without_fix() {
    let r = reference("", &[], None, &["gone.pdf", "fake.pdf", "good.pdf"]);
    let states = vec![FileState::Missing, FileState::NotPdf, FileState::Pdf];
    let entries = vec![entry("info.toml", false), entry("fake.pdf", false), entry("good.pdf", true), entry("tmpx.pdf", true), entry("tmp-notes.txt", false)];
    let c = check_dir("d", "content", &r, &keys(&["gone.pdf", "fake.pdf", "good.pdf"]), &states, &entries, false);
    assert_eq!(
        messages(&c),
        vec![
            "  missing title: d",
            "  missing authors: d",
            "  missing year: d",
            "  listed but missing: d/gone.pdf",
            "  not a PDF: d/fake.pdf",
            "  temp name: d/tmpx.pdf",
            "  temp name: d/tmp-notes.txt",
        ]
    );
    assert!(c.ops.is_empty());
}

#[test]
fn check_repairs_with_fix() {
    let content = "title = \"T\"\nfiles = [\n    \"fake.pdf\"\n]\n";
    let r = reference("T", &["A"], Some(2000), &["fake.pdf"]);
    let states = vec![FileState::NotPdf];
    let entries = vec![entry("info.toml", false), entry("fake.pdf", false), entry("tmp123.pdf", true), entry("tmp.txt", false)];
    let c = check_dir("smith-2000-t", content, &r, &keys(&["fake.pdf"]), &states, &entries, true);
    assert_eq!(messages(&c), vec!["  temp name: smith-2000-t/tmp.txt"]);
    assert_eq!(c.ops.len(), 2);
    match &c.ops[0] {
        FixOp::RemoveListed { file, content } => {
            assert_eq!(file, "fake.pdf");
            assert_eq!(content, "title = \"T\"\nfiles = []\n");
        }
        _ => panic!("expected the listed file to be removed"),
    }
    match &c.ops[1] {
        FixOp::RenameTemp { from, to, content: text } => {
            assert_eq!(from, "tmp123.pdf");
            assert_eq!(to, "smith-2000-t.pdf");
            assert_eq!(text, content);
        }
        _ => panic!("expected the temporary file to be renamed"),
    }
}

#[test]
fn listed_file_removed_twice_is_then_missing() {
    let r = reference("T", &["A"], Some(1), &["x.txt", "x.txt"]);
    let states = vec![FileState::NotPdf, FileState::NotPdf];
    let c = check_dir("d", "", &r, &keys(&["x.txt", "x.txt"]), &states, &vec![], true);
    assert_eq!(c.ops.len(), 1);
    assert_eq!(messages(&c), vec!["  listed but missing: d/x.txt"]);
}

#[test]
fn missing_pdf_only_without_listed_files() {
    let r = reference("T", &["A"], Some(1), &[]);
    let c = check_dir("d", "", &r, &vec![], &vec![], &vec![entry("notes.pdf", false)], false);
    assert_eq!(messages(&c), vec!["  no PDF: d"]);
    let c = check_dir("d", "", &r, &vec![], &vec![], &vec![entry("paper.pdf", true)], false);
    assert!(messages(&c).is_empty());
}

#[test]
fn metadata_text_edits() {
    assert_eq!(remove_listed("files = [\n    \"a.txt\"\n]", "a.txt"), "files = []");
    assert_eq!(remove_listed("files = [\"a.txt\", \"b.pdf\"]", "a.txt"), "files = [, \"b.pdf\"]");
    assert_eq!(rename_listed("files = [\"tmp1.pdf\"]", "tmp1.pdf", "d.pdf"), "files = [\"d.pdf\"]");
}

#[test]
fn summary_lines() {
    let r = ValidateResult { total: 5, fixed: 0, issues: vec![] };
    assert_eq!(r.summary(), "Library OK — 5 references");
    let r = ValidateResult { total: 5, fixed: 2, issues: vec![] };
    assert_eq!(r.summary(), "Fixed 2 issues");
    let r = ValidateResult { total: 5, fixed: 1, issues: vec![s("a"), s("b")] };
    assert_eq!(r.summary(), "3 issues, fixed 1");
    let r = ValidateResult { total: 5, fixed: 0, issues: vec![s("a"), s("b")] };
    assert_eq!(r.summary(), "2 issues found");
}

#[test]
fn recording_checks() {
    let mut result = ValidateResult { total: 2, fixed: 0, issues: vec![] };
    let r = reference("", &["A"], Some(1), &["x.txt"]);
    let c = check_dir("d", "", &r, &keys(&["x.txt"]), &vec![FileState::NotPdf], &vec![], true);
    result.record(&c);
    assert_eq!(result.fixed, 1);
    assert_eq!(result.issues, vec!["  missing title: d"]);
    assert_eq!(result.summary(), "2 issues, fixed 1");
}

#[test]
fn removed_listed_temp_file_is_not_reported_again() {
    let r = reference("T", &["A"], Some(1), &["./tmpX"]);
    let c = check_dir("d", "", &r, &keys(&["tmpX"]), &vec![FileState::NotPdf], &vec![entry("tmpX", false)], true);
    assert_eq!(c.ops.len(), 1);
    assert!(messages(&c).is_empty());
    let r = reference("T", &["A"], Some(1), &["x.txt", "./x.txt"]);
    let c = check_dir("d", "", &r, &keys(&["x.txt", "x.txt"]), &vec![FileState::NotPdf, FileState::NotPdf], &vec![], true);
    assert_eq!(messages(&c), vec!["  listed but missing: d/./x.txt"]);
}

#[test]
fn a_path_through_a_subdirectory_names_the_same_file() {
    // `sub/../junk.txt` and `junk.txt` are one entry of `/lib/d`: deleting it
    // for the first leaves the second missing.
    let r = reference("T", &["A"], Some(1), &["sub/../junk.txt", "junk.txt"]);
    let c = check_dir(
        "d",
        "",
        &r,
        &keys(&["junk.txt", "junk.txt"]),
        &vec![FileState::NotPdf, FileState::NotPdf],
        &vec![entry("junk.txt", false)],
        true,
    );
    assert_eq!(c.ops.len(), 1);
    assert_eq!(messages(&c), vec!["  listed but missing: d/junk.txt"]);
}

#[test]
fn distinct_entries_are_each_repaired() {
    let r = reference("T", &["A"], Some(1), &["sub/x.txt", "x.txt"]);
    let c = check_dir(
        "d",
        "",
        &r,
        &keys(&["sub/x.txt", "x.txt"]),
        &vec![FileState::NotPdf, FileState::NotPdf],
        &vec![],
        true,
    );
    assert_eq!(c.ops.len(), 2);
    assert!(messages(&c).is_empty());
}
