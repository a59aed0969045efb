use carina::cli::{
    ambiguous_lines, browse_args, cite_args, dedup_args, dedup_done, dedup_heading, dedup_line,
    find_matches, find_reference, fts_query, index_row, merge_fetched, picker_ok, query_string,
    shell_escape, to_trash, words_in, Found, LookupError,
};
use carina::model::Reference;
use carina::tui::Entry;

fn s(x: &str) -> String {
    x.to_string()
}

fn reference(title: &str, authors: &[&str]) -> Reference {
    Reference {
        title: s(title),
        authors: authors.iter().map(|a| s(a)).collect(),
        year: None,
        doi: None,
        arxiv: None,
        journal: None,
        tags: vec![],
        files: vec![],
        abstract_text: None,
    }
}

fn entries() -> Vec<Entry> {
    vec![
        Entry::new(s("vaswani-2017-attention"), reference("Attention Is All You Need", &["Ashish Vaswani"])),
        Entry::new(s("lecun-2015-deep"), reference("Deep learning", &["Yann LeCun", "Yoshua Bengio"])),
        Entry::new(s("he-2016-deep"), reference("Deep Residual Learning", &["Kaiming He"])),
    ]
}

#[test]
fn shell_escape_quotes() {
    assert_eq!(shell_escape("/home/me/Papers"), "'/home/me/Papers'");
    assert_eq!(shell_escape("it's"), "'it'\\''s'");
    assert_eq!(shell_escape(""), "''");
}

#[test]
fn browse_picker_arguments() {
    let args = browse_args("/lib", "/bin/carina", Some("jepa"));
    assert_eq!(args.len(), 14);
    assert_eq!(args[0], "--delimiter=\t");
    assert_eq!(args[4], "CARINA_LIBRARY='/lib' '/bin/carina' show {1}");
    assert_eq!(args[7], "--bind=enter:execute(CARINA_LIBRARY='/lib' '/bin/carina' open {1})+abort");
    assert_eq!(args[8], "--bind=ctrl-e:execute(CARINA_LIBRARY='/lib' '/bin/carina' edit {1})");
    assert_eq!(args[9], "--bind=ctrl-y:execute-silent(CARINA_LIBRARY='/lib' '/bin/carina' bib {1} | pbcopy)");
    assert_eq!(args[11], "--header=enter: open │ ctrl-e: edit │ ctrl-y: copy bib");
    assert_eq!(args[13], "--query=jepa");
    assert_eq!(browse_args("/lib", "c", None).len(), 13);
}

#[test]
fn cite_and_dedup_picker_arguments() {
    assert_eq!(cite_args(), vec!["--delimiter=\t", "--with-nth=2..", "--height=100%", "--no-mouse", "--header=Pick a reference"]);
    let d = dedup_args("/lib", "carina");
    assert_eq!(d[4], "--header=Select entry to KEEP (others will be trashed)");
    assert_eq!(d[6], "--preview=CARINA_LIBRARY='/lib' 'carina' show {1}");
}

#[test]
fn picker_status() {
    assert!(picker_ok(true, Some(0)));
    assert!(picker_ok(false, Some(130)));
    assert!(!picker_ok(false, Some(1)));
    assert!(!picker_ok(false, None));
}

#[test]
fn queries() {
    assert_eq!(query_string(&vec![s("attention"), s("is"), s("all")]), "attention is all");
    assert_eq!(query_string(&vec![]), "");
    assert_eq!(fts_query("deep \"residual\"  learning"), "\"deep\" \"residual\" \"learning\"");
    assert_eq!(fts_query("   "), "");
}

#[test]
fn index_rows_join_lists() {
    let mut r = reference("T", &["A", "B"]);
    r.tags = vec![s("x"), s("y")];
    r.files = vec![s("a.pdf")];
    r.year = Some(2020);
    let row = index_row("d", &r);
    assert_eq!(row.dir_name, "d");
    assert_eq!(row.authors, "A; B");
    assert_eq!(row.tags, "x, y");
    assert_eq!(row.files, "a.pdf");
    assert_eq!(row.year, Some(2020));
}

#[test]
fn finding_by_words_of_title_author_or_directory() {
    let es = entries();
    assert_eq!(find_matches("deep", &es), vec![1, 2]);
    assert_eq!(find_matches("DEEP bengio", &es), vec![1]);
    assert_eq!(find_matches("vaswani-2017", &es), vec![0]);
    assert_eq!(find_matches("transformer", &es), Vec::<usize>::new());
}

#[test]
fn find_reference_outcomes() {
    let es = entries();
    assert!(matches!(find_reference("x", 0, true, &es), Err(LookupError::EmptyLibrary)));
    assert!(matches!(find_reference("", 3, true, &es), Err(LookupError::NoQuery)));
    assert!(matches!(find_reference("deep", 3, true, &es), Ok(Found::Exact)));
    assert!(matches!(find_reference("residual", 3, false, &es), Ok(Found::Entry(2))));
    assert!(matches!(find_reference("quantum", 3, false, &es), Err(LookupError::NoMatch)));
    match find_reference("deep", 3, false, &es) {
        Err(LookupError::Ambiguous(m)) => assert_eq!(m, vec![1, 2]),
        _ => panic!("two references match"),
    }
    assert_eq!(LookupError::NoMatch.message(), "No matching reference found");
    assert_eq!(LookupError::Ambiguous(vec![]).message(), "Multiple matches — refine your query");
    assert_eq!(LookupError::EmptyLibrary.message(), "Library is empty");
    assert_eq!(LookupError::NoQuery.message(), "No search query provided");
}

#[test]
fn ambiguous_listing() {
    let lines = ambiguous_lines(&vec![s("Deep learning"), s("Deep Residual Learning")]);
    assert_eq!(lines, vec!["Found 2 matches:", "  [1] Deep learning", "  [2] Deep Residual Learning"]);
}

#[test]
fn dedup_steps() {
    assert_eq!(dedup_line("he-2016-deep", true, 7), "he-2016-deep\the-2016-deep [PDF] (7/9 fields)");
    assert_eq!(dedup_line("x", false, 0), "x\tx (0/9 fields)");
    assert_eq!(dedup_heading(0, 3, "Deep learning"), "[1/3] \"Deep learning\"");
    assert_eq!(to_trash(&vec![s("a"), s("b"), s("c")], "b"), vec![0, 2]);
    assert_eq!(to_trash(&vec![s("a"), s("a")], "z"), vec![0, 1]);
    assert_eq!(dedup_done(0), vec!["Done. Removed 0 duplicates (moved to .trash/)"]);
    assert_eq!(
        dedup_done(2),
        vec!["Done. Removed 2 duplicates (moved to .trash/)", "Run `carina reindex` to update the search index."]
    );
}

#[test]
fn fetched_metadata_replaces_six_fields() {
    let mut r = reference("from pdf", &["Someone"]);
    r.tags = vec![s("keep")];
    r.files = vec![s("f.pdf")];
    r.journal = Some(s("J"));
    let mut fetched = reference("Real Title", &["Real Author"]);
    fetched.year = Some(2017);
    fetched.arxiv = Some(s("1706.03762"));
    fetched.journal = Some(s("ignored"));
    merge_fetched(&mut r, fetched);
    assert_eq!(r.title, "Real Title");
    assert_eq!(r.authors, vec!["Real Author"]);
    assert_eq!(r.year, Some(2017));
    assert_eq!(r.arxiv, Some(s("1706.03762")));
    assert_eq!(r.journal, Some(s("J")));
    assert_eq!(r.tags, vec!["keep"]);
    assert_eq!(r.files, vec!["f.pdf"]);
}

#[test]
fn every_query_word_must_occur() {
    assert!(words_in("deep bengio", "deep learning yann lecun yoshua bengio lecun-2015-deep"));
    assert!(!words_in("deep hinton", "deep learning yann lecun"));
    assert!(words_in("   ", "anything"));
    assert!(words_in("", ""));
}
