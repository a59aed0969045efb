use carina::model::Reference;
use carina::present::{
    bibtex_entry, display_line, format_citation, has_tag, list_line, metadata_score, picker_line,
    selection_key, show_lines,
};

fn s(x: &str) -> String {
    x.to_string()
}

fn reference(title: &str, authors: &[&str], year: Option<u16>) -> Reference {
    Reference {
        title: s(title),
        authors: authors.iter().map(|a| s(a)).collect(),
        year,
        doi: None,
        arxiv: None,
        journal: None,
        tags: vec![],
        files: vec![],
        abstract_text: None,
    }
}

fn full() -> Reference {
    Reference {
        title: s("Attention Is All You Need"),
        authors: vec![s("Ashish Vaswani"), s("Noam Shazeer"), s("Niki Parmar")],
        year: Some(2017),
        doi: Some(s("10.5555/3295222")),
        arxiv: Some(s("1706.03762")),
        journal: Some(s("NeurIPS")),
        tags: vec![s("transformers"), s("nlp")],
        files: vec![s("1706.03762.pdf")],
        abstract_text: Some(s("The dominant sequence transduction models...")),
    }
}

#[test]
fn display_line_joins_authors_year_and_title() {
    let r = reference("Attention Is All You Need", &["Ashish Vaswani", "Noam Shazeer"], Some(2017));
    assert_eq!(display_line(&r), "Ashish Vaswani et al.  (2017)  Attention Is All You Need");
}

#[test]
fn display_line_with_one_author() {
    let r = reference("Deep learning", &["Yann LeCun"], Some(2015));
    assert_eq!(display_line(&r), "Yann LeCun  (2015)  Deep learning");
}

#[test]
fn display_line_skips_empty_parts() {
    assert_eq!(display_line(&reference("Only a title", &[], None)), "Only a title");
    assert_eq!(display_line(&reference("", &[], Some(7))), "(7)");
    assert_eq!(display_line(&reference("", &[], None)), "");
}

#[test]
fn picker_line_puts_key_before_tab() {
    assert_eq!(picker_line("vaswani-2017-attention", "Ashish Vaswani"), "vaswani-2017-attention\tAshish Vaswani");
}

#[test]
fn selection_key_takes_first_field_trimmed() {
    assert_eq!(selection_key("vaswani-2017-attention\tAshish Vaswani  (2017)\n"), "vaswani-2017-attention");
    assert_eq!(selection_key("  lecun-2015-deep \n"), "lecun-2015-deep");
    assert_eq!(selection_key(""), "");
}

#[test]
fn citation_formats() {
    assert_eq!(format_citation("latex", "vaswani-2017-attention"), "\\cite{vaswani-2017-attention}");
    assert_eq!(format_citation("typst", "vaswani-2017-attention"), "@vaswani-2017-attention");
    assert_eq!(format_citation("plain", "vaswani-2017-attention"), "vaswani-2017-attention");
    assert_eq!(format_citation("markdown", "k"), "k");
}

#[test]
fn list_line_of_a_reference() {
    let r = reference("Attention Is All You Need", &["Ashish Vaswani", "Noam Shazeer"], Some(2017));
    assert_eq!(list_line(&r), "Attention Is All You Need — Ashish Vaswani, Noam Shazeer (2017)");
    assert_eq!(list_line(&reference("T", &[], None)), "T");
}

#[test]
fn tag_filter_ignores_ascii_case() {
    let mut r = reference("T", &[], None);
    r.tags = vec![s("ML"), s("nlp")];
    assert!(has_tag(&r, "ml"));
    assert!(has_tag(&r, "NLP"));
    assert!(!has_tag(&r, "vision"));
}

#[test]
fn show_page_of_a_full_reference() {
    let lines = show_lines(&full());
    let expected = vec![
        "Attention Is All You Need",
        "2017 · NeurIPS",
        "",
        "  Ashish Vaswani",
        "  Noam Shazeer",
        "  Niki Parmar",
        "",
        "DOI:   10.5555/3295222",
        "arXiv: 1706.03762",
        "Tags:  transformers, nlp",
        "",
        "The dominant sequence transduction models...",
    ];
    assert_eq!(lines, expected);
}

#[test]
fn show_page_counts_authors_beyond_five() {
    let r = reference("T", &["A", "B", "C", "D", "E", "F", "G"], None);
    let lines = show_lines(&r);
    assert_eq!(lines, vec!["T", "", "  A", "  B", "  C", "  D", "  E", "  +2 more", ""]);
}

#[test]
fn bibtex_of_a_full_reference() {
    let bib = bibtex_entry("vaswani-2017-attention", &full());
    let expected = "@article{vaswani-2017-attention,\n  title = {Attention Is All You Need},\n  author = {Ashish Vaswani and Noam Shazeer and Niki Parmar},\n  year = {2017},\n  journal = {NeurIPS},\n  doi = {10.5555/3295222},\n  eprint = {1706.03762},\n  archiveprefix = {arXiv},\n}";
    assert_eq!(bib, expected);
}

#[test]
fn bibtex_of_a_bare_reference() {
    let bib = bibtex_entry("k", &reference("T", &[], None));
    assert_eq!(bib, "@article{k,\n  title = {T},\n}");
}

#[test]
fn metadata_score_counts_filled_fields() {
    assert_eq!(metadata_score(&full()), 9);
    assert_eq!(metadata_score(&reference("", &[], None)), 0);
    assert_eq!(metadata_score(&reference("T", &[], Some(0))), 1);
    assert_eq!(metadata_score(&reference("T", &["A"], Some(1999))), 3);
}

#[test]
fn picked_line_gives_back_its_key() {
    let line = picker_line("he-2016-deep", "Kaiming He  (2016)  Deep Residual Learning");
    assert_eq!(selection_key(&format!("{}\n", line)), "he-2016-deep");
    let dedup = carina::cli::dedup_line("he-2016-deep", true, 5);
    assert_eq!(selection_key(&format!("{}\n", dedup)), "he-2016-deep");
}
