use carina::dedup::{duplicate_keys, find_duplicate_groups, normalize_key, DupKeys};
use carina::listing::duplicates_report;
use carina::model::Reference;

fn reference(title: &str, doi: Option<&str>) -> Reference {
    Reference {
        title: title.to_string(),
        authors: vec![],
        year: None,
        doi: doi.map(|d| d.to_string()),
        arxiv: None,
        journal: None,
        tags: vec![],
        files: vec![],
        abstract_text: None,
    }
}

fn keys(refs: &[Reference]) -> Vec<DupKeys> {
    refs.iter().map(duplicate_keys).collect()
}

fn library() -> Vec<Reference> {
    vec![
        reference("Attention Is All You Need", None),
        reference("  attention is all you need ", Some("10.1/A")),
        reference("Deep Learning", Some("10.1038/nature14539")),
        reference("Deep learning (preprint)", Some("10.1038/NATURE14539 ")),
        reference("", None),
        reference("Other", Some("")),
        reference("Other too", Some("  ")),
    ]
}

#[test]
fn normalized_keys_are_trimmed_and_lowercased() {
    assert_eq!(normalize_key("  Attention Is All You Need "), "attention is all you need");
    assert_eq!(normalize_key("ÉTUDE"), "étude");
    let k = duplicate_keys(&reference(" T ", Some(" 10.1/X ")));
    assert_eq!(k.title, "t");
    assert_eq!(k.doi, Some("10.1/x".to_string()));
}

#[test]
fn groups_by_title_then_by_doi() {
    let groups = find_duplicate_groups(&keys(&library()));
    assert_eq!(groups, vec![vec![0, 1], vec![2, 3]]);
}

#[test]
fn title_duplicates_are_not_grouped_again_by_doi() {
    let refs = vec![
        reference("Same", Some("10.1/x")),
        reference("same", None),
        reference("Different", Some("10.1/X")),
    ];
    let groups = find_duplicate_groups(&keys(&refs));
    // the first shares its title, so only the third is left with that DOI: no DOI group
    assert_eq!(groups, vec![vec![0, 1]]);
}

#[test]
fn no_duplicates_no_groups() {
    let refs = vec![reference("A", Some("1")), reference("B", Some("2")), reference("", None), reference("", None)];
    assert!(find_duplicate_groups(&keys(&refs)).is_empty());
}

#[test]
fn groups_partition_concrete() {
    let refs = vec![
        reference("x", None),
        reference("y", Some("d")),
        reference("x", None),
        reference("z", Some("d")),
        reference("x", Some("d")),
        reference("w", Some("e")),
    ];
    let groups = find_duplicate_groups(&keys(&refs));
    assert_eq!(groups, vec![vec![0, 2, 4], vec![1, 3]]);
    let mut seen = std::collections::HashSet::new();
    for g in &groups {
        assert!(g.len() >= 2);
        assert!(g.windows(2).all(|w| w[0] < w[1]));
        for i in g {
            assert!(seen.insert(*i));
        }
    }
}

#[test]
fn duplicates_report_lists_titles_then_dois_sorted() {
    let refs = vec![
        reference("Zeta", Some("10.1/b")),
        reference("Alpha", None),
        reference("zeta", None),
        reference("alpha", Some("10.1/a")),
        reference("Gamma", Some("10.1/B")),
    ];
    let names: Vec<String> = vec!["z1", "a1", "z2", "a2", "g"].into_iter().map(String::from).collect();
    let report = duplicates_report(&keys(&refs), &names);
    assert_eq!(report.title_keys, vec!["alpha".to_string(), "zeta".to_string()]);
    assert_eq!(report.doi_keys, vec!["10.1/b".to_string()]);
    let expected = vec![
        "Duplicates by title:",
        "  \"alpha\"",
        "    a1",
        "    a2",
        "  \"zeta\"",
        "    z1",
        "    z2",
        "",
        "Duplicates by DOI:",
        "  10.1/b",
        "    z1",
        "    g",
    ];
    assert_eq!(report.lines, expected);
}

#[test]
fn duplicates_report_when_none() {
    let refs = vec![reference("A", None), reference("B", Some("x"))];
    let names: Vec<String> = vec!["a".to_string(), "b".to_string()];
    let report = duplicates_report(&keys(&refs), &names);
    assert_eq!(report.lines, vec!["No duplicates found."]);
}

#[test]
fn duplicates_report_dois_only() {
    let refs = vec![reference("A", Some("d")), reference("B", Some("D"))];
    let names: Vec<String> = vec!["a".to_string(), "b".to_string()];
    let report = duplicates_report(&keys(&refs), &names);
    assert_eq!(report.lines, vec!["Duplicates by DOI:", "  d", "    a", "    b"]);
}
