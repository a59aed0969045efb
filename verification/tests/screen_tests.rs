use carina::model::Reference;
use carina::screen::{
    list_row, popup_box, popup_filter_line, popup_rows, preview_lines, search_cursor_offset,
    search_line, status_line, truncate_ellipsis, truncate_str, Role, Span,
};
use carina::tui::{InputMode, Mode};

fn s(x: &str) -> String {
    x.to_string()
}

fn texts(line: &[Span]) -> Vec<(String, Role)> {
    line.iter().map(|sp| (sp.text.clone(), sp.role)).collect()
}

fn full() -> Reference {
    Reference {
        title: s("Attention Is All You Need"),
        authors: vec![s("Ashish Vaswani"), s("Noam Shazeer")],
        year: Some(2017),
        doi: Some(s("10.5555/3295222")),
        arxiv: Some(s("1706.03762")),
        journal: Some(s("NeurIPS")),
        tags: vec![s("transformers"), s("nlp")],
        files: vec![],
        abstract_text: Some(s("Abstract text.")),
    }
}

#[test]
fn truncate_str_cuts_at_char_boundaries() {
    assert_eq!(truncate_str("hello", 3), "hel");
    assert_eq!(truncate_str("hello", 5), "hello");
    assert_eq!(truncate_str("héllo", 2), "h");
    assert_eq!(truncate_str("héllo", 3), "hé");
    assert_eq!(truncate_str("", 0), "");
    assert_eq!(truncate_str("abc", 0), "");
}

#[test]
fn truncate_ellipsis_marks_cuts() {
    assert_eq!(truncate_ellipsis("hello world", 6), "hello…");
    assert_eq!(truncate_ellipsis("hello world", 11), "hello world");
    assert_eq!(truncate_ellipsis("hello world", 1), "hello world");
    assert_eq!(truncate_ellipsis("hello world", 2), "h…");
    assert_eq!(truncate_ellipsis("ééé", 4), "é…");
}

#[test]
fn list_row_columns() {
    let row = list_row(&full(), 40);
    assert_eq!(
        texts(&row),
        vec![
            (s(" 2017 "), Role::Muted),
            (s("     Vaswani  "), Role::Dim),
            (s("Attention Is All…"), Role::Text),
        ]
    );
    let mut r = full();
    r.year = None;
    r.authors = vec![s("Bartholomew-Smithson, J.")];
    let row = list_row(&r, 10);
    assert_eq!(row[0].text, "      ");
    assert_eq!(row[1].text, "Bartholomew-  ");
    assert_eq!(row[2].text, "Attention Is All You Need");
    r.authors = vec![];
    assert_eq!(list_row(&r, 100)[1].text, "              ");
}

#[test]
fn search_line_and_cursor() {
    assert_eq!(
        texts(&search_line(&Some(s("ml")), "deep")),
        vec![(s(" search: "), Role::Muted), (s("[ml] "), Role::Warm), (s("deep"), Role::Text)]
    );
    assert_eq!(texts(&search_line(&None, "")), vec![(s(" search: "), Role::Muted)]);
    assert_eq!(search_cursor_offset(&Some(s("ml")), "deep"), 18);
    assert_eq!(search_cursor_offset(&None, "é"), 11);
    assert_eq!(search_cursor_offset(&None, ""), 9);
}

#[test]
fn status_line_by_mode() {
    let normal = status_line(InputMode::Normal, &Mode::Browse, 3, 10);
    assert_eq!(
        texts(&normal),
        vec![
            (s(" NOR "), Role::NormalBadge),
            (s("  3/10"), Role::Muted),
            (s("  / search  e edit  y bib  tab tags  q quit"), Role::Muted),
        ]
    );
    let cite = status_line(InputMode::Normal, &Mode::Cite { format: s("latex") }, 0, 0);
    assert_eq!(cite[2].text, "  / search  enter select  tab tags  q quit");
    let insert = status_line(InputMode::Insert, &Mode::Browse, 1, 1);
    assert_eq!(insert[0].text, " INS ");
    assert_eq!(insert[0].role, Role::InsertBadge);
    assert_eq!(insert[2].text, "  esc normal");
}

#[test]
fn popup_box_geometry() {
    let b = popup_box(120, 40, 5, 0);
    assert_eq!((b.x, b.y, b.width, b.height, b.visible, b.scroll), (42, 15, 36, 9, 5, 0));
    let b = popup_box(30, 10, 30, 25);
    assert_eq!((b.x, b.y, b.width, b.height, b.visible, b.scroll), (2, 0, 26, 24, 20, 6));
    let b = popup_box(3, 3, 0, 0);
    assert_eq!((b.x, b.y, b.width, b.height, b.visible, b.scroll), (1, 0, 0, 4, 0, 1));
}

#[test]
fn popup_lines() {
    assert_eq!(texts(&popup_filter_line("")), vec![(s(" type to filter..."), Role::Muted)]);
    assert_eq!(
        texts(&popup_filter_line("ml")),
        vec![(s(" > "), Role::Accent), (s("ml"), Role::Text)]
    );
    let tags = vec![s("(all)"), s("ml"), s("nlp"), s("vision")];
    let rows = popup_rows(&tags, 2, 1, 2);
    assert_eq!(rows.len(), 2);
    assert_eq!(texts(&rows[0]), vec![(s("   ml"), Role::Warm)]);
    assert_eq!(texts(&rows[1]), vec![(s(" > nlp"), Role::Selected)]);
    let rows = popup_rows(&tags, 0, 0, 20);
    assert_eq!(rows.len(), 4);
    assert_eq!(texts(&rows[0]), vec![(s(" > (all)"), Role::Selected)]);
    let rows = popup_rows(&tags, 1, 0, 20);
    assert_eq!(texts(&rows[0]), vec![(s("   (all)"), Role::Dim)]);
    assert!(popup_rows(&tags, 0, 9, 20).is_empty());
}

#[test]
fn preview_of_a_full_reference() {
    let lines: Vec<Vec<(String, Role)>> = preview_lines(&full()).iter().map(|l| texts(l)).collect();
    let expected: Vec<Vec<(String, Role)>> = vec![
        vec![],
        vec![(s("Attention Is All You Need"), Role::Title)],
        vec![(s("2017"), Role::Warm), (s(" · "), Role::Muted), (s("NeurIPS"), Role::Dim)],
        vec![],
        vec![(s("Ashish Vaswani, Noam Shazeer"), Role::Accent)],
        vec![],
        vec![(s("doi   "), Role::Muted), (s("10.5555/3295222"), Role::Dim)],
        vec![(s("arxiv "), Role::Muted), (s("1706.03762"), Role::Dim)],
        vec![(s("tags  "), Role::Muted), (s("transformers, nlp"), Role::Warm)],
        vec![],
        vec![(s("Abstract text."), Role::Dim)],
    ];
    assert_eq!(lines, expected);
}

#[test]
fn preview_of_a_bare_reference() {
    let r = Reference {
        title: s("T"),
        authors: vec![],
        year: None,
        doi: None,
        arxiv: None,
        journal: Some(s("J")),
        tags: vec![],
        files: vec![],
        abstract_text: None,
    };
    let lines: Vec<Vec<(String, Role)>> = preview_lines(&r).iter().map(|l| texts(l)).collect();
    assert_eq!(lines, vec![vec![], vec![(s("T"), Role::Title)], vec![(s("J"), Role::Dim)], vec![]]);
}
