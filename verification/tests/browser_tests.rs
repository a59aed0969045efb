use carina::model::Reference;
use carina::tui::{
    browse, cite, collect_tags, order_by_score, ranked_entries, Action, AppState, Entry, Key, KeyCode,
    LayoutMode, Mode, Mods, ResolvedLayout, TagPopup, InputMode,
};

fn s(x: &str) -> String {
    x.to_string()
}

fn reference(title: &str, authors: &[&str], year: Option<u16>, tags: &[&str]) -> Reference {
    Reference {
        title: s(title),
        authors: authors.iter().map(|a| s(a)).collect(),
        year,
        doi: None,
        arxiv: None,
        journal: None,
        tags: tags.iter().map(|t| s(t)).collect(),
        files: vec![],
        abstract_text: None,
    }
}

fn entries() -> Vec<Entry> {
    vec![
        Entry::new(s("vaswani-2017-attention"), reference("Attention Is All You Need", &["Ashish Vaswani"], Some(2017), &["nlp", "transformers"])),
        Entry::new(s("lecun-2015-deep"), reference("Deep learning", &["Yann LeCun"], Some(2015), &["ml"])),
        Entry::new(s("he-2016-deep"), reference("Deep Residual Learning", &["Kaiming He"], Some(2016), &["vision", "ml"])),
    ]
}

fn key(c: char) -> Key {
    Key { code: KeyCode::Char(c), mods: Mods::Plain }
}

fn code(k: KeyCode) -> Key {
    Key { code: k, mods: Mods::Plain }
}

fn ctrl(c: char) -> Key {
    Key { code: KeyCode::Char(c), mods: Mods::Control }
}

#[test]
fn layout_from_config_and_width() {
    assert_eq!(LayoutMode::from_config(Some("wide")), LayoutMode::Wide);
    assert_eq!(LayoutMode::from_config(Some("tall")), LayoutMode::Tall);
    assert_eq!(LayoutMode::from_config(Some("side")), LayoutMode::Auto);
    assert_eq!(LayoutMode::from_config(None), LayoutMode::Auto);
    assert_eq!(LayoutMode::Auto.resolve(100, 30), ResolvedLayout::Wide);
    assert_eq!(LayoutMode::Auto.resolve(99, 30), ResolvedLayout::Tall);
    assert_eq!(LayoutMode::Tall.resolve(200, 30), ResolvedLayout::Tall);
    assert_eq!(LayoutMode::Wide.resolve(10, 30), ResolvedLayout::Wide);
}

#[test]
fn tag_popup_filters_and_moves() {
    let tags = vec![s("ml"), s("nlp"), s("vision")];
    let mut p = TagPopup::new(&tags);
    assert_eq!(p.filtered_tags, vec!["(all)", "ml", "nlp", "vision"]);
    assert_eq!(p.selected, 0);
    p.move_up();
    assert_eq!(p.selected, 0);
    p.move_down();
    p.move_down();
    p.move_down();
    p.move_down();
    assert_eq!(p.selected, 3);
    assert_eq!(p.selected_tag(), Some(s("vision")));
    p.filter.push('N');
    p.rebuild(&tags);
    assert_eq!(p.filtered_tags, vec!["nlp", "vision"]);
    assert_eq!(p.selected, 1);
    p.filter.push('z');
    p.rebuild(&tags);
    assert!(p.filtered_tags.is_empty());
    assert_eq!(p.selected, 0);
    assert_eq!(p.selected_tag(), None);
    p.filter = s("L");
    p.rebuild(&tags);
    assert_eq!(p.filtered_tags, vec!["(all)", "ml", "nlp"]);
}

#[test]
fn tags_are_collected_sorted_and_once() {
    assert_eq!(collect_tags(&entries()), vec!["ml", "nlp", "transformers", "vision"]);
}

#[test]
fn order_by_score_is_stable_and_descending() {
    assert_eq!(order_by_score(&vec![5, 9, 5, 1, 9]), vec![1, 4, 0, 2, 3]);
    assert!(order_by_score(&vec![]).is_empty());
}

#[test]
fn ranked_entries_without_search_keep_library_order() {
    let es = entries();
    assert_eq!(ranked_entries(&es, &None, &s("")), vec![0, 1, 2]);
    assert_eq!(ranked_entries(&es, &Some(s("ml")), &s("")), vec![1, 2]);
    assert_eq!(ranked_entries(&es, &Some(s("ML")), &s("")), Vec::<usize>::new());
}

#[test]
fn ranked_entries_with_search_keep_matches_only() {
    let es = entries();
    assert_eq!(ranked_entries(&es, &None, &s("attention")), vec![0]);
    assert_eq!(ranked_entries(&es, &None, &s("zzzzqqq")), Vec::<usize>::new());
    let deep = ranked_entries(&es, &None, &s("deep"));
    assert_eq!(deep.len(), 2);
    assert!(deep.contains(&1) && deep.contains(&2));
    assert_eq!(ranked_entries(&es, &Some(s("vision")), &s("deep")), vec![2]);
}

#[test]
fn new_browser_selects_first_and_types() {
    let app = AppState::new(entries(), Mode::Browse, None, LayoutMode::Auto);
    assert_eq!(app.filtered_indices, vec![0, 1, 2]);
    assert_eq!(app.selected, Some(0));
    assert_eq!(app.input_mode, InputMode::Insert);
    assert_eq!(app.all_tags, vec!["ml", "nlp", "transformers", "vision"]);
    let app = AppState::new(entries(), Mode::Browse, Some("residual"), LayoutMode::Auto);
    assert_eq!(app.filter, "residual");
    assert_eq!(app.filtered_indices, vec![2]);
    let app = AppState::new(vec![], Mode::Browse, None, LayoutMode::Auto);
    assert_eq!(app.selected, None);
}

#[test]
fn typing_then_backspace_restores_the_list() {
    let mut app = AppState::new(entries(), Mode::Browse, None, LayoutMode::Auto);
    let before = app.filtered_indices.clone();
    assert_eq!(app.handle_key(key('q'), 10), Action::Nothing);
    assert_eq!(app.filter, "q");
    assert_eq!(app.last_insert_ms, Some(10));
    assert_eq!(app.handle_key(code(KeyCode::Backspace), 20), Action::Nothing);
    assert_eq!(app.filter, "");
    assert_eq!(app.filtered_indices, before);
    assert_eq!(app.selected, Some(0));
    assert_eq!(app.last_insert_ms, None);
}

#[test]
fn jk_leaves_insert_mode_within_half_a_second() {
    let mut app = AppState::new(entries(), Mode::Browse, Some("deep"), LayoutMode::Auto);
    let before = app.filtered_indices.clone();
    app.handle_key(key('j'), 1000);
    assert_eq!(app.filter, "deepj");
    app.handle_key(key('k'), 1499);
    assert_eq!(app.input_mode, InputMode::Normal);
    assert_eq!(app.filter, "deep");
    assert_eq!(app.filtered_indices, before);
    // too slow: the k is typed
    let mut app = AppState::new(entries(), Mode::Browse, None, LayoutMode::Auto);
    app.handle_key(key('j'), 1000);
    app.handle_key(key('k'), 1500);
    assert_eq!(app.input_mode, InputMode::Insert);
    assert_eq!(app.filter, "jk");
}

#[test]
fn normal_mode_moves_and_quits() {
    let mut app = AppState::new(entries(), Mode::Browse, None, LayoutMode::Auto);
    app.handle_key(code(KeyCode::Esc), 0);
    assert_eq!(app.input_mode, InputMode::Normal);
    app.handle_key(key('j'), 0);
    assert_eq!(app.selected, Some(1));
    app.handle_key(key('G'), 0);
    assert_eq!(app.selected, Some(2));
    app.handle_key(code(KeyCode::Down), 0);
    assert_eq!(app.selected, Some(2));
    app.handle_key(key('g'), 0);
    assert_eq!(app.selected, Some(0));
    app.handle_key(ctrl('f'), 0);
    assert_eq!(app.selected, Some(2));
    app.handle_key(ctrl('b'), 0);
    assert_eq!(app.selected, Some(0));
    app.handle_key(key('k'), 0);
    assert_eq!(app.selected, Some(0));
    assert_eq!(app.handle_key(key('e'), 0), Action::Edit(0));
    assert_eq!(app.handle_key(key('y'), 0), Action::CopyBib(0));
    assert_eq!(app.handle_key(code(KeyCode::Enter), 0), Action::Open(0));
    assert!(!app.should_quit);
    app.handle_key(key('/'), 0);
    assert_eq!(app.input_mode, InputMode::Insert);
    app.handle_key(ctrl('c'), 0);
    assert!(app.should_quit);
}

#[test]
fn tag_picker_sets_and_clears_the_tag_filter() {
    let mut app = AppState::new(entries(), Mode::Browse, None, LayoutMode::Auto);
    app.handle_key(code(KeyCode::Tab), 0);
    assert!(app.tag_popup.is_some());
    app.handle_key(key('v'), 0);
    assert_eq!(app.tag_popup.as_ref().unwrap().filtered_tags, vec!["vision"]);
    app.handle_key(code(KeyCode::Enter), 0);
    assert!(app.tag_popup.is_none());
    assert_eq!(app.tag_filter, Some(s("vision")));
    assert_eq!(app.filtered_indices, vec![2]);
    app.handle_key(code(KeyCode::Tab), 0);
    app.handle_key(code(KeyCode::Enter), 0);
    assert_eq!(app.tag_filter, None);
    assert_eq!(app.filtered_indices, vec![0, 1, 2]);
    app.handle_key(code(KeyCode::Tab), 0);
    app.handle_key(code(KeyCode::Esc), 0);
    assert!(app.tag_popup.is_none());
    assert_eq!(app.input_mode, InputMode::Insert);
}

#[test]
fn cite_keeps_the_key_and_quits() {
    let mut app = cite(entries(), "latex", LayoutMode::Auto).ok().unwrap();
    app.handle_key(key('d'), 0);
    app.handle_key(key('e'), 0);
    app.handle_key(key('e'), 0);
    app.handle_key(key('p'), 0);
    app.handle_key(code(KeyCode::Esc), 0);
    app.handle_key(key('j'), 0);
    let chosen = app.filtered_indices[app.selected.unwrap()];
    assert_eq!(app.handle_key(code(KeyCode::Enter), 0), Action::Nothing);
    assert!(app.should_quit);
    let expected = format!("\\cite{{{}}}", app.entries[chosen].dir_name);
    assert_eq!(app.pending_output, Some(expected));
}

#[test]
fn cite_and_browse_on_an_empty_library() {
    match cite(vec![], "plain", LayoutMode::Auto) {
        Err(m) => assert_eq!(m, "Library is empty"),
        Ok(_) => panic!("an empty library has nothing to cite"),
    }
    assert!(browse(vec![], Some("x"), LayoutMode::Auto).is_none());
    let app = browse(entries(), Some("deep"), LayoutMode::Wide).unwrap();
    assert_eq!(app.filter, "deep");
}

#[test]
fn refreshing_an_entry_updates_its_line() {
    let mut app = AppState::new(entries(), Mode::Browse, None, LayoutMode::Auto);
    app.refresh_entry(1, reference("Deep learning", &["Yann LeCun", "Yoshua Bengio"], Some(2015), &[]));
    assert_eq!(app.entries[1].display, "Yann LeCun et al.  (2015)  Deep learning");
    assert_eq!(app.entries[1].dir_name, "lecun-2015-deep");
    assert_eq!(app.filtered_indices, vec![0, 1, 2]);
}

#[test]
fn every_key_keeps_the_list_consistent() {
    let mut app = AppState::new(entries(), Mode::Browse, None, LayoutMode::Auto);
    let keys = vec![key('d'), key('e'), code(KeyCode::Tab), key('m'), code(KeyCode::Enter), code(KeyCode::Backspace), code(KeyCode::Esc), key('j'), code(KeyCode::Tab), code(KeyCode::Down), code(KeyCode::Enter)];
    for (t, k) in keys.into_iter().enumerate() {
        app.handle_key(k, t as u64 * 1000);
        let expected = ranked_entries(&app.entries, &app.tag_filter, &app.filter);
        assert_eq!(app.filtered_indices, expected);
        match app.selected {
            Some(i) => assert!(i < app.filtered_indices.len()),
            None => assert!(app.filtered_indices.is_empty()),
        }
    }
}

#[test]
fn long_searches_are_refused_and_lines_checked() {
    // one long word is one atom of the matcher
    let word = "a".repeat(70000);
    assert!(carina::tui::search_fits_matcher(&word));
    let app = AppState::new(entries(), Mode::Browse, Some(&word), LayoutMode::Auto);
    assert!(app.accepts_key(key('b'), 0));
    // the matcher sums one score per word: a search of more words is refused
    let many = "a ".repeat(65537);
    assert!(carina::tui::search_fits_matcher(&many));
    assert!(!carina::tui::search_fits_matcher(&format!("{}b", many)));
    let app = AppState::new(entries(), Mode::Browse, Some(&many), LayoutMode::Auto);
    assert!(!app.accepts_key(key('b'), 0));
    assert!(app.accepts_key(key(' '), 0));
    assert!(app.accepts_key(code(KeyCode::Backspace), 0));
    assert!(app.accepts_key(code(KeyCode::Tab), 0));
    let short = AppState::new(entries(), Mode::Browse, Some("deep"), LayoutMode::Auto);
    assert!(short.accepts_key(key('b'), 0));
    assert!(carina::tui::line_fits_matcher("Ashish Vaswani  (2017)  Attention Is All You Need"));
}

#[test]
fn y_copies_the_bibtex_of_the_selection() {
    let mut app = AppState::new(entries(), Mode::Browse, None, LayoutMode::Auto);
    app.handle_key(code(KeyCode::Esc), 0);
    app.handle_key(key('j'), 0);
    assert_eq!(app.handle_key(key('y'), 0), Action::CopyBib(1));
    assert_eq!(
        app.bibtex_at(1),
        "@article{lecun-2015-deep,\n  title = {Deep learning},\n  author = {Yann LeCun},\n  year = {2015},\n}"
    );
}
