use carina::model::Reference;
use carina::naming::{last_name, make_dir_name, unique_dir_name};

fn reference(title: &str, authors: &[&str], year: Option<u16>) -> Reference {
    Reference {
        title: title.to_string(),
        authors: authors.iter().map(|a| a.to_string()).collect(),
        year,
        doi: None,
        arxiv: None,
        journal: None,
        tags: vec![],
        files: vec![],
        abstract_text: None,
    }
}

#[test]
fn last_name_forms() {
    assert_eq!(last_name("Vaswani, Ashish"), "Vaswani");
    assert_eq!(last_name("  de la Cruz , Maria"), "de la Cruz");
    assert_eq!(last_name("Ashish Vaswani"), "Vaswani");
    assert_eq!(last_name("Plato"), "Plato");
    assert_eq!(last_name("   "), "   ");
    assert_eq!(last_name(""), "");
}

#[test]
fn dir_name_of_the_readme_example() {
    let r = reference("Attention Is All You Need", &["Ashish Vaswani", "Noam Shazeer"], Some(2017));
    assert_eq!(make_dir_name(&r), "vaswani-2017-attention");
}

#[test]
fn dir_name_skips_stop_words() {
    let r = reference("Deep learning", &["LeCun, Yann"], Some(2015));
    assert_eq!(make_dir_name(&r), "lecun-2015-deep");
    let r = reference("The Art of War", &["Sun Tzu"], None);
    assert_eq!(make_dir_name(&r), "tzu-0000-art");
    let r = reference("On the Origin of Species", &[], Some(1859));
    assert_eq!(make_dir_name(&r), "unknown-1859-origin");
}

#[test]
fn dir_name_without_usable_words() {
    let r = reference("On The of", &[], None);
    assert_eq!(make_dir_name(&r), "unknown-0000-untitled");
    let r = reference("", &[], None);
    assert_eq!(make_dir_name(&r), "unknown-0000-untitled");
}

#[test]
fn dir_name_transliterates() {
    let r = reference("Über Graphen!", &["Jürgen Müller"], Some(2001));
    assert_eq!(make_dir_name(&r), "muller-2001-uber");
}

#[test]
fn unique_name_numbers_from_two() {
    let taken: Vec<String> = vec![];
    assert_eq!(unique_dir_name("vaswani-2017-attention", &taken), "vaswani-2017-attention");
    let taken = vec!["vaswani-2017-attention".to_string()];
    assert_eq!(unique_dir_name("vaswani-2017-attention", &taken), "vaswani-2017-attention-2");
    let taken = vec!["x".to_string(), "x-2".to_string(), "x-3".to_string(), "y".to_string()];
    assert_eq!(unique_dir_name("x", &taken), "x-4");
}

#[test]
fn unique_name_is_never_taken() {
    let taken: Vec<String> = (0..12).map(|n| if n < 2 { "p".to_string() } else { format!("p-{}", n) }).collect();
    let name = unique_dir_name("p", &taken);
    assert!(!taken.contains(&name));
    assert_eq!(name, "p-12");
}
