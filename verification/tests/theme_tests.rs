use carina::theme::{builtin, choose_theme, theme_name, Rgb, ThemeConfig, UiConfig};

fn s(x: &str) -> String {
    x.to_string()
}

fn rgb(r: u8, g: u8, b: u8) -> Rgb {
    Rgb { r, g, b }
}

fn ui_text(name: &str) -> UiConfig {
    UiConfig {
        text: Some(s(name)),
        text_dim: None,
        text_muted: None,
        accent: None,
        warm: None,
        border: None,
        selection: None,
    }
}

#[test]
fn builtin_themes() {
    assert_eq!(builtin("gruvbox").text, rgb(235, 219, 178));
    assert_eq!(builtin("catppuccin-mocha").selection, rgb(49, 50, 68));
    assert_eq!(builtin("rose-pine").accent, rgb(196, 167, 231));
    assert_eq!(builtin("kanagawa").warm, rgb(226, 194, 114));
    assert_eq!(builtin("catppuccin-frappe").border, rgb(65, 69, 89));
    let default = builtin("tokyo-night-moon");
    assert_eq!(default.text, rgb(200, 211, 245));
    assert_eq!(default.selection, rgb(47, 51, 77));
    assert_eq!(builtin("no-such-theme"), default);
}

#[test]
fn theme_name_defaults() {
    assert_eq!(theme_name(None), "tokyo-night-moon");
    assert_eq!(theme_name(Some("gruvbox")), "gruvbox");
}

#[test]
fn palette_colours_replace_roles() {
    let base = builtin("gruvbox");
    let cfg = ThemeConfig { colors: vec![(s("fg"), s("#11aAFf"))], ui: Some(ui_text("fg")) };
    assert!(cfg.is_safe());
    let t = cfg.resolve(&base);
    assert_eq!(t.text, rgb(0x11, 0xaa, 0xff));
    assert_eq!(t.accent, base.accent);
    let cfg = ThemeConfig { colors: vec![(s("fg"), s("#+f+f+f"))], ui: Some(ui_text("fg")) };
    assert_eq!(cfg.resolve(&base).text, rgb(15, 15, 15));
}

#[test]
fn unreadable_colours_keep_the_base() {
    let base = builtin("kanagawa");
    for bad in ["112233", "#12345", "#1234567", "#gg0000", "#-10000", "#é1234"] {
        let cfg = ThemeConfig { colors: vec![(s("c"), s(bad))], ui: Some(ui_text("c")) };
        assert!(cfg.is_safe());
        assert_eq!(cfg.resolve(&base).text, base.text, "{}", bad);
    }
    let cfg = ThemeConfig { colors: vec![(s("c"), s("#112233"))], ui: Some(ui_text("missing")) };
    assert_eq!(cfg.resolve(&base).text, base.text);
}

#[test]
fn text_cut_inside_a_character_is_unsafe() {
    let cfg = ThemeConfig { colors: vec![(s("c"), s("#aé123"))], ui: Some(ui_text("c")) };
    assert!(!cfg.is_safe());
    // an unused palette entry does not matter
    let cfg = ThemeConfig { colors: vec![(s("c"), s("#aé123"))], ui: Some(ui_text("other")) };
    assert!(cfg.is_safe());
}

#[test]
fn file_without_roles_keeps_theme() {
    let base = builtin("rose-pine");
    let cfg = ThemeConfig { colors: vec![(s("fg"), s("#000000"))], ui: None };
    assert_eq!(cfg.resolve(&base), base);
    assert_eq!(choose_theme("rose-pine", Some(&cfg)), base);
    assert_eq!(choose_theme("gruvbox", None), builtin("gruvbox"));
}

#[test]
fn palette_names_must_be_sorted() {
    let sorted = ThemeConfig { colors: vec![(s("a"), s("#000001")), (s("b"), s("#000002"))], ui: Some(ui_text("b")) };
    assert!(sorted.palette_sorted());
    assert_eq!(sorted.resolve(&builtin("gruvbox")).text, rgb(0, 0, 2));
    let unsorted = ThemeConfig { colors: vec![(s("b"), s("#000001")), (s("a"), s("#000002"))], ui: None };
    assert!(!unsorted.palette_sorted());
    let twice = ThemeConfig { colors: vec![(s("a"), s("#000001")), (s("a"), s("#000002"))], ui: None };
    assert!(!twice.palette_sorted());
}
