use std::collections::HashMap;

use editor_core::theme::{
    absorb_theme_file, cache_themes, get_cached_themes, is_theme_file, linux_theme_step,
    macos_theme, windows_theme, ProbeStep, ThemeCache, ThemeProbe, TomlTheme, TomlThemeFile,
};

fn theme(id: &str, name: &str) -> TomlTheme {
    let mut vars = HashMap::new();
    vars.insert("--bg".to_string(), "#000".to_string());
    TomlTheme {
        id: id.to_string(),
        name: name.to_string(),
        description: String::new(),
        category: "Dark".to_string(),
        is_dark: Some(true),
        css_variables: vars,
        syntax_tokens: None,
    }
}

fn decided(step: ProbeStep) -> Option<String> {
    match step {
        ProbeStep::Theme(t) => Some(t),
        ProbeStep::Ask(_) => None,
    }
}

fn asks(step: ProbeStep) -> Option<ThemeProbe> {
    match step {
        ProbeStep::Theme(_) => None,
        ProbeStep::Ask(p) => Some(p),
    }
}

#[test]
fn cache_keeps_last_theme_per_id() {
    let mut cache = ThemeCache::new();
    assert!(get_cached_themes(&cache).is_empty());
    cache_themes(vec![theme("a", "first"), theme("b", "bee"), theme("a", "second")], &mut cache);
    let cached = get_cached_themes(&cache);
    assert_eq!(cached.len(), 2);
    let a = cached.iter().find(|t| t.id == "a").unwrap();
    assert_eq!(a.name, "second");
    cache_themes(vec![theme("b", "bee2")], &mut cache);
    let cached = get_cached_themes(&cache);
    assert_eq!(cached.len(), 2);
    assert_eq!(cached.iter().find(|t| t.id == "b").unwrap().name, "bee2");
    assert_eq!(cached.iter().find(|t| t.id == "a").unwrap().name, "second");
}

#[test]
fn theme_file_holds_its_themes() {
    let file = TomlThemeFile { themes: vec![theme("x", "X")] };
    assert_eq!(file.themes.len(), 1);
    assert_eq!(file.themes[0].css_variables.get("--bg").map(|s| s.as_str()), Some("#000"));
}

#[test]
fn gnome_color_scheme_decides() {
    let out = |s: &str| Some(s.as_bytes().to_vec());
    assert_eq!(decided(linux_theme_step(ThemeProbe::GnomeColorScheme, out("'prefer-dark'\n"))).as_deref(), Some("dark"));
    assert_eq!(decided(linux_theme_step(ThemeProbe::GnomeColorScheme, out("  \"prefer-light\" "))).as_deref(), Some("light"));
    assert_eq!(asks(linux_theme_step(ThemeProbe::GnomeColorScheme, out("'default'\n"))), Some(ThemeProbe::GtkTheme));
    assert_eq!(asks(linux_theme_step(ThemeProbe::GnomeColorScheme, None)), Some(ThemeProbe::GtkTheme));
}

#[test]
fn gtk_and_kde_themes_decide() {
    let out = |s: &str| Some(s.as_bytes().to_vec());
    assert_eq!(decided(linux_theme_step(ThemeProbe::GtkTheme, out("'Adwaita-DARK'\n"))).as_deref(), Some("dark"));
    assert_eq!(asks(linux_theme_step(ThemeProbe::GtkTheme, out("'Adwaita'\n"))), Some(ThemeProbe::KdeColorScheme));
    assert_eq!(asks(linux_theme_step(ThemeProbe::GtkTheme, None)), Some(ThemeProbe::KdeColorScheme));
    assert_eq!(decided(linux_theme_step(ThemeProbe::KdeColorScheme, out("BreezeDark\n"))).as_deref(), Some("dark"));
    assert_eq!(decided(linux_theme_step(ThemeProbe::KdeColorScheme, out("Breeze\n"))).as_deref(), Some("light"));
    assert_eq!(decided(linux_theme_step(ThemeProbe::KdeColorScheme, None)).as_deref(), Some("light"));
}

#[test]
fn macos_and_windows_themes() {
    assert_eq!(macos_theme(Some(b"Dark\n".to_vec())), "dark");
    assert_eq!(macos_theme(Some(b"darker".to_vec())), "light");
    assert_eq!(macos_theme(None), "light");
    assert_eq!(windows_theme(Some(b"    AppsUseLightTheme    REG_DWORD    0x0\r\n".to_vec())), "dark");
    assert_eq!(windows_theme(Some(b"    AppsUseLightTheme    REG_DWORD    0x1\r\n".to_vec())), "light");
    assert_eq!(windows_theme(None), "light");
}

#[test]
fn only_toml_files_are_theme_files() {
    assert!(is_theme_file(true, Some("toml")));
    assert!(!is_theme_file(true, Some("json")));
    assert!(!is_theme_file(false, Some("toml")));
    assert!(!is_theme_file(true, None));
}

#[test]
fn loaded_theme_files_are_gathered() {
    let mut all = vec![theme("a", "A")];
    assert_eq!(absorb_theme_file(&mut all, Ok(vec![theme("b", "B"), theme("c", "C")])), None);
    assert_eq!(all.iter().map(|t| t.id.as_str()).collect::<Vec<_>>(), vec!["a", "b", "c"]);
    assert_eq!(absorb_theme_file(&mut all, Err("bad file".to_string())), Some("bad file".to_string()));
    assert_eq!(all.len(), 3);
}

#[test]
fn listing_after_caching_has_one_last_theme_per_id() {
    let mut cache = ThemeCache::new();
    cache_themes(
        vec![theme("a", "1"), theme("b", "2"), theme("a", "3"), theme("c", "4"), theme("b", "5")],
        &mut cache,
    );
    let mut got: Vec<(String, String)> =
        get_cached_themes(&cache).iter().map(|t| (t.id.clone(), t.name.clone())).collect();
    got.sort();
    assert_eq!(
        got,
        vec![
            ("a".to_string(), "3".to_string()),
            ("b".to_string(), "5".to_string()),
            ("c".to_string(), "4".to_string()),
        ]
    );
}
