use stickyboard::config::ThemeColors;

#[test]
fn test_theme_colors_parse_named() {
    let sample = r##"
            background = "#000000"
            foreground = "#ffffff"
            accent = "#8d8d8d"
            yellow = "#cecece"
            blue = "#8d8d8d"
            green = "#b6b6b6"
            magenta = "#9b9b9b"
            orange = "#b9b9b9"
        "##;
    let colors = ThemeColors::parse(sample);
    assert_eq!(colors.background, "#000000");
    assert_eq!(colors.foreground, "#ffffff");
    assert_eq!(colors.accent, "#8d8d8d");
    assert_eq!(colors.yellow_bg, "#cecece");
    assert_eq!(colors.blue_bg, "#8d8d8d");
    assert_eq!(colors.green_bg, "#b6b6b6");
    assert_eq!(colors.pink_bg, "#9b9b9b");
    assert_eq!(colors.orange_bg, "#b9b9b9");
}

#[test]
fn test_theme_colors_parse_ansi() {
    let sample = r##"
            background = "#000000"
            foreground = "#ffffff"
            accent = "#ff00ff"
            color3 = "#ffff00"
            color4 = "#0000ff"
        "##;
    let colors = ThemeColors::parse(sample);
    assert_eq!(colors.background, "#000000");
    assert_eq!(colors.foreground, "#ffffff");
    assert_eq!(colors.accent, "#ff00ff");
    assert_eq!(colors.yellow_bg, "#ffff00");
    assert_eq!(colors.blue_bg, "#0000ff");
}

#[test]
fn test_theme_path_resolution() {
    if let Some(path) = ThemeColors::theme_path(Some("/home/someone"), false, false) {
        assert!(path.ends_with("colors.toml"));
    }
    assert_eq!(
        ThemeColors::theme_path(Some("/home/someone"), true, true),
        Some("/home/someone/.local/state/omarchy/current/theme/colors.toml".to_string())
    );
}

#[test]
fn test_theme_path_fallback_logic() {
    let home = "/tmp/osticky_test";
    let new_file = "/tmp/osticky_test/.local/state/omarchy/current/theme/colors.toml";
    let old_file = "/tmp/osticky_test/.config/omarchy/current/theme/colors.toml";

    // 1. Neither exists -> returns new path by default
    assert_eq!(ThemeColors::resolve_theme_path(home, false, false), new_file);

    // 2. Only legacy path exists -> fallback to old path
    assert_eq!(ThemeColors::resolve_theme_path(home, false, true), old_file);

    // 3. Both exist -> prefers new path
    assert_eq!(ThemeColors::resolve_theme_path(home, true, true), new_file);

    // Only the new path exists -> new path
    assert_eq!(ThemeColors::resolve_theme_path(home, true, false), new_file);
}

#[test]
fn theme_path_needs_a_home_directory() {
    assert_eq!(ThemeColors::theme_path(None, true, true), None);
    assert_eq!(ThemeColors::theme_path(Some(""), true, true), None);
}

#[test]
fn default_colors_are_the_builtin_palette() {
    let c = ThemeColors::default_colors();
    assert_eq!(c.background, "#1e1e2e");
    assert_eq!(c.foreground, "#cdd6f4");
    assert_eq!(c.accent, "#cba6f7");
    assert_eq!(c.yellow_bg, "#fef3c7");
    assert_eq!(c.yellow_fg, "#78350f");
    assert_eq!(c.blue_bg, "#dbeafe");
    assert_eq!(c.blue_fg, "#1e3a8a");
    assert_eq!(c.green_bg, "#d1fae5");
    assert_eq!(c.green_fg, "#065f46");
    assert_eq!(c.pink_bg, "#fce7f3");
    assert_eq!(c.pink_fg, "#831843");
    assert_eq!(c.orange_bg, "#ffedd5");
    assert_eq!(c.orange_fg, "#7c2d12");
}

#[test]
fn empty_theme_keeps_defaults_and_derives_text_colours() {
    let c = ThemeColors::parse("");
    assert_eq!(c.background, "#1e1e2e");
    assert_eq!(c.foreground, "#cdd6f4");
    assert_eq!(c.accent, "#cba6f7");
    assert_eq!(c.yellow_bg, "#fef3c7");
    assert_eq!(c.yellow_fg, "#1a1a1a");
    assert_eq!(c.blue_bg, "#dbeafe");
    assert_eq!(c.blue_fg, "#1a1a1a");
    assert_eq!(c.green_bg, "#d1fae5");
    assert_eq!(c.pink_bg, "#fce7f3");
    assert_eq!(c.orange_bg, "#ffedd5");
    assert_eq!(c.orange_fg, "#1a1a1a");
}

#[test]
fn dark_backgrounds_get_light_text() {
    let c = ThemeColors::parse("yellow = '#000000'\nblue=#fff\nred = \"#101010\"");
    assert_eq!(c.yellow_bg, "#000000");
    assert_eq!(c.yellow_fg, "#f8f9fa");
    assert_eq!(c.blue_bg, "#fff");
    assert_eq!(c.blue_fg, "#1a1a1a");
    assert_eq!(c.orange_bg, "#101010");
    assert_eq!(c.orange_fg, "#f8f9fa");
}

#[test]
fn later_assignment_wins_and_comments_are_skipped() {
    let c = ThemeColors::parse("background = #111111\n# background = #999999\nbackground = #222222\r\n\n   \nno equals sign here\n");
    assert_eq!(c.background, "#222222");
}

#[test]
fn named_key_beats_ansi_index() {
    let c = ThemeColors::parse("color3 = #333333\nyellow = #444444\ncolor11 = #555555");
    assert_eq!(c.yellow_bg, "#444444");
    let c = ThemeColors::parse("color11 = #555555\nbright_yellow = #666666");
    assert_eq!(c.yellow_bg, "#666666");
    let c = ThemeColors::parse("color13 = #777777\ncolor5 = #888888");
    assert_eq!(c.pink_bg, "#888888");
    let c = ThemeColors::parse("color9 = #0a0a0a\nbright_red = #0b0b0b");
    assert_eq!(c.orange_bg, "#0b0b0b");
}

#[test]
fn values_lose_quotes_and_spaces() {
    let c = ThemeColors::parse("accent =   \" '#abcdef' \"  \nforeground= ''x''\nkey with = spaces = y");
    assert_eq!(c.accent, "'#abcdef'");
    assert_eq!(c.foreground, "x");
}

#[test]
fn unreadable_background_is_refused() {
    assert!(ThemeColors::parse_checked("yellow = a\u{e9}\u{e9}b").is_none());
    assert!(ThemeColors::parse_checked("orange = \u{e9}a").is_none());
    assert!(ThemeColors::parse_checked("accent = a\u{e9}\u{e9}b").is_some());
    let c = ThemeColors::parse_checked("green = \u{e9}\u{e9}\u{e9}").unwrap();
    assert_eq!(c.green_bg, "\u{e9}\u{e9}\u{e9}");
    assert_eq!(c.green_fg, "#1a1a1a");
}

#[test]
fn background_read_up_to_its_first_bad_channel() {
    let c = ThemeColors::parse_checked("yellow = zza\u{e9}b").unwrap();
    assert_eq!(c.yellow_bg, "zza\u{e9}b");
    assert_eq!(c.yellow_fg, "#1a1a1a");
    let c = ThemeColors::load(Some("blue = #ff\u{e9}12"));
    assert_eq!(c.blue_bg, "#ff\u{e9}12");
    assert_eq!(c.blue_fg, "#1a1a1a");
    let c = ThemeColors::parse("pink = g\u{e9}");
    assert_eq!(c.pink_fg, "#1a1a1a");
    assert!(ThemeColors::parse_checked("blue = ff1\u{e9}2").is_none());
    assert!(ThemeColors::parse_checked("pink = a\u{e9}").is_none());
}

#[test]
fn load_falls_back_to_builtin_theme() {
    let c = ThemeColors::load(None);
    assert_eq!(c.yellow_fg, "#78350f");
    let c = ThemeColors::load(Some("yellow = #000"));
    assert_eq!(c.yellow_bg, "#000");
    assert_eq!(c.yellow_fg, "#f8f9fa");
}

#[test]
fn ascii_theme_text_colours() {
    let c = ThemeColors::parse_checked("yellow = #+f+f+f\nblue = #ggg\npink=#fafafa\ngreen= 12").unwrap();
    assert_eq!(c.yellow_fg, "#f8f9fa");
    assert_eq!(c.blue_fg, "#1a1a1a");
    assert_eq!(c.pink_fg, "#1a1a1a");
    assert_eq!(c.green_fg, "#1a1a1a");
}
