use stickyboard::cli::note_preview;
use stickyboard::daemon::place_new_note;
use stickyboard::hyprland::note_window_title;
use stickyboard::config::ThemeColors;
use stickyboard::note::{track_geometry, NoteGeometry};

#[test]
fn comment_line_after_a_theme_changes_nothing() {
    let a = "yellow = #000000\nbackground = #123456";
    let with_comment = format!("{}\n   # yellow = #ffffff", a);
    let x = ThemeColors::parse(a);
    let y = ThemeColors::parse(&with_comment);
    assert_eq!(x.yellow_bg, y.yellow_bg);
    assert_eq!(x.yellow_fg, y.yellow_fg);
    assert_eq!(x.background, y.background);
}

#[test]
fn later_line_wins_for_background() {
    let c = ThemeColors::parse("background = #111111\nbackground = '#222222'");
    assert_eq!(c.background, "#222222");
}

#[test]
fn text_colour_follows_background() {
    let c = ThemeColors::parse("yellow=#ffffff\nblue=#000000\ngreen=#808080\npink=#7f7f7f\norange=zz");
    assert_eq!(c.yellow_fg, "#1a1a1a");
    assert_eq!(c.blue_fg, "#f8f9fa");
    assert_eq!(c.green_fg, "#1a1a1a");
    assert_eq!(c.pink_fg, "#f8f9fa");
    assert_eq!(c.orange_fg, "#1a1a1a");
}

#[test]
fn geometry_recovery_is_idempotent() {
    let mut g = NoteGeometry { pos_x: 0, pos_y: 0, width: 1, height: 1 };
    assert!(track_geometry(&mut g, [5, 6], [7, 8]));
    assert!(!track_geometry(&mut g, [5, 6], [7, 8]));
}

#[test]
fn distinct_notes_have_distinct_window_titles() {
    assert_ne!(note_window_title(1), note_window_title(11));
    assert_ne!(note_window_title(-1), note_window_title(1));
}

#[test]
fn cascade_repeats_every_five_notes() {
    for count in 0usize..20 {
        let (x, y) = place_new_note(100, 100, Some(count));
        assert_eq!((x, y), place_new_note(100, 100, Some(count + 5)));
        assert!((100..=260).contains(&x));
        assert_eq!(x, y);
    }
}

#[test]
fn previews_fit_their_column() {
    for n in [0usize, 1, 29, 30, 31, 100] {
        let p = note_preview(&"ab\n".repeat(n));
        assert!(p.chars().count() <= 30);
        assert!(!p.contains('\n'));
    }
}
