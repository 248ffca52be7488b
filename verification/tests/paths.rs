use stickyboard::config::{
    first_existing, font_candidates,
    fallback_data_dir, find_bin_path, get_app_dir, get_db_path, get_socket_path, join_path,
    legacy_theme_path, new_theme_path,
};

#[test]
fn joining_paths() {
    assert_eq!(join_path("/a", "b"), "/a/b");
    assert_eq!(join_path("/a/", "b"), "/a/b");
    assert_eq!(join_path("", "b"), "b");
    assert_eq!(join_path("/a", "/b"), "/b");
    assert_eq!(join_path("/a", ""), "/a/");
}

#[test]
fn application_files() {
    assert_eq!(get_app_dir("/home/u/.local/share"), "/home/u/.local/share/stickyboard");
    assert_eq!(get_db_path("/home/u/.local/share/stickyboard"), "/home/u/.local/share/stickyboard/notes.db");
    assert_eq!(get_socket_path("/run/user/1000"), "/run/user/1000/stickyboard.sock");
    assert_eq!(fallback_data_dir(Some("/home/u")), "/home/u/.local/share");
    assert_eq!(fallback_data_dir(None), "./.local/share");
}

#[test]
fn binary_lookup() {
    assert_eq!(find_bin_path(Some("/opt/sb/stickyboard-note"), true, "stickyboard-note"), "/opt/sb/stickyboard-note");
    assert_eq!(find_bin_path(Some("/opt/sb/stickyboard-note"), false, "stickyboard-note"), "stickyboard-note");
    assert_eq!(find_bin_path(None, true, "stickyboard-note"), "stickyboard-note");
}

#[test]
fn theme_locations() {
    assert_eq!(new_theme_path("/h"), "/h/.local/state/omarchy/current/theme/colors.toml");
    assert_eq!(legacy_theme_path("/h/"), "/h/.config/omarchy/current/theme/colors.toml");
}

#[test]
fn font_search() {
    let dirs = vec!["/opt/sb/bin".to_string(), "/opt/sb".to_string(), "/opt".to_string(), "/".to_string()];
    let c = font_candidates(Some("/home/u/src"), &dirs);
    assert_eq!(
        c,
        vec![
            "/home/u/src/Excalifont-Regular.ttf".to_string(),
            "/opt/sb/bin/Excalifont-Regular.ttf".to_string(),
            "/opt/sb/Excalifont-Regular.ttf".to_string(),
            "/opt/Excalifont-Regular.ttf".to_string(),
        ]
    );
    let c = font_candidates(None, &vec!["/x".to_string()]);
    assert_eq!(c, vec!["/x/Excalifont-Regular.ttf".to_string()]);
    assert_eq!(first_existing(&vec![false, true, true]), Some(1));
    assert_eq!(first_existing(&vec![false, false]), None);
    assert_eq!(first_existing(&vec![]), None);
}
