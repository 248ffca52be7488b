use stickyboard::hyprland::{
    find_client_by_title, move_window_cmd, note_window_title, position_note_window, resize_window_cmd,
    HyprClient, HyprWorkspaceRef,
};

fn client(address: &str, title: &str, at: [i32; 2], size: [i32; 2]) -> HyprClient {
    HyprClient {
        address: address.to_string(),
        title: title.to_string(),
        class: "stickyboard-note".to_string(),
        at,
        size,
        workspace: HyprWorkspaceRef { id: 6, name: "6".to_string() },
    }
}

#[test]
fn window_titles() {
    assert_eq!(note_window_title(7), "stickyboard-note-7");
    assert_eq!(note_window_title(-3), "stickyboard-note--3");
}

#[test]
fn commands() {
    assert_eq!(move_window_cmd(10, -20, "0xabc"), "dispatch movewindowpixel exact 10 -20,address:0xabc");
    assert_eq!(resize_window_cmd(300, 250, "0xabc"), "dispatch resizewindowpixel exact 300 250,address:0xabc");
}

#[test]
fn finds_first_window_with_exact_title() {
    let clients = vec![
        client("0x1", "stickyboard-note-10", [0, 0], [1, 1]),
        client("0x2", "stickyboard-note-1", [0, 0], [1, 1]),
        client("0x3", "stickyboard-note-1", [0, 0], [1, 1]),
    ];
    let found = find_client_by_title(clients, "stickyboard-note-1").unwrap();
    assert_eq!(found.address, "0x2");
    let clients = vec![client("0x1", "other", [0, 0], [1, 1])];
    assert!(find_client_by_title(clients, "stickyboard-note-1").is_none());
    assert!(find_client_by_title(Vec::new(), "x").is_none());
}

#[test]
fn positions_the_note_window() {
    let clients = vec![
        client("0xa", "firefox", [0, 0], [1, 1]),
        client("0xb", "stickyboard-note-5", [0, 0], [1, 1]),
    ];
    let (m, r) = position_note_window(5, 140, 140, 300, 250, clients).unwrap();
    assert_eq!(m, "dispatch movewindowpixel exact 140 140,address:0xb");
    assert_eq!(r, "dispatch resizewindowpixel exact 300 250,address:0xb");
    let clients = vec![client("0xa", "firefox", [0, 0], [1, 1])];
    assert!(position_note_window(5, 1, 2, 3, 4, clients).is_none());
}
