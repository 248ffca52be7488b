use stickyboard::daemon::{
    db_error_response, get_note_response, list_notes_response, needs_window, new_note_response,
    new_note_color, note_window_args, on_note_deleted, place_new_note, reload_response,
    show_all_response, update_response, wants_cascade, RunningNotes,
};
use stickyboard::ipc::IpcResponse;
use stickyboard::models::Note;
use stickyboard::note::parse_note_id;

fn note(id: i64) -> Note {
    Note {
        id,
        text: "t".to_string(),
        color: "blue".to_string(),
        pos_x: 1,
        pos_y: 2,
        width: 3,
        height: 4,
        created_at: "c".to_string(),
        updated_at: "u".to_string(),
    }
}

fn error_text(r: &IpcResponse) -> String {
    match r {
        IpcResponse::Error { message } => message.clone(),
        _ => panic!("not an error"),
    }
}

#[test]
fn new_note_keeps_requested_colour() {
    for c in ["yellow", "blue", "green", "pink", "orange"] {
        assert_eq!(new_note_color(c), c);
    }
}

#[test]
fn cascade_of_new_notes() {
    assert!(wants_cascade(100, 100));
    assert!(!wants_cascade(100, 101));
    assert_eq!(place_new_note(100, 100, Some(0)), (100, 100));
    assert_eq!(place_new_note(100, 100, Some(1)), (140, 140));
    assert_eq!(place_new_note(100, 100, Some(4)), (260, 260));
    assert_eq!(place_new_note(100, 100, Some(5)), (100, 100));
    assert_eq!(place_new_note(100, 100, Some(12)), (180, 180));
    assert_eq!(place_new_note(100, 100, None), (100, 100));
    assert_eq!(place_new_note(5, 6, Some(3)), (5, 6));
    // a count beyond i32 wraps as `count as i32` does
    assert_eq!(place_new_note(100, 100, Some(0x8000_0001)), (20, 20));
}

#[test]
fn registry_of_running_windows() {
    let mut running: RunningNotes<&str> = RunningNotes::new();
    assert_eq!(running.len(), 0);
    assert_eq!(running.next_generation(), 0);
    assert!(needs_window(&running, 1));
    assert_eq!(running.insert(1, "h1"), (None, 0));
    assert_eq!(running.insert(2, "h2"), (None, 1));
    assert!(running.contains(1));
    assert!(!needs_window(&running, 1));
    assert_eq!(running.insert(1, "h1b"), (Some("h1"), 2));
    assert_eq!(running.len(), 2);
    assert_eq!(running.remove(1), Some("h1b"));
    assert_eq!(running.remove(1), None);
    assert!(!running.contains(1));
    running.insert(3, "h3");
    let mut drained = running.drain();
    drained.sort();
    assert_eq!(drained, vec![(2, 1, "h2"), (3, 3, "h3")]);
    assert_eq!(running.len(), 0);
    assert!(!running.contains(2));
    assert_eq!(running.next_generation(), 4);
}

#[test]
fn exit_of_a_replaced_window_keeps_the_new_one() {
    let mut running: RunningNotes<&str> = RunningNotes::new();
    let (_, old_gen) = running.insert(7, "old");
    // reload: stop everything, then start afresh
    let stopped = running.drain();
    assert_eq!(stopped.len(), 1);
    let (_, new_gen) = running.insert(7, "new");
    assert_ne!(old_gen, new_gen);
    // the old window's supervisor reports its exit
    assert_eq!(running.remove_if_current(7, old_gen), None);
    assert!(running.contains(7));
    // the new window's own exit forgets it
    assert_eq!(running.remove_if_current(7, new_gen), Some("new"));
    assert!(!running.contains(7));
    assert_eq!(running.remove_if_current(7, new_gen), None);
}

#[test]
fn deleting_a_note() {
    let mut running: RunningNotes<&str> = RunningNotes::new();
    running.insert(1, "h1");
    running.insert(2, "h2");
    let (resp, stop) = on_note_deleted(&mut running, 1, false, None);
    assert!(matches!(resp, IpcResponse::Success));
    assert_eq!(stop, Some("h1"));
    assert!(!running.contains(1));
    let (resp, stop) = on_note_deleted(&mut running, 2, true, None);
    assert!(matches!(resp, IpcResponse::Success));
    assert_eq!(stop, None);
    assert!(!running.contains(2));
    running.insert(3, "h3");
    let (resp, stop) = on_note_deleted(&mut running, 3, false, Some("locked"));
    assert_eq!(error_text(&resp), "DB Error: locked");
    assert_eq!(stop, None);
    assert!(running.contains(3));
    let (resp, stop) = on_note_deleted(&mut running, 9, false, None);
    assert!(matches!(resp, IpcResponse::Success));
    assert_eq!(stop, None);
}

#[test]
fn answers() {
    assert_eq!(error_text(&db_error_response("x")), "DB Error: x");
    assert!(matches!(new_note_response(4, None), IpcResponse::NewNoteCreated { id: 4 }));
    assert_eq!(
        error_text(&new_note_response(4, Some("no such file"))),
        "Note created in DB, but failed to spawn window: no such file"
    );
    assert!(matches!(update_response(None), IpcResponse::Success));
    assert_eq!(error_text(&update_response(Some("e"))), "DB Error: e");
    match get_note_response(Ok(note(3))) {
        IpcResponse::NoteDetails { note } => assert_eq!(note.id, 3),
        _ => panic!(),
    }
    assert_eq!(error_text(&get_note_response(Err("gone"))), "DB Error: gone");
    match list_notes_response(Ok(vec![note(1), note(2)])) {
        IpcResponse::NotesList { notes } => assert_eq!(notes.len(), 2),
        _ => panic!(),
    }
    assert_eq!(error_text(&list_notes_response(Err("e"))), "DB Error: e");
    assert!(matches!(show_all_response(None), IpcResponse::Success));
    assert_eq!(error_text(&show_all_response(Some("e"))), "Failed to show all notes: e");
    assert!(matches!(reload_response(None), IpcResponse::Success));
    assert_eq!(error_text(&reload_response(Some("e"))), "Failed to spawn notes on reload: e");
}

#[test]
fn window_reads_back_its_note_id() {
    for id in [0i64, 17, -4, i64::MAX, i64::MIN] {
        let args = note_window_args(id);
        assert_eq!(args[0], "--id");
        assert_eq!(args[1], id.to_string());
        let mut argv = vec!["/usr/bin/stickyboard-note".to_string()];
        argv.extend(args);
        assert_eq!(parse_note_id(&argv), Some(id));
    }
}
