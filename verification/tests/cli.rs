use stickyboard::cli::{
    export_item, geometry_text, import_request, import_step, import_summary, list_header, list_lines,
    list_row, list_separator, new_note_report, note_preview, simple_report, ImportNote, ImportStep,
    Report,
};
use stickyboard::ipc::{IpcRequest, IpcResponse};
use stickyboard::models::Note;

fn note(id: i64, text: &str) -> Note {
    Note {
        id,
        text: text.to_string(),
        color: "yellow".to_string(),
        pos_x: 100,
        pos_y: 140,
        width: 300,
        height: 250,
        created_at: "c".to_string(),
        updated_at: "u".to_string(),
    }
}

fn out(r: Report) -> String {
    match r {
        Report::Stdout(s) => s,
        Report::Stderr(s) => panic!("stderr: {}", s),
    }
}

fn err(r: Report) -> String {
    match r {
        Report::Stderr(s) => s,
        Report::Stdout(s) => panic!("stdout: {}", s),
    }
}

#[test]
fn previews() {
    assert_eq!(note_preview("a\nb"), "a b");
    let thirty = "x".repeat(30);
    assert_eq!(note_preview(&thirty), thirty);
    let long = "y".repeat(31);
    assert_eq!(note_preview(&long), format!("{}...", "y".repeat(27)));
    assert_eq!(note_preview(&"\u{e9}".repeat(40)).chars().count(), 30);
}

#[test]
fn listing() {
    assert_eq!(list_header(), format!("{:<6} {:<10} {:<15} {}", "ID", "COLOR", "GEOMETRY", "TEXT"));
    assert_eq!(list_separator(), "-".repeat(60));
    assert_eq!(geometry_text(100, -5, 300, 250), "(100,-5) 300x250");
    let n = note(12, "hello\nworld");
    assert_eq!(
        list_row(&n),
        format!("{:<6} {:<10} {:<15} {}", 12, "yellow", "(100,140) 300x250", "hello world")
    );
    let lines = list_lines(&vec![]);
    assert_eq!(lines, vec!["No notes found.".to_string()]);
    let lines = list_lines(&vec![note(1, "a"), note(2, "b")]);
    assert_eq!(lines.len(), 4);
    assert_eq!(lines[1], "-".repeat(60));
    assert_eq!(lines[3], list_row(&note(2, "b")));
}

#[test]
fn reports() {
    assert_eq!(out(simple_report(Ok(IpcResponse::Success), "Success: Notes reloaded.")), "Success: Notes reloaded.");
    assert_eq!(err(simple_report(Ok(IpcResponse::Error { message: "m".to_string() }), "s")), "Error from daemon: m");
    assert_eq!(err(simple_report(Err("refused"), "s")), "Error connecting to daemon: refused");
    assert_eq!(err(simple_report(Ok(IpcResponse::NewNoteCreated { id: 1 }), "s")), "Unexpected response from daemon.");
    assert_eq!(out(new_note_report(Ok(IpcResponse::NewNoteCreated { id: 42 }))), "Success: Created note with ID 42.");
    assert_eq!(err(new_note_report(Ok(IpcResponse::Success))), "Unexpected response from daemon.");
}

#[test]
fn export_and_import() {
    let e = export_item(note(5, "t"));
    assert_eq!((e.id, e.text.as_str(), e.color.as_str(), e.pos_x, e.pos_y, e.width, e.height), (5, "t", "yellow", 100, 140, 300, 250));
    let item = ImportNote { text: "t".to_string(), color: None, pos_x: None, pos_y: Some(7), width: None, height: Some(9) };
    match import_request(item) {
        IpcRequest::NewNote { text, color, pos_x, pos_y, width, height } => {
            assert_eq!((text.as_str(), color.as_str(), pos_x, pos_y, width, height), ("t", "yellow", 100, 7, 300, 9));
        }
        _ => panic!(),
    }
    assert!(matches!(import_step(Ok(IpcResponse::NewNoteCreated { id: 1 })), ImportStep::Imported));
    match import_step(Ok(IpcResponse::Error { message: "bad".to_string() })) {
        ImportStep::Failed(m) => assert_eq!(m, "Failed to import note: bad"),
        _ => panic!(),
    }
    match import_step(Err("down")) {
        ImportStep::Abort(m) => assert_eq!(m, "Error connecting to daemon: down"),
        _ => panic!(),
    }
    assert!(matches!(import_step(Ok(IpcResponse::Success)), ImportStep::Ignored));
    assert_eq!(import_summary(3), "Successfully imported 3 notes.");
}
