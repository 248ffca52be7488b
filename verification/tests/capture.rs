use stickyboard::capture::{capture_key_action, capture_outcome, trimmed_text, CaptureAction, CaptureKey, CaptureOutcome};
use stickyboard::ipc::{IpcRequest, IpcResponse};

#[test]
fn keys_of_the_popup() {
    assert!(matches!(capture_key_action(CaptureKey::Escape, false, "x"), CaptureAction::Close));
    assert!(matches!(capture_key_action(CaptureKey::Enter, false, "  \n "), CaptureAction::Close));
    assert!(matches!(capture_key_action(CaptureKey::Enter, true, "x"), CaptureAction::PassThrough));
    assert!(matches!(capture_key_action(CaptureKey::Other, false, "x"), CaptureAction::PassThrough));
    match capture_key_action(CaptureKey::Enter, false, "  buy milk \n") {
        CaptureAction::Submit(IpcRequest::NewNote { text, color, pos_x, pos_y, width, height }) => {
            assert_eq!(text, "buy milk");
            assert_eq!(color, "yellow");
            assert_eq!((pos_x, pos_y, width, height), (100, 100, 300, 250));
        }
        _ => panic!(),
    }
}

#[test]
fn trimming() {
    assert_eq!(trimmed_text("\u{3000} a b \t"), Some("a b".to_string()));
    assert_eq!(trimmed_text(" \u{a0}"), None);
}

#[test]
fn answers_to_the_popup() {
    assert!(matches!(capture_outcome(Ok(IpcResponse::NewNoteCreated { id: 3 })), CaptureOutcome::Created(3)));
    match capture_outcome(Ok(IpcResponse::Error { message: "full".to_string() })) {
        CaptureOutcome::ShowError(t, m) => {
            assert_eq!(t, "Daemon Error");
            assert_eq!(m, "full");
        }
        _ => panic!(),
    }
    match capture_outcome(Ok(IpcResponse::Success)) {
        CaptureOutcome::ShowError(t, m) => {
            assert_eq!(t, "Error");
            assert_eq!(m, "Unexpected response from daemon.");
        }
        _ => panic!(),
    }
    match capture_outcome(Err("refused")) {
        CaptureOutcome::ShowError(t, m) => {
            assert_eq!(t, "IPC Connection Error");
            assert_eq!(m, "Is stickyboard-daemon running?\n\nDetails: refused");
        }
        _ => panic!(),
    }
}
