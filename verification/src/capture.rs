//! The decisions of the quick-capture popup: what a key press does, the
//! note it sends, and what it shows for the daemon's answer.
use vstd::prelude::*;
use crate::config::{DEFAULT_COLOR, DEFAULT_HEIGHT, DEFAULT_WIDTH};
use crate::ipc::IpcRequest;
use crate::ipc::IpcResponse;
use crate::text::{CharClass, trim, strip_bounds, string_of, chars_of};

verus! {

/// The keys that the popup reacts to.
#[derive(Clone, Copy, Debug, PartialEq, Eq, Structural)]
pub enum CaptureKey {
    Escape,
    /// Return, or Enter on the keypad.
    Enter,
    Other,
}

/// What a key press in the popup does.
pub enum CaptureAction {
    /// Close the popup; the key is consumed.
    Close,
    /// Send the request; the key is consumed.
    Submit(IpcRequest),
    /// Let the text view handle the key (Shift+Enter inserts a newline).
    PassThrough,
}

/// `r` creates a note with text `text` in the default colour, at the
/// default position (which the daemon cascades) and size.
pub open spec fn is_new_note_request(r: IpcRequest, text: Seq<char>, color: Seq<char>) -> bool {
    match r {
        IpcRequest::NewNote { text: t, color: c, pos_x, pos_y, width, height } => {
            &&& t@ == text
            &&& c@ == color
            &&& pos_x == 100
            &&& pos_y == 100
            &&& width == 300
            &&& height == 250
        },
        _ => false,
    }
}

/// The request that creates a note with `text` in `color` at the default
/// position and size.
pub fn new_note_request(text: &str, color: &str) -> (res: IpcRequest)
    ensures
        is_new_note_request(res, text@, color@),
{
    IpcRequest::NewNote {
        text: text.to_owned(),
        color: color.to_owned(),
        pos_x: 100,
        pos_y: 100,
        width: DEFAULT_WIDTH,
        height: DEFAULT_HEIGHT,
    }
}

/// `text` trimmed, where anything is left of it.
pub fn trimmed_text(text: &str) -> (res: Option<String>)
    ensures
        trim(text@).len() == 0 ==> res is None,
        trim(text@).len() > 0 ==> res is Some && res->0@ == trim(text@),
{
    let v = chars_of(text);
    let (a, b) = strip_bounds(&v, 0, v.len(), CharClass::Whitespace);
    assert(v@.subrange(0, v@.len() as int) =~= v@);
    if a == b {
        None
    } else {
        Some(string_of(&v, a, b))
    }
}

/// What a key press does, given whether Shift is held and the text typed:
/// Escape closes; Enter without Shift sends the trimmed text as a new
/// yellow note, or closes where the text is blank; anything else, and
/// Shift+Enter, goes to the text view.
pub fn capture_key_action(key: CaptureKey, shift: bool, text: &str) -> (res: CaptureAction)
    ensures
        key == CaptureKey::Escape ==> res is Close,
        key == CaptureKey::Enter && !shift && trim(text@).len() == 0 ==> res is Close,
        key == CaptureKey::Enter && !shift && trim(text@).len() > 0 ==> (res matches CaptureAction::Submit(r)
            && is_new_note_request(r, trim(text@), "yellow"@)),
        key == CaptureKey::Enter && shift ==> res is PassThrough,
        key == CaptureKey::Other ==> res is PassThrough,
{
    match key {
        CaptureKey::Escape => CaptureAction::Close,
        CaptureKey::Enter => {
            if shift {
                CaptureAction::PassThrough
            } else {
                match trimmed_text(text) {
                    Some(t) => CaptureAction::Submit(new_note_request(t.as_str(), DEFAULT_COLOR)),
                    None => CaptureAction::Close,
                }
            }
        },
        CaptureKey::Other => CaptureAction::PassThrough,
    }
}

/// What the popup does with the daemon's answer to a new note.
pub enum CaptureOutcome {
    /// The note was created: report its id and close.
    Created(i64),
    /// Show an error dialog with this title and message; it closes the
    /// popup when dismissed.
    ShowError(String, String),
}

/// `o` shows an error dialog with this title and message.
pub open spec fn shows_error(o: CaptureOutcome, title: Seq<char>, message: Seq<char>) -> bool {
    match o {
        CaptureOutcome::ShowError(t, m) => t@ == title && m@ == message,
        _ => false,
    }
}

/// What to show for the daemon's answer, or for the error (as text) that
/// kept the request from reaching it.
pub fn capture_outcome(reply: Result<IpcResponse, &str>) -> (res: CaptureOutcome)
    ensures
        match reply {
            Ok(IpcResponse::NewNoteCreated { id }) => res == CaptureOutcome::Created(id),
            Ok(IpcResponse::Error { message }) => shows_error(res, "Daemon Error"@, message@),
            Ok(_) => shows_error(res, "Error"@, "Unexpected response from daemon."@),
            Err(e) => shows_error(
                res,
                "IPC Connection Error"@,
                "Is stickyboard-daemon running?\n\nDetails: "@ + e@,
            ),
        },
{
    match reply {
        Ok(IpcResponse::NewNoteCreated { id }) => CaptureOutcome::Created(id),
        Ok(IpcResponse::Error { message }) => CaptureOutcome::ShowError("Daemon Error".to_owned(), message),
        Ok(_) => CaptureOutcome::ShowError(
            "Error".to_owned(),
            "Unexpected response from daemon.".to_owned(),
        ),
        Err(e) => {
            let mut m = "Is stickyboard-daemon running?\n\nDetails: ".to_owned();
            m.append(e);
            CaptureOutcome::ShowError("IPC Connection Error".to_owned(), m)
        },
    }
}

} // verus!
