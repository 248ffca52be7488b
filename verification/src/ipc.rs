//! The messages that clients and the daemon exchange over the daemon's
//! Unix socket, one JSON object per line, and the framing of those lines.
use vstd::prelude::*;
use crate::models::Note;

verus! {

/// A request to the daemon.
#[derive(Clone, Debug)]
pub enum IpcRequest {
    NewNote { text: String, color: String, pos_x: i32, pos_y: i32, width: i32, height: i32 },
    DeleteNote { id: i64, from_window: bool },
    UpdateNote {
        id: i64,
        text: String,
        color: String,
        pos_x: i32,
        pos_y: i32,
        width: i32,
        height: i32,
    },
    GetNote { id: i64 },
    ShowAll,
    HideAll,
    Reload,
    ListNotes,
}

/// The daemon's answer to a request.
#[derive(Clone, Debug)]
pub enum IpcResponse {
    Success,
    NewNoteCreated { id: i64 },
    NoteDetails { note: Note },
    NotesList { notes: Vec<Note> },
    Error { message: String },
}

/// `r` is an error answer with the text `msg`.
pub open spec fn is_error_with(r: IpcResponse, msg: Seq<char>) -> bool {
    match r {
        IpcResponse::Error { message } => message@ == msg,
        _ => false,
    }
}

/// What can go wrong with a message line itself.
#[derive(Clone, Copy, Debug, PartialEq, Eq, Structural)]
pub enum FrameError {
    /// The other side closed the connection without sending a line.
    EmptyResponse,
}

impl FrameError {
    /// The text that reports the error.
    pub fn message(&self) -> (res: String)
        ensures
            res@ == "Received empty response from daemon."@,
    {
        match self {
            FrameError::EmptyResponse => "Received empty response from daemon.".to_owned(),
        }
    }
}

/// A message as it goes over the socket: the JSON text and a newline.
pub fn frame_message(json: &str) -> (res: String)
    ensures
        res@ == json@.push('\n'),
{
    let mut res = json.to_owned();
    res.append("\n");
    proof {
        reveal_strlit("\n");
    }
    assert(res@ =~= json@.push('\n'));
    res
}

/// Checks a line read back from the socket: an empty read means that no
/// answer came.
pub fn check_response_line(line: &str) -> (res: Result<(), FrameError>)
    ensures
        res is Err <==> line@.len() == 0,
{
    if line.is_empty() {
        Err(FrameError::EmptyResponse)
    } else {
        Ok(())
    }
}

/// Whether the daemon answers a line it read: an empty read is a client that
/// went away, and gets no answer.
pub fn request_line_is_present(line: &str) -> (res: bool)
    ensures
        res == (line@.len() > 0),
{
    !line.is_empty()
}

/// The answer to a request line that is not a valid request.
pub fn invalid_request_response(detail: &str) -> (res: IpcResponse)
    ensures
        is_error_with(res, "Invalid JSON request: "@ + detail@),
{
    let mut message = "Invalid JSON request: ".to_owned();
    message.append(detail);
    IpcResponse::Error { message }
}

} // verus!
