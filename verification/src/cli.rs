//! The decisions of the `stickyboard` command: the requests it sends, how
//! it lists notes, what it reports for each answer, and how it exports and
//! imports notes.
use vstd::prelude::*;
use crate::decimal::{int_decimal, i64_decimal};
use crate::ipc::{IpcRequest, IpcResponse};
use crate::models::Note;
use crate::text::{append_chars, chars_of};

verus! {

/// `text` with each newline replaced by a space.
pub open spec fn flatten_lines(text: Seq<char>) -> Seq<char> {
    text.map_values(|c: char| if c == '\n' { ' ' } else { c })
}

/// A one-line preview of a note's text: newlines become spaces, and a text
/// of more than 30 characters is cut to its first 27 followed by `...`.
pub open spec fn preview_spec(text: Seq<char>) -> Seq<char> {
    let p = flatten_lines(text);
    if p.len() > 30 {
        p.take(27) + "..."@
    } else {
        p
    }
}

/// `s` padded with spaces on the right to `w` characters (`{:<w}`).
pub open spec fn pad_right(s: Seq<char>, w: nat) -> Seq<char> {
    if s.len() >= w {
        s
    } else {
        s + Seq::new((w - s.len()) as nat, |i: int| ' ')
    }
}

/// The geometry column of the listing: `(x,y) wxh`.
pub open spec fn geometry_spec(x: i32, y: i32, w: i32, h: i32) -> Seq<char> {
    "("@ + int_decimal(x as int) + ","@ + int_decimal(y as int) + ") "@ + int_decimal(w as int) + "x"@
        + int_decimal(h as int)
}

/// One row of the listing: id, colour and geometry in columns of 6, 10 and
/// 15 characters, then the preview of the text.
pub open spec fn list_row_spec(id: i64, color: Seq<char>, geometry: Seq<char>, text: Seq<char>) -> Seq<
    char,
> {
    pad_right(int_decimal(id as int), 6) + " "@ + pad_right(color, 10) + " "@ + pad_right(geometry, 15)
        + " "@ + preview_spec(text)
}

/// The one-line preview of a note's text.
pub fn note_preview(text: &str) -> (res: String)
    ensures
        res@ == preview_spec(text@),
{
    let v = chars_of(text);
    let ghost p = flatten_lines(text@);
    let n = v.len();
    let limit: usize = if n > 30 { 27 } else { n };
    let mut res = String::new();
    let mut i: usize = 0;
    let mut flat: Vec<char> = Vec::new();
    while i < limit
        invariant
            0 <= i <= limit <= n,
            n == v@.len(),
            v@ == text@,
            p == flatten_lines(text@),
            flat@ == p.take(i as int),
        decreases limit - i,
    {
        let c = if v[i] == '\n' { ' ' } else { v[i] };
        flat.push(c);
        assert(p.take(i + 1) =~= p.take(i as int).push(c));
        i = i + 1;
    }
    append_chars(&mut res, &flat);
    if n > 30 {
        res.append("...");
    } else {
        assert(p.take(n as int) =~= p);
    }
    res
}

/// `s` padded with spaces on the right to `w` characters.
fn push_padded(out: &mut String, s: &Vec<char>, w: usize)
    ensures
        final(out)@ == old(out)@ + pad_right(s@, w as nat),
{
    append_chars(out, s);
    if s.len() < w {
        let mut k = s.len();
        let ghost base = out@;
        while k < w
            invariant
                s@.len() <= k <= w,
                base == old(out)@ + s@,
                out@ == base + Seq::new((k - s@.len()) as nat, |i: int| ' '),
            decreases w - k,
        {
            crate::text::push_char(out, ' ');
            assert(Seq::new((k + 1 - s@.len()) as nat, |i: int| ' ') =~= Seq::new(
                (k - s@.len()) as nat,
                |i: int| ' ',
            ).push(' '));
            k = k + 1;
        }
        assert(out@ =~= old(out)@ + pad_right(s@, w as nat));
    } else {
        assert(pad_right(s@, w as nat) == s@);
    }
}

/// The geometry column of the listing for a note.
pub fn geometry_text(x: i32, y: i32, w: i32, h: i32) -> (res: String)
    ensures
        res@ == geometry_spec(x, y, w, h),
{
    let mut s = "(".to_owned();
    append_chars(&mut s, &i64_decimal(x as i64));
    s.append(",");
    append_chars(&mut s, &i64_decimal(y as i64));
    s.append(") ");
    append_chars(&mut s, &i64_decimal(w as i64));
    s.append("x");
    append_chars(&mut s, &i64_decimal(h as i64));
    s
}

/// One row of the listing for `note`.
pub fn list_row(note: &Note) -> (res: String)
    ensures
        res@ == list_row_spec(
            note.id,
            note.color@,
            geometry_spec(note.pos_x, note.pos_y, note.width, note.height),
            note.text@,
        ),
{
    let mut s = String::new();
    push_padded(&mut s, &i64_decimal(note.id), 6);
    s.append(" ");
    push_padded(&mut s, &chars_of(note.color.as_str()), 10);
    s.append(" ");
    let geometry = geometry_text(note.pos_x, note.pos_y, note.width, note.height);
    push_padded(&mut s, &chars_of(geometry.as_str()), 15);
    s.append(" ");
    let preview = note_preview(note.text.as_str());
    s.append(preview.as_str());
    assert(s@ =~= list_row_spec(
        note.id,
        note.color@,
        geometry_spec(note.pos_x, note.pos_y, note.width, note.height),
        note.text@,
    ));
    s
}

/// The heading of the listing.
pub fn list_header() -> (res: String)
    ensures
        res@ == pad_right("ID"@, 6) + " "@ + pad_right("COLOR"@, 10) + " "@ + pad_right(
            "GEOMETRY"@,
            15,
        ) + " "@ + "TEXT"@,
{
    let mut s = String::new();
    push_padded(&mut s, &chars_of("ID"), 6);
    s.append(" ");
    push_padded(&mut s, &chars_of("COLOR"), 10);
    s.append(" ");
    push_padded(&mut s, &chars_of("GEOMETRY"), 15);
    s.append(" ");
    s.append("TEXT");
    assert(s@ =~= pad_right("ID"@, 6) + " "@ + pad_right("COLOR"@, 10) + " "@ + pad_right(
        "GEOMETRY"@,
        15,
    ) + " "@ + "TEXT"@);
    s
}

/// The rule under the heading: 60 dashes.
pub fn list_separator() -> (res: String)
    ensures
        res@ == Seq::new(60, |i: int| '-'),
{
    let mut s = String::new();
    let mut k: usize = 0;
    while k < 60
        invariant
            k <= 60,
            s@ == Seq::new(k as nat, |i: int| '-'),
        decreases 60 - k,
    {
        crate::text::push_char(&mut s, '-');
        assert(Seq::new((k + 1) as nat, |i: int| '-') =~= Seq::new(k as nat, |i: int| '-').push('-'));
        k = k + 1;
    }
    s
}

/// A line that the command prints: to standard output, or as an error to
/// standard error.
pub enum Report {
    Stdout(String),
    Stderr(String),
}

pub open spec fn is_out(r: Report, text: Seq<char>) -> bool {
    match r {
        Report::Stdout(s) => s@ == text,
        _ => false,
    }
}

pub open spec fn is_err(r: Report, text: Seq<char>) -> bool {
    match r {
        Report::Stderr(s) => s@ == text,
        _ => false,
    }
}

/// The error lines shared by every command: the daemon's own error, a
/// failure to reach it, or an answer of the wrong kind.
pub open spec fn failure_report(reply: Result<IpcResponse, &str>, r: Report) -> bool {
    match reply {
        Ok(IpcResponse::Error { message }) => is_err(r, "Error from daemon: "@ + message@),
        Err(e) => is_err(r, "Error connecting to daemon: "@ + e@),
        Ok(_) => is_err(r, "Unexpected response from daemon."@),
    }
}

/// The error line for an answer that is not the one a command expects.
pub fn failure_line(reply: Result<IpcResponse, &str>) -> (res: Report)
    ensures
        failure_report(reply, res),
{
    match reply {
        Ok(IpcResponse::Error { message }) => {
            let mut s = "Error from daemon: ".to_owned();
            s.append(message.as_str());
            Report::Stderr(s)
        },
        Err(e) => {
            let mut s = "Error connecting to daemon: ".to_owned();
            s.append(e);
            Report::Stderr(s)
        },
        Ok(_) => Report::Stderr("Unexpected response from daemon.".to_owned()),
    }
}

/// What `show`, `hide` and `reload` print: `success` where the daemon
/// answers with success.
pub fn simple_report(reply: Result<IpcResponse, &str>, success: &str) -> (res: Report)
    ensures
        reply matches Ok(IpcResponse::Success) ==> is_out(res, success@),
        !(reply matches Ok(IpcResponse::Success)) ==> failure_report(reply, res),
{
    match reply {
        Ok(IpcResponse::Success) => Report::Stdout(success.to_owned()),
        _ => failure_line(reply),
    }
}

/// What `new` prints.
pub fn new_note_report(reply: Result<IpcResponse, &str>) -> (res: Report)
    ensures
        reply matches Ok(IpcResponse::NewNoteCreated { id }) ==> is_out(
            res,
            "Success: Created note with ID "@ + int_decimal(id as int) + "."@,
        ),
        !(reply matches Ok(IpcResponse::NewNoteCreated { .. })) ==> failure_report(reply, res),
{
    match reply {
        Ok(IpcResponse::NewNoteCreated { id }) => {
            let mut s = "Success: Created note with ID ".to_owned();
            append_chars(&mut s, &i64_decimal(id));
            s.append(".");
            Report::Stdout(s)
        },
        _ => failure_line(reply),
    }
}

/// What `list` prints for the notes it got: a notice where there are none,
/// else the heading, the rule and one row per note.
pub fn list_lines(notes: &Vec<Note>) -> (res: Vec<String>)
    ensures
        notes@.len() == 0 ==> res@.len() == 1 && res@[0]@ == "No notes found."@,
        notes@.len() > 0 ==> res@.len() == notes@.len() + 2 && res@[1]@ == Seq::new(
            60,
            |i: int| '-',
        ) && (forall|i: int|
            0 <= i < notes@.len() ==> (#[trigger] res@[i + 2])@ == list_row_spec(
                notes@[i].id,
                notes@[i].color@,
                geometry_spec(notes@[i].pos_x, notes@[i].pos_y, notes@[i].width, notes@[i].height),
                notes@[i].text@,
            )),
{
    let mut lines: Vec<String> = Vec::new();
    if notes.len() == 0 {
        lines.push("No notes found.".to_owned());
        return lines;
    }
    lines.push(list_header());
    lines.push(list_separator());
    let mut i: usize = 0;
    while i < notes.len()
        invariant
            0 <= i <= notes@.len(),
            lines@.len() == i + 2,
            lines@[1]@ == Seq::new(60, |k: int| '-'),
            forall|k: int|
                0 <= k < i ==> (#[trigger] lines@[k + 2])@ == list_row_spec(
                    notes@[k].id,
                    notes@[k].color@,
                    geometry_spec(notes@[k].pos_x, notes@[k].pos_y, notes@[k].width, notes@[k].height),
                    notes@[k].text@,
                ),
        decreases notes@.len() - i,
    {
        lines.push(list_row(&notes[i]));
        i = i + 1;
    }
    lines
}

/// A note as `export` writes it: without its timestamps.
#[derive(Clone, Debug)]
pub struct ExportItem {
    pub id: i64,
    pub text: String,
    pub color: String,
    pub pos_x: i32,
    pub pos_y: i32,
    pub width: i32,
    pub height: i32,
}

/// The exported form of `note`.
pub fn export_item(note: Note) -> (res: ExportItem)
    ensures
        res.id == note.id && res.text == note.text && res.color == note.color && res.pos_x
            == note.pos_x && res.pos_y == note.pos_y && res.width == note.width && res.height
            == note.height,
{
    ExportItem {
        id: note.id,
        text: note.text,
        color: note.color,
        pos_x: note.pos_x,
        pos_y: note.pos_y,
        width: note.width,
        height: note.height,
    }
}

/// A note as `import` reads it: only the text is required.
#[derive(Clone, Debug)]
pub struct ImportNote {
    pub text: String,
    pub color: Option<String>,
    pub pos_x: Option<i32>,
    pub pos_y: Option<i32>,
    pub width: Option<i32>,
    pub height: Option<i32>,
}

/// The request that imports one note, with the defaults for what it leaves
/// out: yellow, at (100, 100), 300 by 250.
pub fn import_request(item: ImportNote) -> (res: IpcRequest)
    ensures
        res matches IpcRequest::NewNote { text, color, pos_x, pos_y, width, height } && text
            == item.text && color@ == (match item.color {
            Some(c) => c@,
            None => "yellow"@,
        }) && pos_x == (match item.pos_x {
            Some(v) => v,
            None => 100i32,
        }) && pos_y == (match item.pos_y {
            Some(v) => v,
            None => 100i32,
        }) && width == (match item.width {
            Some(v) => v,
            None => 300i32,
        }) && height == (match item.height {
            Some(v) => v,
            None => 250i32,
        }),
{
    IpcRequest::NewNote {
        text: item.text,
        color: match item.color {
            Some(c) => c,
            None => crate::config::DEFAULT_COLOR.to_owned(),
        },
        pos_x: match item.pos_x {
            Some(v) => v,
            None => 100,
        },
        pos_y: match item.pos_y {
            Some(v) => v,
            None => 100,
        },
        width: match item.width {
            Some(v) => v,
            None => crate::config::DEFAULT_WIDTH,
        },
        height: match item.height {
            Some(v) => v,
            None => crate::config::DEFAULT_HEIGHT,
        },
    }
}

/// What `import` makes of the answer to one imported note.
pub enum ImportStep {
    /// The note was created: count it.
    Imported,
    /// The daemon refused it: report this and go on.
    Failed(String),
    /// The daemon could not be reached: report this and stop.
    Abort(String),
    /// Any other answer: go on.
    Ignored,
}

/// The step of `import` for one answer.
pub fn import_step(reply: Result<IpcResponse, &str>) -> (res: ImportStep)
    ensures
        match reply {
            Ok(IpcResponse::NewNoteCreated { .. }) => res is Imported,
            Ok(IpcResponse::Error { message }) => res matches ImportStep::Failed(m)
                && m@ == "Failed to import note: "@ + message@,
            Err(e) => res matches ImportStep::Abort(m) && m@ == "Error connecting to daemon: "@ + e@,
            Ok(_) => res is Ignored,
        },
{
    match reply {
        Ok(IpcResponse::NewNoteCreated { .. }) => ImportStep::Imported,
        Ok(IpcResponse::Error { message }) => {
            let mut m = "Failed to import note: ".to_owned();
            m.append(message.as_str());
            ImportStep::Failed(m)
        },
        Err(e) => {
            let mut m = "Error connecting to daemon: ".to_owned();
            m.append(e);
            ImportStep::Abort(m)
        },
        Ok(_) => ImportStep::Ignored,
    }
}

/// The closing line of `import`.
pub fn import_summary(count: u64) -> (res: String)
    ensures
        res@ == "Successfully imported "@ + int_decimal(count as int) + " notes."@,
{
    let mut s = "Successfully imported ".to_owned();
    append_chars(&mut s, &crate::decimal::u64_digits(count));
    s.append(" notes.");
    s
}

/// The preview of a note fits its column: it is at most 30 characters
/// long and holds no newline, whatever the note's text.
pub proof fn lemma_preview_fits(text: Seq<char>)
    ensures
        preview_spec(text).len() <= 30,
        forall|i: int| 0 <= i < preview_spec(text).len() ==> preview_spec(text)[i] != '\n',
{
    reveal_strlit("...");
    let p = flatten_lines(text);
    assert forall|i: int| 0 <= i < preview_spec(text).len() implies preview_spec(text)[i] != '\n' by {
        if p.len() > 30 {
            if i < 27 {
                assert(preview_spec(text)[i] == p[i]);
            } else {
                assert(preview_spec(text)[i] == "..."@[i - 27]);
            }
        }
    }
}

/// A text of at most 30 characters without a newline is shown as it is.
pub proof fn lemma_short_preview_unchanged(text: Seq<char>)
    requires
        text.len() <= 30,
        forall|i: int| 0 <= i < text.len() ==> text[i] != '\n',
    ensures
        preview_spec(text) == text,
{
    assert(flatten_lines(text) =~= text);
}

} // verus!
