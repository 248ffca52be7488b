//! The decisions of a note's window: which note it shows, how it finds its
//! window in Hyprland, how it keeps the stored geometry in step with the
//! window, and what it sends to the daemon.
use vstd::prelude::*;
use crate::decimal::{parse_i64, parse_i64_str, int_decimal};
use crate::ipc::IpcRequest;
use crate::text::str_eq;

verus! {

/// The texts of a list of strings.
pub open spec fn strings_view(v: Seq<String>) -> Seq<Seq<char>> {
    v.map_values(|s: String| s@)
}

/// The note id that a command line gives: the value after the last `--id`
/// that is followed by a number; `None` where there is none.
pub open spec fn note_id_arg(args: Seq<Seq<char>>) -> Option<i64>
    decreases args.len(),
{
    if args.len() < 2 {
        None
    } else if args[args.len() - 2] == "--id"@ && parse_i64(args.last()) is Some {
        parse_i64(args.last())
    } else {
        note_id_arg(args.drop_last())
    }
}

/// The note id on the command line of a note window (`--id <note_id>`).
pub fn parse_note_id(args: &Vec<String>) -> (res: Option<i64>)
    ensures
        res == note_id_arg(strings_view(args@)),
{
    let ghost a = strings_view(args@);
    if args.len() == 0 {
        return None;
    }
    let mut res: Option<i64> = None;
    let mut j: usize = 1;
    while j < args.len()
        invariant
            1 <= j <= args@.len(),
            a == strings_view(args@),
            res == note_id_arg(a.take(j as int)),
        decreases args@.len() - j,
    {
        let ghost t = a.take(j + 1);
        assert(t.drop_last() =~= a.take(j as int));
        assert(t[t.len() - 2] == args@[j - 1]@);
        assert(t.last() == args@[j as int]@);
        if str_eq(args[j - 1].as_str(), "--id") {
            match parse_i64_str(args[j].as_str()) {
                Some(id) => {
                    res = Some(id);
                },
                None => {},
            }
        }
        j = j + 1;
    }
    assert(a.take(j as int) =~= a);
    res
}

/// The application id of the window of note `id`.
pub fn note_app_id(id: i64) -> (res: String)
    ensures
        res@ == "com.stickyboard.note"@ + int_decimal(id as int),
{
    let mut s = "com.stickyboard.note".to_owned();
    let d = crate::decimal::i64_decimal(id);
    crate::text::append_chars(&mut s, &d);
    s
}

/// The style class that gives a note its colour.
pub fn note_css_class(color: &str) -> (res: String)
    ensures
        res@ == "note-"@ + color@,
{
    let mut s = "note-".to_owned();
    s.append(color);
    s
}

/// The position and size of a note's window.
#[derive(Clone, Copy, Debug, PartialEq, Eq, Structural)]
pub struct NoteGeometry {
    pub pos_x: i32,
    pub pos_y: i32,
    pub width: i32,
    pub height: i32,
}

/// Brings the remembered geometry in step with the window as Hyprland
/// reports it (`at` is the position, `size` the size), and tells whether it
/// changed, in which case the new geometry has to be saved.
pub fn track_geometry(geometry: &mut NoteGeometry, at: [i32; 2], size: [i32; 2]) -> (changed: bool)
    ensures
        *final(geometry) == (NoteGeometry {
            pos_x: at[0],
            pos_y: at[1],
            width: size[0],
            height: size[1],
        }),
        changed == (*old(geometry) != *final(geometry)),
{
    let current = NoteGeometry { pos_x: at[0], pos_y: at[1], width: size[0], height: size[1] };
    let changed = !(geometry.pos_x == current.pos_x && geometry.pos_y == current.pos_y
        && geometry.width == current.width && geometry.height == current.height);
    *geometry = current;
    changed
}

/// The request that saves a note's text, colour and geometry.
pub fn update_request(id: i64, text: &str, color: &str, geometry: NoteGeometry) -> (res: IpcRequest)
    ensures
        res matches IpcRequest::UpdateNote { id: i, text: t, color: c, pos_x, pos_y, width, height }
            && i == id && t@ == text@ && c@ == color@ && pos_x == geometry.pos_x && pos_y
            == geometry.pos_y && width == geometry.width && height == geometry.height,
{
    IpcRequest::UpdateNote {
        id,
        text: text.to_owned(),
        color: color.to_owned(),
        pos_x: geometry.pos_x,
        pos_y: geometry.pos_y,
        width: geometry.width,
        height: geometry.height,
    }
}

/// The request that the delete button of a note's window sends: the
/// window closes itself, so the daemon need not stop it.
pub fn delete_request(id: i64) -> (res: IpcRequest)
    ensures
        res == (IpcRequest::DeleteNote { id, from_window: true }),
{
    IpcRequest::DeleteNote { id, from_window: true }
}

/// The number of times a new window looks for itself in Hyprland before
/// it gives up.
pub const MAX_MAPPING_TRIES: u32 = 20;

/// The next try at placing a new window, counted from `tries` earlier
/// tries; `None` once the tries are used up.
pub fn next_mapping_try(tries: u32) -> (res: Option<u32>)
    ensures
        tries < 20 ==> res == Some((tries + 1) as u32),
        tries >= 20 ==> res is None,
{
    if tries >= MAX_MAPPING_TRIES {
        None
    } else {
        Some(tries + 1)
    }
}

/// What came of one try at placing a note's window.
#[derive(Clone, Copy, Debug, PartialEq, Eq, Structural)]
pub enum PlacementOutcome {
    /// The window was found and moved into place.
    Placed,
    /// Hyprland does not list the window yet.
    NotFound,
    /// Talking to Hyprland failed.
    Failed,
}

/// What a note's window does after a try at placing it.
#[derive(Clone, Copy, Debug, PartialEq, Eq, Structural)]
pub enum MappingAction {
    /// Stop trying and start following the window's geometry.
    StartTracking,
    /// Try again at the next tick.
    Retry,
    /// Stop trying.
    Stop,
}

/// What to do after a try at placing the window.
pub fn after_placement(outcome: PlacementOutcome) -> (res: MappingAction)
    ensures
        outcome == PlacementOutcome::Placed ==> res == MappingAction::StartTracking,
        outcome == PlacementOutcome::NotFound ==> res == MappingAction::Retry,
        outcome == PlacementOutcome::Failed ==> res == MappingAction::Stop,
{
    match outcome {
        PlacementOutcome::Placed => MappingAction::StartTracking,
        PlacementOutcome::NotFound => MappingAction::Retry,
        PlacementOutcome::Failed => MappingAction::Stop,
    }
}

} // verus!
