//! The windows that Hyprland reports, and the commands that place a note's
//! window on the screen.
use vstd::prelude::*;
use crate::decimal::{int_decimal, i64_decimal};
use crate::text::{append_chars, str_eq};

verus! {

/// The workspace that a window is on.
#[derive(Clone, Debug)]
pub struct HyprWorkspaceRef {
    pub id: i32,
    pub name: String,
}

/// A window as `hyprctl clients -j` describes it.
#[derive(Clone, Debug)]
pub struct HyprClient {
    pub address: String,
    pub title: String,
    pub class: String,
    pub at: [i32; 2],
    pub size: [i32; 2],
    pub workspace: HyprWorkspaceRef,
}

/// `i` is the first position of a window titled `title`.
pub open spec fn is_first_titled(clients: Seq<HyprClient>, title: Seq<char>, i: int) -> bool {
    &&& 0 <= i < clients.len()
    &&& clients[i].title@ == title
    &&& forall|j: int| 0 <= j < i ==> clients[j].title@ != title
}

/// The title that a note's window carries.
pub open spec fn note_window_title_spec(id: i64) -> Seq<char> {
    "stickyboard-note-"@ + int_decimal(id as int)
}

/// The command that moves a floating window to a screen position.
pub open spec fn move_cmd_spec(x: i32, y: i32, address: Seq<char>) -> Seq<char> {
    "dispatch movewindowpixel exact "@ + int_decimal(x as int) + " "@ + int_decimal(y as int)
        + ",address:"@ + address
}

/// The command that resizes a floating window.
pub open spec fn resize_cmd_spec(w: i32, h: i32, address: Seq<char>) -> Seq<char> {
    "dispatch resizewindowpixel exact "@ + int_decimal(w as int) + " "@ + int_decimal(h as int)
        + ",address:"@ + address
}

/// `s` followed by the decimal form of `n`.
fn append_int(s: &mut String, n: i64)
    ensures
        final(s)@ == old(s)@ + int_decimal(n as int),
{
    let d = i64_decimal(n);
    append_chars(s, &d);
}

/// The title of the window of note `id`.
pub fn note_window_title(id: i64) -> (res: String)
    ensures
        res@ == note_window_title_spec(id),
{
    let mut s = "stickyboard-note-".to_owned();
    append_int(&mut s, id);
    s
}

/// A command of the form `<verb> <a> <b>,address:<address>`.
fn window_cmd(verb: &str, a: i32, b: i32, address: &str) -> (res: String)
    ensures
        res@ == verb@ + int_decimal(a as int) + " "@ + int_decimal(b as int) + ",address:"@
            + address@,
{
    let mut s = verb.to_owned();
    append_int(&mut s, a as i64);
    s.append(" ");
    append_int(&mut s, b as i64);
    s.append(",address:");
    s.append(address);
    s
}

/// The command that moves the window at `address` to (`x`, `y`).
pub fn move_window_cmd(x: i32, y: i32, address: &str) -> (res: String)
    ensures
        res@ == move_cmd_spec(x, y, address@),
{
    window_cmd("dispatch movewindowpixel exact ", x, y, address)
}

/// The command that resizes the window at `address` to `w` by `h`.
pub fn resize_window_cmd(w: i32, h: i32, address: &str) -> (res: String)
    ensures
        res@ == resize_cmd_spec(w, h, address@),
{
    window_cmd("dispatch resizewindowpixel exact ", w, h, address)
}

/// The first of `clients` whose title is exactly `title`.
pub fn find_client_by_title(clients: Vec<HyprClient>, title: &str) -> (res: Option<HyprClient>)
    ensures
        match res {
            Some(c) => exists|i: int| is_first_titled(clients@, title@, i) && c == clients@[i],
            None => forall|i: int| 0 <= i < clients@.len() ==> clients@[i].title@ != title@,
        },
{
    let mut cs = clients;
    let ghost orig = cs@;
    let mut i: usize = 0;
    while i < cs.len()
        invariant
            cs@ == orig,
            orig == clients@,
            0 <= i <= orig.len(),
            forall|j: int| 0 <= j < i ==> orig[j].title@ != title@,
        decreases orig.len() - i,
    {
        if str_eq(cs[i].title.as_str(), title) {
            let c = cs.swap_remove(i);
            assert(is_first_titled(orig, title@, i as int) && c == orig[i as int]);
            return Some(c);
        }
        i = i + 1;
    }
    None
}

/// The two commands that put the window of note `id` at (`x`, `y`) with
/// size `w` by `h`, aimed at the first window titled for that note; `None`
/// where no such window is open yet.
pub fn position_note_window(id: i64, x: i32, y: i32, w: i32, h: i32, clients: Vec<HyprClient>) -> (res:
    Option<(String, String)>)
    ensures
        match res {
            Some(cmds) => exists|i: int|
                is_first_titled(clients@, note_window_title_spec(id), i) && cmds.0@ == move_cmd_spec(
                    x,
                    y,
                    clients@[i].address@,
                ) && cmds.1@ == resize_cmd_spec(w, h, clients@[i].address@),
            None => forall|i: int|
                0 <= i < clients@.len() ==> clients@[i].title@ != note_window_title_spec(id),
        },
{
    let title = note_window_title(id);
    match find_client_by_title(clients, title.as_str()) {
        Some(client) => {
            let address = client.address;
            let move_cmd = move_window_cmd(x, y, address.as_str());
            let resize_cmd = resize_window_cmd(w, h, address.as_str());
            Some((move_cmd, resize_cmd))
        },
        None => None,
    }
}

/// Distinct notes have distinctly titled windows, so placing or tracking
/// one note's window never picks another note's.
pub proof fn lemma_window_titles_distinct(a: i64, b: i64)
    requires
        a != b,
    ensures
        note_window_title_spec(a) != note_window_title_spec(b),
{
    let p = "stickyboard-note-"@;
    if note_window_title_spec(a) == note_window_title_spec(b) {
        assert((p + int_decimal(a as int)).skip(p.len() as int) =~= int_decimal(a as int));
        assert((p + int_decimal(b as int)).skip(p.len() as int) =~= int_decimal(b as int));
        crate::decimal::lemma_parse_decimal_roundtrip(a);
        crate::decimal::lemma_parse_decimal_roundtrip(b);
    }
}

} // verus!
