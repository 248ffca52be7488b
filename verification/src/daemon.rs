//! The daemon's decisions: where a new note goes and in which colour, which
//! note windows are running and which of them to stop or start, and what it
//! answers to each request.
use vstd::prelude::*;
use crate::ipc::{IpcResponse, is_error_with};
use crate::models::Note;
use crate::decimal::{int_decimal, lemma_parse_decimal_roundtrip};
use crate::note::note_id_arg;

verus! {

/// The ids in `s` are pairwise distinct.
pub open spec fn ids_distinct<H>(s: Seq<(i64, u64, H)>) -> bool {
    forall|i: int, j: int| 0 <= i < j < s.len() ==> s[i].0 != s[j].0
}

/// `s` holds an entry for `id`.
pub open spec fn has_id<H>(s: Seq<(i64, u64, H)>, id: i64) -> bool {
    exists|i: int| 0 <= i < s.len() && s[i].0 == id
}

/// The position of the entry for `id` (meaningful where there is one).
pub open spec fn pos_of<H>(s: Seq<(i64, u64, H)>, id: i64) -> int {
    choose|i: int| 0 <= i < s.len() && s[i].0 == id
}

/// The map from id to handle that a list of entries with distinct ids holds.
pub open spec fn entries_map<H>(s: Seq<(i64, u64, H)>) -> Map<i64, H> {
    Map::new(|id: i64| has_id(s, id), |id: i64| s[pos_of(s, id)].2)
}

/// The map from id to generation that a list of entries with distinct ids
/// holds.
pub open spec fn generations_map<H>(s: Seq<(i64, u64, H)>) -> Map<i64, u64> {
    Map::new(|id: i64| has_id(s, id), |id: i64| s[pos_of(s, id)].1)
}

/// The running windows after the window of note `id`, started as
/// generation `generation`, has exited: it is forgotten only where the
/// entry for `id` is still that generation; a newer window of the same note
/// stays.
pub open spec fn after_window_exit<H>(
    handles: Map<i64, H>,
    generations: Map<i64, u64>,
    id: i64,
    generation: u64,
) -> Map<i64, H> {
    if generations.dom().contains(id) && generations[id] == generation {
        handles.remove(id)
    } else {
        handles
    }
}

/// The note windows that the daemon has started and not yet seen exit,
/// each with the handle that stops it and the generation it was started
/// as; generations count up and are never handed out twice.
///
/// The entries are kept in a `Vec` under the invariant that no id occurs
/// twice, rather than in a `HashMap` keyed by id: emptying the set hands
/// every handle back by value, which a `HashMap` does only through `drain`
/// or `into_iter`, and the verifier's library specifies neither.
pub struct RunningNotes<H> {
    entries: Vec<(i64, u64, H)>,
    next: u64,
}

impl<H> View for RunningNotes<H> {
    type V = Map<i64, H>;

    closed spec fn view(&self) -> Map<i64, H> {
        entries_map(self.entries@)
    }
}

proof fn lemma_entry_value<H>(s: Seq<(i64, u64, H)>, i: int)
    requires
        ids_distinct(s),
        0 <= i < s.len(),
    ensures
        entries_map(s).dom().contains(s[i].0),
        entries_map(s)[s[i].0] == s[i].2,
        generations_map(s).dom().contains(s[i].0),
        generations_map(s)[s[i].0] == s[i].1,
{
    let id = s[i].0;
    assert(has_id(s, id));
    let k = pos_of(s, id);
    if k != i {
        if k < i {
            assert(s[k].0 != s[i].0);
        } else {
            assert(s[i].0 != s[k].0);
        }
    }
}

/// An entry list with distinct ids that holds the same ids with the same
/// handles and generations as `m` and `g` holds `m` and `g`.
proof fn lemma_same_maps<H>(s: Seq<(i64, u64, H)>, m: Map<i64, H>, g: Map<i64, u64>)
    requires
        ids_distinct(s),
        forall|id: i64| has_id(s, id) <==> m.dom().contains(id),
        forall|id: i64| has_id(s, id) <==> g.dom().contains(id),
        forall|i: int|
            0 <= i < s.len() ==> m.dom().contains(#[trigger] s[i].0) && m[s[i].0] == s[i].2 && g[s[i].0]
                == s[i].1,
    ensures
        entries_map(s) =~= m,
        generations_map(s) =~= g,
{
    assert forall|id: i64| #[trigger] entries_map(s).dom().contains(id) implies entries_map(s)[id]
        == m[id] && generations_map(s)[id] == g[id] by {
        lemma_entry_value(s, pos_of(s, id));
    }
}

/// The position of the entry for `id`, if any.
fn find_entry<H>(entries: &Vec<(i64, u64, H)>, id: i64) -> (res: Option<usize>)
    ensures
        match res {
            Some(i) => i < entries@.len() && entries@[i as int].0 == id,
            None => !has_id(entries@, id),
        },
{
    let mut i: usize = 0;
    while i < entries.len()
        invariant
            0 <= i <= entries@.len(),
            forall|j: int| 0 <= j < i ==> entries@[j].0 != id,
        decreases entries@.len() - i,
    {
        if entries[i].0 == id {
            return Some(i);
        }
        i = i + 1;
    }
    None
}

/// Facts about the list left by removing entry `i`.
proof fn lemma_removed<H>(before: Seq<(i64, u64, H)>, i: int)
    requires
        ids_distinct(before),
        0 <= i < before.len(),
        forall|k: int| 0 <= k < before.len() ==> (#[trigger] before[k]).1 < 0xffff_ffff_ffff_ffff,
    ensures
        ids_distinct(before.remove(i)),
        entries_map(before.remove(i)) =~= entries_map(before).remove(before[i].0),
        generations_map(before.remove(i)) =~= generations_map(before).remove(before[i].0),
{
    let s = before.remove(i);
    let id = before[i].0;
    let m = entries_map(before).remove(id);
    let g = generations_map(before).remove(id);
    assert(forall|k: int| 0 <= k < s.len() ==> s[k] == (if k < i {
        before[k]
    } else {
        before[k + 1]
    }));
    assert(ids_distinct(s)) by {
        assert forall|a: int, b: int| 0 <= a < b < s.len() implies s[a].0 != s[b].0 by {
            if b < i {
            } else if a < i {
                assert(before[a].0 != before[b + 1].0);
            } else {
                assert(before[a + 1].0 != before[b + 1].0);
            }
        }
    }
    assert forall|x: i64| has_id(s, x) <==> m.dom().contains(x) by {
        if has_id(s, x) {
            let k = choose|k: int| 0 <= k < s.len() && s[k].0 == x;
            if k < i {
                assert(before[k].0 != before[i].0);
            } else {
                assert(before[i].0 != before[k + 1].0);
            }
        }
        if m.dom().contains(x) {
            let k = choose|k: int| 0 <= k < before.len() && before[k].0 == x;
            if k < i {
                assert(s[k].0 == x);
            } else {
                assert(s[k - 1].0 == x);
            }
        }
    }
    assert forall|k: int| 0 <= k < s.len() implies m.dom().contains(#[trigger] s[k].0) && m[s[k].0]
        == s[k].2 && g[s[k].0] == s[k].1 by {
        if k < i {
            lemma_entry_value(before, k);
            assert(before[k].0 != before[i].0);
        } else {
            lemma_entry_value(before, k + 1);
            assert(before[i].0 != before[k + 1].0);
        }
    }
    lemma_same_maps(s, m, g);
}

proof fn lemma_in_order<H>(s: Seq<(i64, u64, H)>, next: u64)
    requires
        ids_distinct(s),
        forall|i: int| 0 <= i < s.len() ==> (#[trigger] s[i]).1 < next,
    ensures
        generations_map(s).dom() =~= entries_map(s).dom(),
        forall|id: i64| #[trigger] generations_map(s).dom().contains(id) ==> generations_map(s)[id] < next,
{
    assert forall|id: i64| #[trigger] generations_map(s).dom().contains(id) implies generations_map(s)[id]
        < next by {
        lemma_entry_value(s, pos_of(s, id));
    }
}

impl<H> RunningNotes<H> {
    #[verifier::type_invariant]
    closed spec fn wf(self) -> bool {
        &&& ids_distinct(self.entries@)
        &&& forall|i: int| 0 <= i < self.entries@.len() ==> (#[trigger] self.entries@[i]).1 < self.next
    }

    /// The generation of each running window.
    pub closed spec fn generations(&self) -> Map<i64, u64> {
        generations_map(self.entries@)
    }

    /// The generation that the next window started will get.
    pub closed spec fn generation_counter(&self) -> u64 {
        self.next
    }

    /// No note window running; generations start at 0.
    pub fn new() -> (res: Self)
        ensures
            res@ == Map::<i64, H>::empty(),
            res.generations() == Map::<i64, u64>::empty(),
            res.generation_counter() == 0,
            res.generations_in_order(),
    {
        let res = RunningNotes { entries: Vec::new(), next: 0 };
        proof {
            lemma_in_order(res.entries@, 0);
        }
        assert(entries_map(res.entries@) =~= Map::<i64, H>::empty());
        assert(generations_map(res.entries@) =~= Map::<i64, u64>::empty());
        res
    }

    /// The generation that the next window started will get.
    pub fn next_generation(&self) -> (res: u64)
        ensures
            res == self.generation_counter(),
    {
        self.next
    }

    /// Every running window has a generation, and each was handed out
    /// before the current counter.
    pub open spec fn generations_in_order(&self) -> bool {
        &&& self.generations().dom() == self@.dom()
        &&& forall|id: i64| #[trigger]
            self.generations().dom().contains(id) ==> self.generations()[id] < self.generation_counter()
    }

    /// Whether the window of note `id` is running.
    pub fn contains(&self, id: i64) -> (res: bool)
        ensures
            res == self@.dom().contains(id),
    {
        match find_entry(&self.entries, id) {
            Some(_) => true,
            None => false,
        }
    }

    /// The number of running windows.
    pub fn len(&self) -> (res: usize)
        ensures
            res == self@.dom().len(),
    {
        proof {
            use_type_invariant(self);
            self.lemma_dom_len();
        }
        self.entries.len()
    }

    proof fn lemma_dom_len(&self)
        requires
            ids_distinct(self.entries@),
        ensures
            self@.dom().len() == self.entries@.len(),
            self@.dom().finite(),
    {
        let s = self.entries@;
        let d = self@.dom();
        let ids = s.map_values(|e: (i64, u64, H)| e.0);
        assert forall|id: i64| d.contains(id) implies ids.to_set().contains(id) by {
            let i = choose|i: int| 0 <= i < s.len() && s[i].0 == id;
            assert(ids[i] == id);
        }
        assert forall|id: i64| ids.to_set().contains(id) implies d.contains(id) by {
            let i = choose|i: int| 0 <= i < ids.len() && #[trigger] ids[i] == id;
            assert(s[i].0 == id);
        }
        assert(d =~= ids.to_set());
        assert(ids.no_duplicates()) by {
            assert forall|i: int, j: int| 0 <= i < ids.len() && 0 <= j < ids.len() && i != j implies ids[i]
                != ids[j] by {
                if i < j {
                    assert(s[i].0 != s[j].0);
                } else {
                    assert(s[j].0 != s[i].0);
                }
            }
        }
        ids.unique_seq_to_set();
    }

    /// Records that the window of note `id` runs and is stopped through `h`.
    /// Gives back the handle it replaces, if any, and the window's
    /// generation, which is the counter before the call; the counter then
    /// moves on by one.
    pub fn insert(&mut self, id: i64, h: H) -> (res: (Option<H>, u64))
        requires
            old(self).generation_counter() < 0xffff_ffff_ffff_ffff,
        ensures
            final(self)@ == old(self)@.insert(id, h),
            final(self).generations() == old(self).generations().insert(id, old(self).generation_counter()),
            final(self).generation_counter() == old(self).generation_counter() + 1,
            final(self).generations_in_order(),
            res.1 == old(self).generation_counter(),
            old(self)@.dom().contains(id) ==> res.0 == Some(old(self)@[id]),
            !old(self)@.dom().contains(id) ==> res.0 is None,
    {
        proof {
            use_type_invariant(&*self);
        }
        let generation = self.next;
        let mut entries: Vec<(i64, u64, H)> = Vec::new();
        std::mem::swap(&mut entries, &mut self.entries);
        let ghost before = entries@;
        let old_handle = match find_entry(&entries, id) {
            Some(i) => {
                proof {
                    lemma_entry_value(before, i as int);
                    lemma_removed(before, i as int);
                }
                let old_entry = entries.remove(i);
                assert(forall|k: int| 0 <= k < entries@.len() ==> entries@[k] == (if k < i {
                    before[k]
                } else {
                    before[k + 1]
                }));
                assert(forall|k: int| 0 <= k < entries@.len() ==> (#[trigger] entries@[k]).1 < generation);
                Some(old_entry.2)
            },
            None => {
                proof {
                    assert(entries_map(before) =~= entries_map(before).remove(id));
                    assert(generations_map(before) =~= generations_map(before).remove(id));
                }
                None
            },
        };
        let ghost mid = entries@;
        proof {
            assert(forall|k: int| 0 <= k < mid.len() ==> (#[trigger] mid[k]).1 < generation);
            assert(!has_id(mid, id)) by {
                if has_id(mid, id) {
                    let k = choose|k: int| 0 <= k < mid.len() && mid[k].0 == id;
                    lemma_entry_value(mid, k);
                }
            }
            assert(forall|k: int| 0 <= k < mid.len() ==> mid.contains(#[trigger] mid[k]));
        }
        entries.push((id, generation, h));
        proof {
            let s = entries@;
            let m = entries_map(mid).insert(id, h);
            let g = generations_map(mid).insert(id, generation);
            assert(ids_distinct(s)) by {
                assert forall|a: int, b: int| 0 <= a < b < s.len() implies s[a].0 != s[b].0 by {
                    if b == s.len() - 1 {
                        assert(s[a] == mid[a]);
                    }
                }
            }
            assert forall|x: i64| has_id(s, x) <==> m.dom().contains(x) by {
                if has_id(s, x) {
                    let k = choose|k: int| 0 <= k < s.len() && s[k].0 == x;
                    if k < s.len() - 1 {
                        assert(s[k] == mid[k]);
                    }
                }
                if has_id(mid, x) {
                    let k = choose|k: int| 0 <= k < mid.len() && mid[k].0 == x;
                    assert(s[k] == mid[k]);
                }
                if x == id {
                    assert(s[s.len() - 1].0 == id);
                }
            }
            assert forall|k: int| 0 <= k < s.len() implies m.dom().contains(#[trigger] s[k].0) && m[s[k].0]
                == s[k].2 && g[s[k].0] == s[k].1 by {
                if k < s.len() - 1 {
                    assert(s[k] == mid[k]);
                    lemma_entry_value(mid, k);
                }
            }
            lemma_same_maps(s, m, g);
            assert forall|k: int| 0 <= k < s.len() implies (#[trigger] s[k]).1 < generation + 1 by {
                if k < s.len() - 1 {
                    assert(s[k] == mid[k]);
                }
            }
            lemma_in_order(s, (generation + 1) as u64);
        }
        *self = RunningNotes { entries, next: generation + 1 };
        (old_handle, generation)
    }

    /// Forgets the window of note `id`, giving back its handle.
    pub fn remove(&mut self, id: i64) -> (res: Option<H>)
        ensures
            final(self)@ == old(self)@.remove(id),
            final(self).generations() == old(self).generations().remove(id),
            final(self).generations_in_order(),
            final(self).generation_counter() == old(self).generation_counter(),
            old(self)@.dom().contains(id) ==> res == Some(old(self)@[id]),
            !old(self)@.dom().contains(id) ==> res is None,
    {
        proof {
            use_type_invariant(&*self);
        }
        let mut entries: Vec<(i64, u64, H)> = Vec::new();
        std::mem::swap(&mut entries, &mut self.entries);
        let ghost before = entries@;
        match find_entry(&entries, id) {
            Some(i) => {
                proof {
                    lemma_entry_value(before, i as int);
                    lemma_removed(before, i as int);
                }
                let old_entry = entries.remove(i);
                proof {
                    assert(forall|k: int| 0 <= k < entries@.len() ==> entries@[k] == (if k < i {
                        before[k]
                    } else {
                        before[k + 1]
                    }));
                    assert(forall|k: int| 0 <= k < entries@.len() ==> (#[trigger] entries@[k]).1 < self.next);
                    lemma_in_order(entries@, self.next);
                }
                self.entries = entries;
                Some(old_entry.2)
            },
            None => {
                assert(entries_map(before) =~= entries_map(before).remove(id));
                assert(generations_map(before) =~= generations_map(before).remove(id));
                proof {
                    lemma_in_order(before, self.next);
                }
                self.entries = entries;
                None
            },
        }
    }

    /// What happens when the window of note `id`, started as generation
    /// `generation`, exits: it is forgotten only where the entry for `id`
    /// is still that generation, so a window that has since replaced it
    /// stays registered.
    pub fn remove_if_current(&mut self, id: i64, generation: u64) -> (res: Option<H>)
        ensures
            final(self)@ == after_window_exit(old(self)@, old(self).generations(), id, generation),
            final(self).generations() == (if old(self).generations().dom().contains(id)
                && old(self).generations()[id] == generation {
                old(self).generations().remove(id)
            } else {
                old(self).generations()
            }),
            final(self).generations_in_order(),
            final(self).generation_counter() == old(self).generation_counter(),
            (old(self).generations().dom().contains(id) && old(self).generations()[id] == generation)
                ==> res == Some(old(self)@[id]),
            !(old(self).generations().dom().contains(id) && old(self).generations()[id] == generation)
                ==> res is None,
    {
        proof {
            use_type_invariant(&*self);
            lemma_in_order(self.entries@, self.next);
        }
        match find_entry(&self.entries, id) {
            Some(i) => {
                proof {
                    lemma_entry_value(self.entries@, i as int);
                }
                if self.entries[i].1 == generation {
                    self.remove(id)
                } else {
                    None
                }
            },
            None => None,
        }
    }

    /// Forgets every running window, giving back all of them with their
    /// generations and handles; the generation counter stays.
    pub fn drain(&mut self) -> (res: Vec<(i64, u64, H)>)
        ensures
            final(self)@ == Map::<i64, H>::empty(),
            final(self).generations() == Map::<i64, u64>::empty(),
            final(self).generations_in_order(),
            final(self).generation_counter() == old(self).generation_counter(),
            ids_distinct(res@),
            entries_map(res@) == old(self)@,
            generations_map(res@) == old(self).generations(),
            forall|i: int| 0 <= i < res@.len() ==> (#[trigger] res@[i]).1 < old(self).generation_counter(),
    {
        proof {
            use_type_invariant(&*self);
        }
        let mut out: Vec<(i64, u64, H)> = Vec::new();
        std::mem::swap(&mut out, &mut self.entries);
        proof {
            lemma_in_order(self.entries@, self.next);
        }
        assert(entries_map(self.entries@) =~= Map::<i64, H>::empty());
        assert(generations_map(self.entries@) =~= Map::<i64, u64>::empty());
        out
    }
}

/// A reload stops and forgets every window, then starts fresh ones, which
/// get generations from the counter as it stood after the stop; every
/// stopped window was started before that. When a stopped window's
/// supervisor reports the exit afterwards, the fresh window of the same
/// note stays registered.
pub proof fn lemma_stale_exit_keeps_fresh_window<H>(
    handles: Map<i64, H>,
    generations: Map<i64, u64>,
    id: i64,
    stale: u64,
    counter_at_reload: u64,
)
    requires
        stale < counter_at_reload,
        generations.dom().contains(id),
        counter_at_reload <= generations[id],
    ensures
        after_window_exit(handles, generations, id, stale) == handles,
{
}

/// The colour in which a new note is stored: the one its request names.
pub fn new_note_color(requested: &str) -> (res: String)
    ensures
        res@ == requested@,
{
    requested.to_owned()
}

/// Whether a requested position is the default one, which the daemon
/// replaces by a cascade that depends on how many notes exist.
pub fn wants_cascade(pos_x: i32, pos_y: i32) -> (res: bool)
    ensures
        res == (pos_x == 100 && pos_y == 100),
{
    pos_x == 100 && pos_y == 100
}

/// The offset of the cascade for a note count, as `i32` arithmetic computes
/// it from the count cast to `i32`: `(count as i32 % 5) * 40`, where `%`
/// keeps the sign of its left operand.
pub open spec fn cascade_offset(count: usize) -> int {
    let c = count as i32;
    if c >= 0 {
        (c % 5) * 40
    } else {
        -(((-c) % 5) * 40)
    }
}

/// Where a new note goes: a requested position other than (100, 100) is
/// kept; (100, 100) moves down and right by 40 pixels per existing note,
/// five steps before it starts over, where the notes could be counted.
pub fn place_new_note(pos_x: i32, pos_y: i32, note_count: Option<usize>) -> (res: (i32, i32))
    ensures
        (pos_x == 100 && pos_y == 100 && note_count is Some) ==> res == (
            (100 + cascade_offset(note_count->0)) as i32,
            (100 + cascade_offset(note_count->0)) as i32,
        ),
        !(pos_x == 100 && pos_y == 100 && note_count is Some) ==> res == (pos_x, pos_y),
        (pos_x == 100 && pos_y == 100 && note_count is Some && note_count->0 <= 0x7fff_ffff) ==> res.0
            == 100 + 40 * (note_count->0 % 5) && res.1 == 100 + 40 * (note_count->0 % 5),
{
    proof {
        if note_count is Some && note_count->0 <= 0x7fff_ffff {
            lemma_cascade_position(note_count->0);
        }
    }
    if pos_x == 100 && pos_y == 100 {
        match note_count {
            Some(count) => {
                let c = count as i32;
                let off: i32 = if c >= 0 {
                    (c % 5) * 40
                } else {
                    -(((0 - (c + 1)) % 5 + 1) % 5 * 40)
                };
                proof {
                    if c < 0 {
                        assert(((-(c + 1)) % 5 + 1) % 5 == (-c) % 5);
                    }
                }
                (100 + off, 100 + off)
            },
            None => (pos_x, pos_y),
        }
    } else {
        (pos_x, pos_y)
    }
}

/// The answer to a request that the database refused.
pub fn db_error_response(detail: &str) -> (res: IpcResponse)
    ensures
        is_error_with(res, "DB Error: "@ + detail@),
{
    let mut message = "DB Error: ".to_owned();
    message.append(detail);
    IpcResponse::Error { message }
}

/// The answer to a new note that the database stored as `id`: created,
/// unless its window could not be started.
pub fn new_note_response(id: i64, spawn_error: Option<&str>) -> (res: IpcResponse)
    ensures
        match spawn_error {
            None => res == IpcResponse::NewNoteCreated { id },
            Some(e) => is_error_with(res, "Note created in DB, but failed to spawn window: "@ + e@),
        },
{
    match spawn_error {
        None => IpcResponse::NewNoteCreated { id },
        Some(e) => {
            let mut message = "Note created in DB, but failed to spawn window: ".to_owned();
            message.append(e);
            IpcResponse::Error { message }
        },
    }
}

/// What the daemon does about a deleted note's window: the answer, and the
/// handle through which to stop the window. The window's entry is forgotten
/// once the database has deleted the note; its handle is handed back only
/// where the request did not come from the window itself, and is otherwise
/// dropped with the entry.
pub fn on_note_deleted<H>(running: &mut RunningNotes<H>, id: i64, from_window: bool, db_error: Option<
    &str,
>) -> (res: (IpcResponse, Option<H>))
    ensures
        db_error is Some ==> final(running)@ == old(running)@ && res.1 is None && (is_error_with(res.0, "DB Error: "@ + db_error->0@)),
        db_error is None ==> final(running)@ == old(running)@.remove(id) && res.0 == IpcResponse::Success
            && (if !from_window && old(running)@.dom().contains(id) {
            res.1 == Some(old(running)@[id])
        } else {
            res.1 is None
        }),
{
    match db_error {
        Some(e) => (db_error_response(e), None),
        None => {
            let handle = running.remove(id);
            let to_stop = match handle {
                Some(h) => if !from_window {
                    Some(h)
                } else {
                    None
                },
                None => None,
            };
            (IpcResponse::Success, to_stop)
        },
    }
}

/// The answer to an update of a note.
pub fn update_response(db_error: Option<&str>) -> (res: IpcResponse)
    ensures
        db_error is None ==> res == IpcResponse::Success,
        db_error is Some ==> is_error_with(res, "DB Error: "@
            + db_error->0@),
{
    match db_error {
        None => IpcResponse::Success,
        Some(e) => db_error_response(e),
    }
}

/// The answer to a request for one note.
pub fn get_note_response(result: Result<Note, &str>) -> (res: IpcResponse)
    ensures
        match result {
            Ok(n) => res == IpcResponse::NoteDetails { note: n },
            Err(e) => is_error_with(res, "DB Error: "@ + e@),
        },
{
    match result {
        Ok(note) => IpcResponse::NoteDetails { note },
        Err(e) => db_error_response(e),
    }
}

/// The answer to a request for all notes.
pub fn list_notes_response(result: Result<Vec<Note>, &str>) -> (res: IpcResponse)
    ensures
        match result {
            Ok(ns) => res == IpcResponse::NotesList { notes: ns },
            Err(e) => is_error_with(res, "DB Error: "@ + e@),
        },
{
    match result {
        Ok(notes) => IpcResponse::NotesList { notes },
        Err(e) => db_error_response(e),
    }
}

/// The answer to a request to show every note.
pub fn show_all_response(spawn_error: Option<&str>) -> (res: IpcResponse)
    ensures
        spawn_error is None ==> res == IpcResponse::Success,
        spawn_error is Some ==> is_error_with(res, "Failed to show all notes: "@ + spawn_error->0@),
{
    match spawn_error {
        None => IpcResponse::Success,
        Some(e) => {
            let mut message = "Failed to show all notes: ".to_owned();
            message.append(e);
            IpcResponse::Error { message }
        },
    }
}

/// The answer to a request to reload every note.
pub fn reload_response(spawn_error: Option<&str>) -> (res: IpcResponse)
    ensures
        spawn_error is None ==> res == IpcResponse::Success,
        spawn_error is Some ==> is_error_with(res, "Failed to spawn notes on reload: "@ + spawn_error->0@),
{
    match spawn_error {
        None => IpcResponse::Success,
        Some(e) => {
            let mut message = "Failed to spawn notes on reload: ".to_owned();
            message.append(e);
            IpcResponse::Error { message }
        },
    }
}

/// Whether the window of a stored note has to be started: it has not,
/// where it is already running.
pub fn needs_window<H>(running: &RunningNotes<H>, id: i64) -> (res: bool)
    ensures
        res == !running@.dom().contains(id),
{
    !running.contains(id)
}

/// The arguments with which the daemon starts the window of note `id`:
/// `--id` and the id in decimal.
pub fn note_window_args(id: i64) -> (res: Vec<String>)
    ensures
        res@.len() == 2,
        res@[0]@ == "--id"@,
        res@[1]@ == int_decimal(id as int),
{
    let mut args: Vec<String> = Vec::new();
    args.push("--id".to_owned());
    let d = crate::decimal::i64_decimal(id);
    args.push(crate::text::string_from_chars(&d));
    args
}

/// A note window started by the daemon shows the note it was started for:
/// reading the id back from the command line (after the program's name)
/// gives the id that the daemon wrote.
pub proof fn lemma_window_reads_its_note(prog: Seq<char>, id: i64)
    ensures
        note_id_arg(seq![prog, "--id"@, int_decimal(id as int)]) == Some(id),
{
    lemma_parse_decimal_roundtrip(id);
    let a = seq![prog, "--id"@, int_decimal(id as int)];
    assert(a[a.len() - 2] == "--id"@);
    assert(a.last() == int_decimal(id as int));
}

/// The cascade of new notes: for any realistic number of notes, the
/// offset stays between 0 and 160 pixels, and it repeats every five notes.
pub proof fn lemma_cascade_cycle(count: usize)
    requires
        count + 5 <= 0x7fff_ffff,
    ensures
        0 <= cascade_offset(count) <= 160,
        cascade_offset(count) % 40 == 0,
        cascade_offset((count + 5) as usize) == cascade_offset(count),
{
    assert((count as i32) == count);
    assert(((count + 5) as usize as i32) == count + 5);
    assert((count + 5) % 5 == count % 5);
}

/// Where a new note asked for the default position goes, for every note
/// count that `i32` holds: `count % 5` steps of 40 pixels down and right of
/// (100, 100), so each existing note within a cycle of five moves the new
/// one 40 pixels further, and every fifth note starts over at (100, 100).
pub proof fn lemma_cascade_position(count: usize)
    requires
        count <= 0x7fff_ffff,
    ensures
        cascade_offset(count) == (count % 5) * 40,
        100 + cascade_offset(count) == 100 + 40 * (count % 5),
        count % 5 == 0 ==> cascade_offset(count) == 0,
        count % 5 != 4 && count < 0x7fff_ffff ==> cascade_offset((count + 1) as usize) == cascade_offset(
            count,
        ) + 40,
        count % 5 == 4 && count < 0x7fff_ffff ==> cascade_offset((count + 1) as usize) == 0,
{
    assert((count as i32) == count);
    if count < 0x7fff_ffff {
        assert(((count + 1) as usize as i32) == count + 1);
    }
}

} // verus!
