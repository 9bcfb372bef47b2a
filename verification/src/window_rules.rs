use vstd::prelude::*;

use crate::keyed::KeyedMap;
use crate::text::{chars_of, has_prefix, starts_with_chars};
use crate::viewing::{viewing_id, LastSavedNote};

verus! {

// Which window is which, and who gets the focus back when a panel closes.

pub const POSTIT_LABEL: &'static str = "postit";
pub const COMMAND_PALETTE_LABEL: &'static str = "command-palette";
pub const SETTINGS_LABEL: &'static str = "settings";
pub const APPLE_NOTES_PICKER_LABEL: &'static str = "apple-notes-picker";

/// The label of the window of the sticked note `id`.
pub open spec fn sticked_label(id: Seq<char>) -> Seq<char> {
    "sticked-"@ + id
}

pub fn sticked_window_label(id: &str) -> (res: String)
    ensures
        res@ == sticked_label(id@),
{
    let mut s = String::from_str("sticked-");
    s.append(id);
    s
}

/// The page that a sticked note's window shows.
pub fn sticked_window_url(id: &str) -> (res: String)
    ensures
        res@ == "index.html?window=sticked&id="@ + id@,
{
    let mut s = String::from_str("index.html?window=sticked&id=");
    s.append(id);
    s
}

/// The page that a note's viewing window shows.
pub fn viewing_window_url(id: &str) -> (res: String)
    ensures
        res@ == "index.html?window=sticked&id="@ + id@ + "&viewing=true"@,
{
    let mut s = sticked_window_url(id);
    s.append("&viewing=true");
    s
}

fn starts_with(s: &str, prefix: &str) -> (res: bool)
    ensures
        res == has_prefix(s@, prefix@),
{
    let a = chars_of(s);
    let b = chars_of(prefix);
    starts_with_chars(a.as_slice(), b.as_slice())
}

/// A sticked note's window (viewing windows included).
pub fn is_sticked_label(label: &str) -> (res: bool)
    ensures
        res == has_prefix(label@, "sticked-"@),
{
    starts_with(label, "sticked-")
}

/// The window of a note opened for viewing.
pub fn is_viewing_label(label: &str) -> (res: bool)
    ensures
        res == has_prefix(label@, "sticked-view-"@),
{
    starts_with(label, "sticked-view-")
}

/// A note shown for viewing, rather than a sticked note of its own.
pub fn is_viewing_note_id(id: &str) -> (res: bool)
    ensures
        res == has_prefix(id@, "view-"@),
{
    starts_with(id, "view-")
}

/// A note opened for viewing gets a viewing window: its label is that of a
/// sticked window and of a viewing window both.
pub proof fn law_viewing_note_gets_viewing_window(content: Seq<char>, path: Seq<char>)
    ensures
        has_prefix(sticked_label(viewing_id(content, path)), "sticked-view-"@),
        has_prefix(sticked_label(viewing_id(content, path)), "sticked-"@),
{
    reveal_strlit("sticked-");
    reveal_strlit("view-");
    reveal_strlit("sticked-view-");
    let l = sticked_label(viewing_id(content, path));
    assert(l.take(13) =~= "sticked-view-"@);
    assert(l.take(8) =~= "sticked-"@);
}

// ── Focus ───────────────────────────────────────────────────────

/// A window as the focus rules see it.
pub struct WindowInfo {
    pub label: String,
    pub focused: bool,
}

/// The label of the first sticked window that has the focus.
pub open spec fn first_focused_sticked(ws: Seq<WindowInfo>) -> Option<Seq<char>>
    decreases ws.len(),
{
    if ws.len() == 0 {
        None
    } else if has_prefix(ws[0].label@, "sticked-"@) && ws[0].focused {
        Some(ws[0].label@)
    } else {
        first_focused_sticked(ws.drop_first())
    }
}

/// The sticked window to give the focus back to when the settings close.
pub fn focused_sticked_window(windows: &Vec<WindowInfo>) -> (res: Option<String>)
    ensures
        match res {
            Some(l) => first_focused_sticked(windows@) == Some(l@),
            None => first_focused_sticked(windows@) is None,
        },
{
    let mut i: usize = 0;
    assert(windows@.skip(0) =~= windows@);
    while i < windows.len()
        invariant
            i <= windows@.len(),
            first_focused_sticked(windows@) == first_focused_sticked(windows@.skip(i as int)),
        decreases windows@.len() - i,
    {
        assert(windows@.skip(i as int).drop_first() =~= windows@.skip(i + 1));
        assert(windows@.skip(i as int)[0] == windows@[i as int]);
        if is_sticked_label(windows[i].label.as_str()) && windows[i].focused {
            return Some(windows[i].label.clone());
        }
        i = i + 1;
    }
    None
}

/// The labels that name sticked windows, in order.
pub open spec fn sticked_among(labels: Seq<Seq<char>>) -> Seq<Seq<char>>
    decreases labels.len(),
{
    if labels.len() == 0 {
        seq![]
    } else if has_prefix(labels.last(), "sticked-"@) {
        sticked_among(labels.drop_last()).push(labels.last())
    } else {
        sticked_among(labels.drop_last())
    }
}

pub open spec fn label_views(v: Seq<String>) -> Seq<Seq<char>> {
    Seq::new(v.len(), |i: int| v[i]@)
}

/// The sticked windows, which stay above other windows except while a
/// panel (the command palette or the settings) is open.
pub fn sticked_labels(labels: &Vec<String>) -> (res: Vec<String>)
    ensures
        label_views(res@) == sticked_among(label_views(labels@)),
{
    let ghost all = label_views(labels@);
    let mut out: Vec<String> = Vec::new();
    let mut i: usize = 0;
    while i < labels.len()
        invariant
            i <= labels@.len(),
            all == label_views(labels@),
            label_views(out@) == sticked_among(all.take(i as int)),
        decreases labels@.len() - i,
    {
        assert(all.take(i + 1).drop_last() =~= all.take(i as int));
        assert(all.take(i + 1).last() == labels@[i as int]@);
        if is_sticked_label(labels[i].as_str()) {
            out.push(labels[i].clone());
        }
        i = i + 1;
        assert(label_views(out@) =~= sticked_among(all.take(i as int)));
    }
    assert(all.take(labels@.len() as int) =~= all);
    out
}

/// Where the focus goes when a panel closes.
pub enum Refocus {
    /// Back to this window, if it is still open.
    Window(String),
    /// To the capture window.
    Postit,
    Nothing,
}

/// When the settings close: back to the sticked window that had the focus
/// when they opened; else to the capture window if it was showing.
pub fn after_settings_closed(previous: Option<String>, postit_was_visible: bool) -> (res: Refocus)
    ensures
        previous matches Some(l) ==> (res matches Refocus::Window(w) && w == l),
        previous is None && postit_was_visible ==> res is Postit,
        previous is None && !postit_was_visible ==> res is Nothing,
{
    match previous {
        Some(l) => Refocus::Window(l),
        None => if postit_was_visible {
            Refocus::Postit
        } else {
            Refocus::Nothing
        },
    }
}

/// When the command palette closes: show the capture window again if it
/// was showing and no note is open for viewing.
pub fn after_palette_closed(postit_was_visible: bool, labels: &Vec<String>) -> (res: bool)
    ensures
        res == (postit_was_visible && !exists|i: int| 0 <= i < labels@.len() && has_prefix(
            #[trigger] labels@[i]@,
            "sticked-view-"@,
        )),
{
    if !postit_was_visible {
        return false;
    }
    let mut i: usize = 0;
    while i < labels.len()
        invariant
            i <= labels@.len(),
            forall|j: int| 0 <= j < i ==> !has_prefix(#[trigger] labels@[j]@, "sticked-view-"@),
        decreases labels@.len() - i,
    {
        if is_viewing_label(labels[i].as_str()) {
            return false;
        }
        i = i + 1;
    }
    true
}

// ── Reopening and viewing notes ─────────────────────────────────

/// The path and folder of the note to reopen.
pub fn last_note_to_reopen(last: &Option<LastSavedNote>) -> (res: Result<(String, String), String>)
    ensures
        last matches Some(n) ==> (res matches Ok(p) && p.0 == n.path && p.1 == n.folder),
        last is None ==> (res matches Err(e) && e@ == "No note saved yet"@),
{
    match last {
        Some(n) => Ok((n.path.clone(), n.folder.clone())),
        None => Err(String::from_str("No note saved yet")),
    }
}

/// A note shown in a viewing window.
pub struct ViewingNoteContent {
    pub id: String,
    pub content: String,
    pub folder: String,
    pub path: String,
}

/// The notes shown in viewing windows, by their viewing id.
pub struct ViewingNotes {
    notes: KeyedMap<ViewingNoteContent>,
}

impl View for ViewingNotes {
    type V = Map<Seq<char>, ViewingNoteContent>;

    closed spec fn view(&self) -> Map<Seq<char>, ViewingNoteContent> {
        self.notes@
    }
}

impl ViewingNotes {
    pub fn new() -> (res: Self)
        ensures
            res@ == Map::<Seq<char>, ViewingNoteContent>::empty(),
    {
        ViewingNotes { notes: KeyedMap::new() }
    }

    /// Keep a note for its viewing window, under its id.
    pub fn insert(&mut self, note: ViewingNoteContent)
        ensures
            final(self)@ == old(self)@.insert(note.id@, note),
    {
        let id = note.id.clone();
        self.notes.insert(id.as_str(), note);
    }

    /// A sticked window closed: a viewing note's content is dropped.
    pub fn window_closed(&mut self, id: &str)
        ensures
            has_prefix(id@, "view-"@) ==> final(self)@ == old(self)@.remove(id@),
            !has_prefix(id@, "view-"@) ==> final(self)@ == old(self)@,
    {
        if is_viewing_note_id(id) {
            self.notes.remove(id);
        }
    }

    /// The content that a viewing window asks for.
    pub fn get_viewing_note_content(&self, id: &str) -> (res: Result<&ViewingNoteContent, String>)
        ensures
            self@.dom().contains(id@) ==> (res matches Ok(n) && *n == self@[id@]),
            !self@.dom().contains(id@) ==> (res matches Err(e) && e@ == "Viewing note content not found"@),
    {
        match self.notes.get(id) {
            Some(n) => Ok(n),
            None => Err(String::from_str("Viewing note content not found")),
        }
    }
}

} // verus!
