//! The browser's state machine: which entry is selected, which part of the
//! listing is shown, and the two-step confirmation that guards removals.
//! The caller performs what a transition asks for (opening a directory,
//! removing an entry) and reports the outcome back.

use vstd::prelude::*;
use vstd::string::*;
use vstd::utf8::*;
use crate::files::FileInfo;
use crate::text::lemma_encoded_len_bound;

verus! {

broadcast use vstd::string::group_string_axioms;

/// A key press, as far as the browser tells keys apart.
#[derive(Clone, Copy, Debug, PartialEq, Eq, Structural)]
pub enum Key {
    Char(char),
    Enter,
    Up,
    Down,
    Other,
}

/// What a key press asks of the caller.
pub enum Action {
    /// Nothing.
    Stay,
    /// Leave the browser.
    Quit,
    /// Open this path if it is a directory, then report its listing with
    /// [`Browser::enter_directory`].
    Open(Vec<String>),
    /// Remove the file or directory tree at this path, then report the
    /// outcome with [`Browser::finish_removal`].
    Remove(Vec<String>),
}

/// [`Action`] with its path as character sequences.
pub enum Effect {
    Stay,
    Quit,
    Open(Seq<Seq<char>>),
    Remove(Seq<Seq<char>>),
}

/// The character sequences of a list of strings.
pub open spec fn strings_view(v: Seq<String>) -> Seq<Seq<char>> {
    v.map_values(|s: String| s@)
}

impl View for Action {
    type V = Effect;

    open spec fn view(&self) -> Effect {
        match self {
            Action::Stay => Effect::Stay,
            Action::Quit => Effect::Quit,
            Action::Open(p) => Effect::Open(strings_view(p@)),
            Action::Remove(p) => Effect::Remove(strings_view(p@)),
        }
    }
}

/// The abstract state of a [`Browser`].
pub struct BrowserState {
    /// The directory shown, as path components from ".".
    pub path: Seq<Seq<char>>,
    /// The listing; entry 0 stands for the parent directory.
    pub entries: Seq<FileInfo>,
    /// The index of the selected entry.
    pub selected: int,
    /// The index of the first entry shown.
    pub scroll: int,
    /// How many entries the listing shows at once.
    pub max_visible: int,
    /// The entry whose removal awaits confirmation.
    pub confirm: Option<int>,
    /// Whether that removal has been confirmed with 'y'.
    pub ready: bool,
}

/// The entry that stands for the parent directory.
pub open spec fn is_parent_entry(e: FileInfo) -> bool {
    &&& e.path@ == ".."@
    &&& e.byte_size == 0
    &&& e.human_size@ == Seq::<char>::empty()
    &&& e.owner_uid == 0
    &&& e.owner_gid == 0
    &&& e.inode == 0
    &&& e.permissions == 0
    &&& e.nlinks == 0
    &&& e.dir_info is None
}

/// A name's UTF-8 encoding fits the address space, as that of every string
/// in memory does.
pub open spec fn name_fits(e: FileInfo) -> bool {
    encode_utf8(e.path@).len() <= usize::MAX
}

/// What every reachable state satisfies: the parent entry leads the
/// listing, the selection is an entry, and a pending removal is that of the
/// selected entry, never of the parent entry.
pub open spec fn well_formed(s: BrowserState) -> bool {
    &&& s.path.len() >= 1
    &&& s.entries.len() >= 1
    &&& is_parent_entry(s.entries[0])
    &&& forall|i: int| 0 <= i < s.entries.len() ==> name_fits(#[trigger] s.entries[i])
    &&& 0 <= s.selected < s.entries.len()
    &&& 0 <= s.scroll
    &&& 0 <= s.max_visible <= u16::MAX
    &&& (s.confirm matches Some(i) ==> i == s.selected && i >= 1)
    &&& (s.ready ==> s.confirm is Some)
}

/// The path of entry `i` of the shown directory.
pub open spec fn entry_path(s: BrowserState, i: int) -> Seq<Seq<char>> {
    s.path.push(s.entries[i].path@)
}

/// `s` with no removal pending.
pub open spec fn cleared(s: BrowserState) -> BrowserState {
    BrowserState { confirm: None, ready: false, ..s }
}

/// The outcome of a key press. While a removal is pending, 'y' confirms
/// it, 'n' drops it, and Enter, once confirmed, asks for the removal (a
/// pending removal of the parent entry is dropped instead); other keys do
/// nothing. Otherwise 'd' asks to remove the selected entry (not the parent
/// entry), 'q' quits, Up and Down move the selection and scroll the window
/// to follow it, and Enter asks to open the selected entry.
pub open spec fn after_key(s: BrowserState, key: Key) -> (BrowserState, Effect) {
    match s.confirm {
        Some(idx) => match key {
            Key::Char(c) => if c == 'y' {
                (BrowserState { ready: true, ..s }, Effect::Stay)
            } else if c == 'n' {
                (cleared(s), Effect::Stay)
            } else {
                (s, Effect::Stay)
            },
            Key::Enter => if !s.ready {
                (s, Effect::Stay)
            } else if !(0 <= idx < s.entries.len()) || s.entries[idx].path@ == ".."@ {
                (cleared(s), Effect::Stay)
            } else {
                (s, Effect::Remove(entry_path(s, idx)))
            },
            _ => (s, Effect::Stay),
        },
        None => match key {
            Key::Char(c) => if c == 'd' {
                (
                    BrowserState {
                        confirm: if s.selected == 0 { None } else { Some(s.selected) },
                        ..s
                    },
                    Effect::Stay,
                )
            } else if c == 'q' {
                (s, Effect::Quit)
            } else {
                (s, Effect::Stay)
            },
            Key::Up => if s.selected > 0 {
                let sel = s.selected - 1;
                let scroll = if sel < s.scroll {
                    if s.scroll >= 1 { s.scroll - 1 } else { 0 }
                } else {
                    s.scroll
                };
                (BrowserState { selected: sel, scroll: scroll, ..s }, Effect::Stay)
            } else {
                (s, Effect::Stay)
            },
            Key::Down => if s.selected + 1 < s.entries.len() {
                let sel = s.selected + 1;
                let scroll = if sel >= s.scroll + s.max_visible { s.scroll + 1 } else { s.scroll };
                (BrowserState { selected: sel, scroll: scroll, ..s }, Effect::Stay)
            } else {
                (s, Effect::Stay)
            },
            Key::Enter => if 0 <= s.selected < s.entries.len() {
                (s, Effect::Open(entry_path(s, s.selected)))
            } else {
                (s, Effect::Stay)
            },
            Key::Other => (s, Effect::Stay),
        },
    }
}

/// The state once a requested removal has been carried out (`removed`) or
/// has failed: on success the entry leaves the listing and the selection
/// moves up by one; either way nothing is pending any more.
pub open spec fn after_removal(s: BrowserState, removed: bool) -> BrowserState {
    if removed {
        BrowserState {
            entries: s.entries.remove(s.confirm->0),
            selected: if s.selected >= 1 { s.selected - 1 } else { 0 },
            ..cleared(s)
        }
    } else {
        cleared(s)
    }
}

/// `t` shows the directory of the selected entry of `s`, listing `listing`
/// after the parent entry, with the first entry selected and shown first.
pub open spec fn entered(s: BrowserState, listing: Seq<FileInfo>, t: BrowserState) -> bool {
    &&& t.path == entry_path(s, s.selected)
    &&& t.entries.len() == listing.len() + 1
    &&& is_parent_entry(t.entries[0])
    &&& t.entries.skip(1) == listing
    &&& t.selected == 0
    &&& t.scroll == 0
    &&& t.max_visible == s.max_visible
    &&& t.confirm == s.confirm
    &&& t.ready == s.ready
}

/// The state of a browser that starts in "." with `listing`.
pub open spec fn initial(listing: Seq<FileInfo>, t: BrowserState) -> bool {
    &&& t.path == seq!["."@]
    &&& t.entries.len() == listing.len() + 1
    &&& is_parent_entry(t.entries[0])
    &&& t.entries.skip(1) == listing
    &&& t.selected == 0
    &&& t.scroll == 0
    &&& t.max_visible == 0
    &&& t.confirm is None
    &&& !t.ready
}

/// The browser: the shown directory's listing, the selection, the shown
/// window of the listing and the removal dialogue (see [`BrowserState`]).
pub struct Browser {
    path: Vec<String>,
    entries: Vec<FileInfo>,
    selected: usize,
    scroll: usize,
    max_visible: usize,
    confirm: Option<usize>,
    ready: bool,
}

impl View for Browser {
    type V = BrowserState;

    closed spec fn view(&self) -> BrowserState {
        BrowserState {
            path: strings_view(self.path@),
            entries: self.entries@,
            selected: self.selected as int,
            scroll: self.scroll as int,
            max_visible: self.max_visible as int,
            confirm: match self.confirm {
                Some(i) => Some(i as int),
                None => None,
            },
            ready: self.ready,
        }
    }
}

/// The entry that stands for the parent directory.
pub fn parent_entry() -> (r: FileInfo)
    ensures
        is_parent_entry(r),
        name_fits(r),
{
    proof {
        reveal_strlit("..");
    }
    let r = FileInfo {
        path: String::from_str(".."),
        byte_size: 0,
        human_size: String::new(),
        owner_uid: 0,
        owner_gid: 0,
        inode: 0,
        permissions: 0,
        nlinks: 0,
        dir_info: None,
    };
    proof {
        lemma_encoded_len_bound(r.path@);
    }
    r
}

fn clone_strings(v: &Vec<String>) -> (r: Vec<String>)
    ensures
        r@ == v@,
{
    let mut r: Vec<String> = Vec::new();
    let mut i: usize = 0;
    while i < v.len()
        invariant
            i <= v.len(),
            r@ == v@.take(i as int),
        decreases v.len() - i,
    {
        r.push(v[i].clone());
        i = i + 1;
        assert(r@ =~= v@.take(i as int));
    }
    assert(v@.take(i as int) =~= v@);
    r
}

fn with_parent(listing: Vec<FileInfo>) -> (r: Vec<FileInfo>)
    ensures
        r@.len() == listing@.len() + 1,
        is_parent_entry(r@[0]),
        name_fits(r@[0]),
        r@.skip(1) == listing@,
{
    let mut r = listing;
    r.insert(0, parent_entry());
    assert(r@.skip(1) =~= listing@);
    r
}

impl Browser {
    /// A browser showing "." with `listing` after the parent entry.
    pub fn new(listing: Vec<FileInfo>) -> (r: Browser)
        requires
            forall|i: int| 0 <= i < listing@.len() ==> name_fits(#[trigger] listing@[i]),
        ensures
            well_formed(r@),
            initial(listing@, r@),
    {
        proof {
            reveal_strlit(".");
        }
        let entries = with_parent(listing);
        let mut path: Vec<String> = Vec::new();
        path.push(String::from_str("."));
        let r = Browser {
            path,
            entries,
            selected: 0,
            scroll: 0,
            max_visible: 0,
            confirm: None,
            ready: false,
        };
        proof {
            assert(strings_view(r.path@) =~= seq!["."@]);
            assert forall|i: int| 0 <= i < r.entries@.len() implies name_fits(#[trigger] r.entries@[i]) by {
                if i > 0 {
                    assert(r.entries@[i] == r.entries@.skip(1)[i - 1]);
                }
            }
        }
        r
    }

    /// The path of entry `i`.
    fn path_of(&self, i: usize) -> (r: Vec<String>)
        requires
            i < self.entries@.len(),
        ensures
            strings_view(r@) == entry_path(self@, i as int),
    {
        let mut r = clone_strings(&self.path);
        r.push(self.entries[i].path.clone());
        assert(strings_view(r@) =~= strings_view(self.path@).push(self.entries@[i as int].path@));
        r
    }

    /// The path of the selected entry.
    pub fn selected_path(&self) -> (r: Vec<String>)
        requires
            well_formed(self@),
        ensures
            strings_view(r@) == entry_path(self@, self@.selected),
    {
        self.path_of(self.selected)
    }

    /// The components of the shown directory's path.
    pub fn current_path(&self) -> (r: Vec<String>)
        ensures
            strings_view(r@) == self@.path,
    {
        clone_strings(&self.path)
    }

    /// The index of the selected entry.
    pub fn selected(&self) -> (r: usize)
        ensures
            r == self@.selected,
    {
        self.selected
    }

    /// The index of the first entry shown.
    pub fn scroll(&self) -> (r: usize)
        ensures
            r == self@.scroll,
    {
        self.scroll
    }

    /// How many entries the listing shows at once.
    pub fn max_visible(&self) -> (r: usize)
        ensures
            r == self@.max_visible,
    {
        self.max_visible
    }

    /// The number of entries, the parent entry included.
    pub fn entry_count(&self) -> (r: usize)
        ensures
            r == self@.entries.len(),
    {
        self.entries.len()
    }

    /// Entry `i` of the listing.
    pub fn entry(&self, i: usize) -> (r: &FileInfo)
        requires
            i < self@.entries.len(),
        ensures
            *r == self@.entries[i as int],
    {
        &self.entries[i]
    }

    /// The entry whose removal awaits confirmation, if any.
    pub fn pending_removal(&self) -> (r: Option<usize>)
        ensures
            r matches Some(i) ==> self@.confirm == Some(i as int),
            r is None ==> self@.confirm is None,
    {
        self.confirm
    }

    /// Whether the pending removal has been confirmed with 'y'.
    pub fn removal_confirmed(&self) -> (r: bool)
        ensures
            r == self@.ready,
    {
        self.ready
    }

    /// Shows `rows` entries at once from now on.
    pub fn set_visible_rows(&mut self, rows: u16)
        requires
            well_formed(old(self)@),
        ensures
            well_formed(final(self)@),
            final(self)@ == (BrowserState { max_visible: rows as int, ..old(self)@ }),
    {
        self.max_visible = rows as usize;
    }

    fn clear_pending(&mut self)
        ensures
            final(self)@ == cleared(old(self)@),
    {
        self.confirm = None;
        self.ready = false;
    }

    /// Handles a key press (see [`after_key`]).
    pub fn handle_key(&mut self, key: Key) -> (a: Action)
        requires
            well_formed(old(self)@),
        ensures
            well_formed(final(self)@),
            (final(self)@, a@) == after_key(old(self)@, key),
    {
        match self.confirm {
            Some(idx) => match key {
                Key::Char(c) => {
                    if c == 'y' {
                        self.ready = true;
                    } else if c == 'n' {
                        self.clear_pending();
                    }
                    Action::Stay
                },
                Key::Enter => {
                    if !self.ready {
                        return Action::Stay;
                    }
                    if idx >= self.entries.len() {
                        self.clear_pending();
                        return Action::Stay;
                    }
                    proof {
                        reveal_strlit("..");
                    }
                    let parent_name = String::from_str("..");
                    if self.entries[idx].path == parent_name {
                        self.clear_pending();
                        Action::Stay
                    } else {
                        Action::Remove(self.path_of(idx))
                    }
                },
                _ => Action::Stay,
            },
            None => match key {
                Key::Char(c) => {
                    if c == 'd' {
                        if self.selected == 0 {
                            self.confirm = None;
                        } else {
                            self.confirm = Some(self.selected);
                        }
                        Action::Stay
                    } else if c == 'q' {
                        Action::Quit
                    } else {
                        Action::Stay
                    }
                },
                Key::Up => {
                    if self.selected > 0 {
                        self.selected = self.selected - 1;
                        if self.selected < self.scroll {
                            self.scroll = if self.scroll >= 1 { self.scroll - 1 } else { 0 };
                        }
                    }
                    Action::Stay
                },
                Key::Down => {
                    if self.selected < self.entries.len() - 1 {
                        self.selected = self.selected + 1;
                        if self.selected >= self.scroll && self.selected - self.scroll
                            >= self.max_visible {
                            self.scroll = self.scroll + 1;
                        }
                    }
                    Action::Stay
                },
                Key::Enter => Action::Open(self.path_of(self.selected)),
                Key::Other => Action::Stay,
            },
        }
    }

    /// Reports the outcome of a removal that [`Browser::handle_key`] asked
    /// for (see [`after_removal`]).
    pub fn finish_removal(&mut self, removed: bool)
        requires
            well_formed(old(self)@),
            old(self)@.confirm is Some,
            old(self)@.ready,
        ensures
            well_formed(final(self)@),
            final(self)@ == after_removal(old(self)@, removed),
    {
        if removed {
            let idx = self.confirm.unwrap();
            let _gone = self.entries.remove(idx);
            self.selected = if self.selected >= 1 { self.selected - 1 } else { 0 };
            proof {
                let e = self.entries@;
                assert forall|i: int| 0 <= i < e.len() implies name_fits(#[trigger] e[i]) by {
                    if i >= idx {
                        assert(e[i] == old(self)@.entries[i + 1]);
                    } else {
                        assert(e[i] == old(self)@.entries[i]);
                    }
                }
                assert(e[0] == old(self)@.entries[0]);
            }
        }
        self.clear_pending();
    }

    /// Shows the directory that [`Browser::handle_key`] asked to open, with
    /// its `listing` (see [`entered`]).
    pub fn enter_directory(&mut self, listing: Vec<FileInfo>)
        requires
            well_formed(old(self)@),
            old(self)@.confirm is None,
            forall|i: int| 0 <= i < listing@.len() ==> name_fits(#[trigger] listing@[i]),
        ensures
            well_formed(final(self)@),
            entered(old(self)@, listing@, final(self)@),
    {
        let name = self.entries[self.selected].path.clone();
        self.path.push(name);
        self.entries = with_parent(listing);
        self.selected = 0;
        self.scroll = 0;
        proof {
            assert(strings_view(self.path@) =~= entry_path(old(self)@, old(self)@.selected));
            let e = self.entries@;
            assert forall|i: int| 0 <= i < e.len() implies name_fits(#[trigger] e[i]) by {
                if i > 0 {
                    assert(e[i] == e.skip(1)[i - 1]);
                }
            }
        }
    }
}

/// Whether the size of the selected entry must be computed now: it is a
/// directory whose size is neither known nor being computed.
pub fn needs_size_scan(is_dir: bool, cached: bool, scanning: bool) -> (r: bool)
    ensures
        r == (is_dir && !cached && !scanning),
{
    is_dir && !cached && !scanning
}

/// Every key press keeps the state well formed.
pub proof fn lemma_key_keeps_well_formed(s: BrowserState, key: Key)
    requires
        well_formed(s),
    ensures
        well_formed(after_key(s, key).0),
{
}

/// Reporting a removal's outcome keeps the state well formed.
pub proof fn lemma_removal_keeps_well_formed(s: BrowserState, removed: bool)
    requires
        well_formed(s),
        s.confirm is Some,
        s.ready,
    ensures
        well_formed(after_removal(s, removed)),
{
    if removed {
        let t = after_removal(s, removed);
        let idx = s.confirm->0;
        assert forall|i: int| 0 <= i < t.entries.len() implies name_fits(#[trigger] t.entries[i]) by {
            if i >= idx {
                assert(t.entries[i] == s.entries[i + 1]);
            } else {
                assert(t.entries[i] == s.entries[i]);
            }
        }
        assert(t.entries[0] == s.entries[0]);
    }
}

/// Key presses never change the listing or the shown directory; only a
/// reported removal or an entered directory does.
pub proof fn lemma_key_keeps_listing(s: BrowserState, key: Key)
    ensures
        after_key(s, key).0.entries == s.entries,
        after_key(s, key).0.path == s.path,
{
}

/// A removal is asked for only by Enter, once a removal is pending and
/// confirmed, and only for the pending entry, which is never the parent
/// entry.
pub proof fn lemma_removal_needs_confirmation(s: BrowserState, key: Key)
    requires
        well_formed(s),
        after_key(s, key).1 is Remove,
    ensures
        key == Key::Enter,
        s.ready,
        s.confirm matches Some(i) && i >= 1 && after_key(s, key).1 == Effect::Remove(
            entry_path(s, i),
        ),
{
}

/// The removal dialogue: 'd' on an entry other than the parent entry,
/// then 'y', then Enter asks to remove exactly that entry; a successful
/// removal then drops that entry alone and selects the entry above it,
/// while a failed one leaves the listing as it was. Enter without the 'y'
/// does nothing, and 'n' drops the request.
pub proof fn lemma_removal_dialogue(s: BrowserState, removed: bool)
    requires
        well_formed(s),
        s.confirm is None,
        s.selected >= 1,
        s.entries[s.selected].path@ != ".."@,
    ensures
        ({
            let (s1, e1) = after_key(s, Key::Char('d'));
            let (s2, e2) = after_key(s1, Key::Char('y'));
            let (s3, e3) = after_key(s2, Key::Enter);
            let s4 = after_removal(s3, removed);
            &&& e1 == Effect::Stay && e2 == Effect::Stay
            &&& e3 == Effect::Remove(entry_path(s, s.selected))
            &&& s4.entries == (if removed {
                s.entries.remove(s.selected)
            } else {
                s.entries
            })
            &&& s4.selected == (if removed { s.selected - 1 } else { s.selected })
            &&& s4.confirm is None && !s4.ready
            &&& s4.path == s.path && s4.scroll == s.scroll
        }),
        ({
            let (s1, e1) = after_key(s, Key::Char('d'));
            let (s2, e2) = after_key(s1, Key::Enter);
            &&& e2 == Effect::Stay && s2 == s1
            &&& s1.confirm == Some(s.selected)
        }),
        ({
            let (s1, e1) = after_key(s, Key::Char('d'));
            let (s2, e2) = after_key(s1, Key::Char('n'));
            &&& e2 == Effect::Stay
            &&& s2 == s
        }),
{
}

/// The parent entry cannot be put up for removal.
pub proof fn lemma_parent_not_removable(s: BrowserState)
    requires
        well_formed(s),
        s.confirm is None,
        s.selected == 0,
    ensures
        after_key(s, Key::Char('d')).0 == s,
{
}

/// Moving up then down returns to the same entry, and moving down then up
/// too, whenever the first move is possible.
pub proof fn lemma_up_down(s: BrowserState)
    requires
        well_formed(s),
        s.confirm is None,
    ensures
        s.selected > 0 ==> after_key(after_key(s, Key::Up).0, Key::Down).0.selected == s.selected,
        s.selected + 1 < s.entries.len() ==> after_key(after_key(s, Key::Down).0, Key::Up).0.selected
            == s.selected,
{
}

/// Entering a directory keeps the state well formed, provided the listing's
/// names fit in memory as they always do.
pub proof fn lemma_enter_keeps_well_formed(s: BrowserState, listing: Seq<FileInfo>, t: BrowserState)
    requires
        well_formed(s),
        s.confirm is None,
        forall|i: int| 0 <= i < listing.len() ==> name_fits(#[trigger] listing[i]),
        entered(s, listing, t),
    ensures
        well_formed(t),
{
    assert forall|i: int| 0 <= i < t.entries.len() implies name_fits(#[trigger] t.entries[i]) by {
        if i > 0 {
            assert(t.entries[i] == t.entries.skip(1)[i - 1]);
        }
    }
}

/// While a removal is pending, every key other than 'y', 'n' and Enter is
/// ignored: nothing is asked, and the whole state stays as it was, the
/// selection and the entry put up for removal included. So the entry that a
/// removal names is always the one selected when 'd' was pressed.
pub proof fn lemma_pending_removal_ignores_other_keys(s: BrowserState, key: Key)
    requires
        s.confirm is Some,
        key != Key::Enter,
        key != Key::Char('y'),
        key != Key::Char('n'),
    ensures
        after_key(s, key).0 == s,
        after_key(s, key).1 == Effect::Stay,
{
}

/// While a removal is pending, 'y' only confirms it: the listing, the
/// selection and the entry put up for removal stay, and nothing is asked.
pub proof fn lemma_confirm_keeps_target(s: BrowserState)
    requires
        s.confirm is Some,
    ensures
        after_key(s, Key::Char('y')).0.ready,
        after_key(s, Key::Char('y')).0.confirm == s.confirm,
        after_key(s, Key::Char('y')).0.selected == s.selected,
        after_key(s, Key::Char('y')).0.scroll == s.scroll,
        after_key(s, Key::Char('y')).0.entries == s.entries,
        after_key(s, Key::Char('y')).0.path == s.path,
        after_key(s, Key::Char('y')).1 == Effect::Stay,
{
}

} // verus!
