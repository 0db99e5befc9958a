//! What the browser's screen shows for a state: the bars' texts, the
//! visible part of the listing, and the details of the selected entry.

use vstd::prelude::*;
use vstd::string::*;
use crate::browser::{Browser, BrowserState, strings_view, well_formed, name_fits};
use crate::files::FileInfo;
use crate::lang::{AppText, DataText};
use crate::layout::{Area, ScreenLayout, arranged, panels_on_screen, sat_sub};
use crate::text::{joined, decimal, decimal_string, ellipsis, truncate_text, truncated, truncation_safe};

verus! {

broadcast use vstd::string::group_string_axioms;

/// One line of the listing.
pub struct Row {
    /// Where the line is drawn.
    pub area: Area,
    /// The entry's name, shortened to the column.
    pub label: String,
    /// Whether the entry is the selected one.
    pub highlighted: bool,
}

/// The contents of the details panel.
pub enum Details {
    /// Nothing is drawn (the listing shows no entry).
    Hidden,
    /// The parent entry is selected: this text is shown.
    Parent(String),
    /// These lines describe the selected entry.
    Lines(Vec<String>),
}

/// Everything the screen shows, in text.
pub struct Screen {
    /// The program's name, left in the title bar.
    pub title: String,
    /// The blank run that fills the title bar.
    pub title_fill: String,
    /// The note right in the title bar.
    pub notice: String,
    /// The title of the listing panel.
    pub list_title: String,
    /// The title of the details panel.
    pub info_title: String,
    /// The message bar's text.
    pub message: String,
    /// The visible lines of the listing.
    pub rows: Vec<Row>,
    /// The details panel.
    pub details: Details,
}

/// What is known of the selected entry on the file system.
pub struct SelectionFacts {
    /// Its size as computed and rendered, if it has been computed.
    pub cached_size: Option<String>,
    /// Whether it is a directory.
    pub is_dir: bool,
}

/// How many entries the listing shows: from `scroll`, as many as fit.
pub open spec fn row_count(s: BrowserState) -> int {
    if s.scroll < s.entries.len() {
        if s.max_visible <= s.entries.len() - s.scroll {
            s.max_visible
        } else {
            s.entries.len() - s.scroll
        }
    } else {
        0
    }
}

/// The width, in bytes, that listed names are shortened to.
pub open spec fn name_width(l: ScreenLayout) -> int {
    l.info_area.width - 1
}

/// Where line `k` of the listing is drawn: inside the listing panel's
/// frame, one row per entry.
pub open spec fn row_area(l: ScreenLayout, k: int) -> Area {
    Area {
        x: (l.list_panel.x + 1) as u16,
        y: (l.list_panel.y + k + 1) as u16,
        width: sat_sub(l.list_panel.width, 1),
        height: 1,
    }
}

/// Line `k` of the listing can be drawn: its position stays in the 16-bit
/// range, the column has room, and the name is cut on a character boundary.
pub open spec fn row_drawable(s: BrowserState, l: ScreenLayout, k: int) -> bool {
    &&& l.list_panel.x + 1 <= u16::MAX
    &&& l.list_panel.y + k + 1 <= u16::MAX
    &&& l.info_area.width >= 1
    &&& truncation_safe(s.entries[s.scroll + k].path@, name_width(l) as nat)
}

/// Every visible line of the listing can be drawn.
pub open spec fn drawable(s: BrowserState, l: ScreenLayout) -> bool {
    forall|k: int| 0 <= k < row_count(s) ==> row_drawable(s, l, k)
}

/// The message bar: the removal prompt naming the entry while a removal is
/// pending (the confirmation prompt once 'y' was pressed), the quick help
/// otherwise.
pub open spec fn message_text(s: BrowserState, lang: AppText) -> Seq<char> {
    match s.confirm {
        Some(idx) => if 0 <= idx < s.entries.len() {
            let prompt = if s.ready {
                lang.labels.bottom_bar.delete_text.press_enter_to_confirm@
            } else {
                lang.labels.bottom_bar.delete_text.press_yn_to_delete@
            };
            prompt + seq![' '] + s.entries[idx].path@ + seq![':']
        } else {
            Seq::empty()
        },
        None => lang.labels.bottom_bar.fast_help@,
    }
}

/// The size shown for the selected entry: the computed size if known, "..."
/// for a directory still being measured, else the entry's own size text.
pub open spec fn size_text(f: SelectionFacts, e: FileInfo) -> Seq<char> {
    match f.cached_size {
        Some(t) => t@,
        None => if f.is_dir {
            ellipsis()
        } else {
            e.human_size@
        },
    }
}

/// The detail lines of an entry: each label followed by its value; a blank
/// line closes the list for anything but a directory.
pub open spec fn detail_lines(d: DataText, e: FileInfo, size: Seq<char>, is_dir: bool) -> Seq<Seq<char>> {
    let lines = seq![
        d.size_human_format@ + size,
        d.size_byte@ + decimal(e.byte_size as nat),
        d.owner_uid@ + decimal(e.owner_uid as nat),
        d.owner_gid@ + decimal(e.owner_gid as nat),
        d.inodes@ + decimal(e.inode as nat),
        d.permissions@ + decimal(e.permissions as nat),
        d.nlinks@ + decimal(e.nlinks as nat),
    ];
    if is_dir {
        lines
    } else {
        lines.push(Seq::empty())
    }
}

/// The details panel: hidden when no entry is listed, the parent-folder
/// text when the parent entry is selected, else the detail lines of the
/// selected entry.
pub open spec fn details_match(d: Details, s: BrowserState, lang: AppText, f: SelectionFacts) -> bool {
    if row_count(s) == 0 {
        d is Hidden
    } else if s.selected == 0 {
        d matches Details::Parent(t) && t@ == lang.status.previous_folder@
    } else {
        let e = s.entries[s.selected];
        d matches Details::Lines(v) && strings_view(v@) == detail_lines(
            lang.data,
            e,
            size_text(f, e),
            f.is_dir,
        )
    }
}

/// The blank run of `n` spaces.
pub open spec fn blanks(n: nat) -> Seq<char> {
    Seq::new(n, |i: int| ' ')
}

/// `sc` shows state `s` on layout `l` in language `lang`.
pub open spec fn shows(sc: Screen, s: BrowserState, l: ScreenLayout, lang: AppText, f: SelectionFacts) -> bool {
    &&& sc.title@ == "Dusty"@
    &&& sc.title_fill@ == blanks(l.full.width as nat)
    &&& sc.notice@ == seq!['['] + lang.status.coming_soon@ + seq![']']
    &&& sc.list_title@ == lang.labels.left_area.title@
    &&& sc.info_title@ == lang.labels.right_area.title@
    &&& sc.message@ == message_text(s, lang)
    &&& sc.rows@.len() == row_count(s)
    &&& forall|k: int|
        0 <= k < sc.rows@.len() ==> {
            &&& (#[trigger] sc.rows@[k]).label@ == truncated(
                s.entries[s.scroll + k].path@,
                name_width(l) as nat,
            )
            &&& sc.rows@[k].highlighted == (s.scroll + k == s.selected)
            &&& sc.rows@[k].area == row_area(l, k)
        }
    &&& details_match(sc.details, s, lang, f)
}

fn visible_count(b: &Browser) -> (r: usize)
    requires
        well_formed(b@),
    ensures
        r == row_count(b@),
{
    let len = b.entry_count();
    let scroll = b.scroll();
    let mv = b.max_visible();
    if scroll < len {
        if mv <= len - scroll {
            mv
        } else {
            len - scroll
        }
    } else {
        0
    }
}

/// Whether every visible line of the listing can be drawn (see
/// [`drawable`]).
pub fn can_draw(b: &Browser, l: &ScreenLayout) -> (r: bool)
    requires
        well_formed(b@),
    ensures
        r == drawable(b@, *l),
{
    let count = visible_count(b);
    let len = b.entry_count();
    let mut k: usize = 0;
    while k < count
        invariant
            well_formed(b@),
            len == b@.entries.len(),
            count == row_count(b@),
            k <= count,
            forall|q: int| 0 <= q < k ==> row_drawable(b@, *l, q),
        decreases count - k,
    {
        let x_ok = (l.list_panel.x as u32) + 1 <= 65535;
        let y_ok = (l.list_panel.y as usize) + k + 1 <= 65535;
        if !x_ok || !y_ok || l.info_area.width < 1 {
            assert(!row_drawable(b@, *l, k as int));
            return false;
        }
        let i = b.scroll() + k;
        let name = b.entry(i).path.as_str();
        assert(name_fits(b@.entries[i as int]));
        let m = (l.info_area.width - 1) as usize;
        if name.len() > m && m > 3 {
            if !name.is_char_boundary(m - 2) {
                assert(!row_drawable(b@, *l, k as int));
                return false;
            }
        }
        k = k + 1;
    }
    true
}

fn blank_run(n: u16) -> (r: String)
    ensures
        r@ == blanks(n as nat),
{
    proof {
        reveal_strlit(" ");
        assert(" "@ =~= seq![' ']);
    }
    let mut r = String::new();
    let mut i: u16 = 0;
    while i < n
        invariant
            i <= n,
            r@ == blanks(i as nat),
        decreases n - i,
    {
        proof {
            reveal_strlit(" ");
            assert(" "@ =~= seq![' ']);
        }
        r.append(" ");
        i = i + 1;
        assert(r@ =~= blanks(i as nat));
    }
    r
}

fn message_for(b: &Browser, lang: &AppText) -> (r: String)
    requires
        well_formed(b@),
    ensures
        r@ == message_text(b@, *lang),
{
    proof {
        reveal_strlit(" ");
        reveal_strlit(":");
        assert(" "@ =~= seq![' ']);
        assert(":"@ =~= seq![':']);
    }
    match b.pending_removal() {
        Some(idx) => {
            if idx < b.entry_count() {
                let prompt = if b.removal_confirmed() {
                    lang.labels.bottom_bar.delete_text.press_enter_to_confirm.as_str()
                } else {
                    lang.labels.bottom_bar.delete_text.press_yn_to_delete.as_str()
                };
                let head = joined(prompt, " ");
                let named = joined(head.as_str(), b.entry(idx).path.as_str());
                joined(named.as_str(), ":")
            } else {
                String::new()
            }
        },
        None => lang.labels.bottom_bar.fast_help.clone(),
    }
}

fn labelled(label: &String, value: u64) -> (r: String)
    ensures
        r@ == label@ + decimal(value as nat),
{
    let v = decimal_string(value);
    joined(label.as_str(), v.as_str())
}

fn detail_lines_for(d: &DataText, e: &FileInfo, facts: &SelectionFacts) -> (r: Vec<String>)
    ensures
        strings_view(r@) == detail_lines(*d, *e, size_text(*facts, *e), facts.is_dir),
{
    proof {
        reveal_strlit("...");
        assert("..."@ =~= ellipsis());
    }
    let size = match &facts.cached_size {
        Some(t) => t.clone(),
        None => if facts.is_dir {
            String::from_str("...")
        } else {
            e.human_size.clone()
        },
    };
    let mut r: Vec<String> = Vec::new();
    r.push(joined(d.size_human_format.as_str(), size.as_str()));
    r.push(labelled(&d.size_byte, e.byte_size));
    r.push(labelled(&d.owner_uid, e.owner_uid as u64));
    r.push(labelled(&d.owner_gid, e.owner_gid as u64));
    r.push(labelled(&d.inodes, e.inode));
    r.push(labelled(&d.permissions, e.permissions as u64));
    r.push(labelled(&d.nlinks, e.nlinks));
    if !facts.is_dir {
        r.push(String::new());
    }
    assert(strings_view(r@) =~= detail_lines(*d, *e, size_text(*facts, *e), facts.is_dir));
    r
}

/// What the screen shows for browser `b` on layout `l` (see [`shows`]), or
/// `None` when some visible line cannot be drawn (see [`drawable`]).
pub fn screen(b: &Browser, l: &ScreenLayout, lang: &AppText, facts: &SelectionFacts) -> (r: Option<Screen>)
    requires
        well_formed(b@),
    ensures
        r is None <==> !drawable(b@, *l),
        r matches Some(sc) ==> shows(sc, b@, *l, *lang, *facts),
{
    if !can_draw(b, l) {
        return None;
    }
    proof {
        reveal_strlit("[");
        reveal_strlit("]");
        assert("["@ =~= seq!['[']);
        assert("]"@ =~= seq![']']);
    }
    let count = visible_count(b);
    let len = b.entry_count();
    let width = if l.info_area.width >= 1 { (l.info_area.width - 1) as usize } else { 0 };
    let mut rows: Vec<Row> = Vec::new();
    if count > 0 {
        assert(row_drawable(b@, *l, 0));
    }
    let mut k: usize = 0;
    while k < count
        invariant
            well_formed(b@),
            len == b@.entries.len(),
            drawable(b@, *l),
            count == row_count(b@),
            count > 0 ==> width == name_width(*l),
            k <= count,
            rows@.len() == k,
            forall|q: int|
                0 <= q < k ==> {
                    &&& (#[trigger] rows@[q]).label@ == truncated(
                        b@.entries[b@.scroll + q].path@,
                        name_width(*l) as nat,
                    )
                    &&& rows@[q].highlighted == (b@.scroll + q == b@.selected)
                    &&& rows@[q].area == row_area(*l, q)
                },
        decreases count - k,
    {
        assert(row_drawable(b@, *l, k as int));
        let i = b.scroll() + k;
        assert(name_fits(b@.entries[i as int]));
        let label = truncate_text(b.entry(i).path.as_str(), width);
        let area = Area {
            x: l.list_panel.x + 1,
            y: l.list_panel.y + (k as u16) + 1,
            width: l.list_panel.width.saturating_sub(1),
            height: 1,
        };
        rows.push(Row { area, label, highlighted: i == b.selected() });
        k = k + 1;
    }
    let details = if count == 0 {
        Details::Hidden
    } else if b.selected() == 0 {
        Details::Parent(lang.status.previous_folder.clone())
    } else {
        Details::Lines(detail_lines_for(&lang.data, b.entry(b.selected()), facts))
    };
    let notice = joined(joined("[", lang.status.coming_soon.as_str()).as_str(), "]");
    Some(
        Screen {
            title: String::from_str("Dusty"),
            title_fill: blank_run(l.full.width),
            notice,
            list_title: lang.labels.left_area.title.clone(),
            info_title: lang.labels.right_area.title.clone(),
            message: message_for(b, lang),
            rows,
            details,
        },
    )
}

/// On a laid-out screen every visible line can be drawn once the details
/// panel is at least two cells wide, the listing panel does not start in the
/// last 16-bit column, and each visible name is cut on a character boundary;
/// each of these is needed, as [`drawable`] shows.
pub proof fn lemma_laid_out_screen_draws(
    s: BrowserState,
    width: u16,
    height: u16,
    list: Area,
    info: Area,
    l: ScreenLayout,
)
    requires
        well_formed(s),
        panels_on_screen(width, height, list, info),
        arranged(width, height, list, info) == Some(l),
        s.max_visible == l.visible_rows,
        info.width >= 2,
        list.x + 1 <= u16::MAX,
        forall|k: int|
            0 <= k < row_count(s) ==> truncation_safe(
                #[trigger] s.entries[s.scroll + k].path@,
                (info.width - 2) as nat,
            ),
    ensures
        drawable(s, l),
{
    assert forall|k: int| 0 <= k < row_count(s) implies row_drawable(s, l, k) by {
        assert(truncation_safe(s.entries[s.scroll + k].path@, (info.width - 2) as nat));
        assert(name_width(l) == info.width - 2);
    }
}

/// The listing highlights exactly the row that shows the selected entry:
/// row `k` shows entry `scroll + k` and is highlighted just when that is the
/// selection; at most one row is highlighted, and when the selection lies in
/// the shown window its row is.
pub proof fn lemma_highlight_marks_selection(
    sc: Screen,
    s: BrowserState,
    l: ScreenLayout,
    lang: AppText,
    f: SelectionFacts,
)
    requires
        shows(sc, s, l, lang, f),
    ensures
        forall|k: int|
            0 <= k < sc.rows@.len() ==> (#[trigger] sc.rows@[k].highlighted <==> s.scroll + k
                == s.selected),
        forall|j: int, k: int|
            0 <= j < sc.rows@.len() && 0 <= k < sc.rows@.len() && #[trigger] sc.rows@[j].highlighted
                && #[trigger] sc.rows@[k].highlighted ==> j == k,
        s.scroll <= s.selected < s.scroll + sc.rows@.len() ==> sc.rows@[s.selected
            - s.scroll].highlighted,
{
    assert forall|k: int| 0 <= k < sc.rows@.len() implies (#[trigger] sc.rows@[k].highlighted
        <==> s.scroll + k == s.selected) by {
        assert(sc.rows@[k].highlighted == (s.scroll + k == s.selected));
    }
}

} // verus!
