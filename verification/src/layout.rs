//! Where the parts of the browser's screen go: the bars, the listing panel
//! and the details panel, as laid out by ratatui's constraint solver.

use vstd::prelude::*;
use ratatui::layout::{Constraint, Direction, Layout, Rect};
use ratatui::widgets::Block;

verus! {

/// A rectangle of terminal cells.
#[derive(Clone, Copy, Debug, PartialEq, Eq, Structural)]
pub struct Area {
    pub x: u16,
    pub y: u16,
    pub width: u16,
    pub height: u16,
}

/// The direction in which an area is cut.
#[derive(Clone, Copy, Debug, PartialEq, Eq, Structural)]
pub enum Axis {
    Vertical,
    Horizontal,
}

/// The size asked of one part of a cut.
#[derive(Clone, Copy, Debug, PartialEq, Eq, Structural)]
pub enum Share {
    /// Exactly this many cells.
    Length(u16),
    /// At least this many cells.
    Min(u16),
    /// This percentage of the cut area.
    Percentage(u16),
}

/// `part` is one of the parts of `area` cut along `axis`: it lies within
/// `area` along the axis and spans all of it across.
pub open spec fn part_of(part: Area, area: Area, axis: Axis) -> bool {
    match axis {
        Axis::Vertical => {
            &&& part.x == area.x
            &&& part.width == area.width
            &&& area.y <= part.y
            &&& part.y + part.height <= area.y + area.height
        },
        Axis::Horizontal => {
            &&& part.y == area.y
            &&& part.height == area.height
            &&& area.x <= part.x
            &&& part.x + part.width <= area.x + area.width
        },
    }
}

/// Where `a` starts along `axis`.
pub open spec fn axis_start(a: Area, axis: Axis) -> int {
    match axis {
        Axis::Vertical => a.y as int,
        Axis::Horizontal => a.x as int,
    }
}

/// How far `a` reaches along `axis`.
pub open spec fn axis_len(a: Area, axis: Axis) -> int {
    match axis {
        Axis::Vertical => a.height as int,
        Axis::Horizontal => a.width as int,
    }
}

/// `part` is the part of `area` that runs `len` cells from `start` along
/// `axis`.
pub open spec fn spans(part: Area, area: Area, axis: Axis, start: int, len: int) -> bool {
    &&& part_of(part, area, axis)
    &&& axis_start(part, axis) == start
    &&& axis_len(part, axis) == len
}

/// Cutting with a fixed length at each end and an open-ended middle,
/// `[Length(a), Min(0), Length(b)]`, on an area long enough for both ends:
/// the first `a` cells, then the middle, then the last `b` cells.
pub open spec fn bars_cut(shares: Seq<Share>, area: Area, axis: Axis, parts: Seq<Area>) -> bool {
    (shares.len() == 3 && shares[0] is Length && shares[1] == Share::Min(0) && shares[2] is Length
        && shares[0]->Length_0 + shares[2]->Length_0 <= axis_len(area, axis)) ==> {
        let a = shares[0]->Length_0 as int;
        let b = shares[2]->Length_0 as int;
        let s = axis_start(area, axis);
        let n = axis_len(area, axis);
        &&& spans(parts[0], area, axis, s, a)
        &&& spans(parts[1], area, axis, s + a, n - a - b)
        &&& spans(parts[2], area, axis, s + n - b, b)
    }
}

/// Cutting into two halves, `[Percentage(50), Percentage(50)]`: the first
/// half takes the middle cell of an odd length, the second the rest.
pub open spec fn halves_cut(shares: Seq<Share>, area: Area, axis: Axis, parts: Seq<Area>) -> bool {
    shares == seq![Share::Percentage(50), Share::Percentage(50)] ==> {
        let s = axis_start(area, axis);
        let n = axis_len(area, axis);
        let h = (n + 1) / 2;
        &&& spans(parts[0], area, axis, s, h)
        &&& spans(parts[1], area, axis, s + h, n - h)
    }
}

/// `area` does not reach past the 16-bit coordinate range.
pub open spec fn in_range(area: Area) -> bool {
    &&& area.x + area.width <= u16::MAX
    &&& area.y + area.height <= u16::MAX
}

/// Calls ratatui's `Layout::split` (default margin, legacy flex, no
/// spacing). Claimed of it: one part per share, each lying within the area
/// along the axis and spanning it across, as its required solver
/// constraints and the rounding of the solution give. For two cuts the
/// weighted constraints have a single best solution, which is stated:
/// fixed ends around an open middle when the area is long enough for both
/// ends (`bars_cut`), and two halves, the first rounded up (`halves_cut`).
/// Other sizes are not stated: where solutions tie, the solver's choice
/// depends on hash-map order, so two calls with the same arguments may
/// differ.
#[verifier::external_body]
fn split_area(axis: Axis, shares: &Vec<Share>, area: Area) -> (r: Vec<Area>)
    requires
        in_range(area),
    ensures
        r@.len() == shares@.len(),
        forall|k: int| 0 <= k < r@.len() ==> part_of(#[trigger] r@[k], area, axis),
        bars_cut(shares@, area, axis, r@),
        halves_cut(shares@, area, axis, r@),
{
    let direction = match axis {
        Axis::Vertical => Direction::Vertical,
        Axis::Horizontal => Direction::Horizontal,
    };
    let constraints: Vec<Constraint> = shares.iter().map(|s| match *s {
        Share::Length(n) => Constraint::Length(n),
        Share::Min(n) => Constraint::Min(n),
        Share::Percentage(n) => Constraint::Percentage(n),
    }).collect();
    let rect = Rect { x: area.x, y: area.y, width: area.width, height: area.height };
    let parts = Layout::default().direction(direction).constraints(constraints).split(rect);
    parts.iter().map(|p| Area { x: p.x, y: p.y, width: p.width, height: p.height }).collect()
}

/// Calls ratatui's `Block::inner` on a default block. Claimed of it: a block
/// without borders, titles or padding leaves the whole area inside.
#[verifier::external_body]
fn plain_block_inner(area: Area) -> (r: Area)
    ensures
        r == area,
{
    let rect = Rect { x: area.x, y: area.y, width: area.width, height: area.height };
    let inner = Block::default().inner(rect);
    Area { x: inner.x, y: inner.y, width: inner.width, height: inner.height }
}

/// Where everything goes on a screen of a given size.
#[derive(Clone, Copy, Debug, PartialEq, Eq, Structural)]
pub struct ScreenLayout {
    /// The whole screen.
    pub full: Area,
    /// The title bar, along the top row.
    pub top_bar: Area,
    /// The message bar, along the bottom row.
    pub bottom_bar: Area,
    /// The panel that lists the entries.
    pub list_panel: Area,
    /// The panel that shows the details of the selected entry.
    pub info_panel: Area,
    /// The text area inside the details panel.
    pub info_area: Area,
    /// How many entries the listing shows at once.
    pub visible_rows: u16,
}

/// `a - b`, or 0 when `b` exceeds `a`.
pub open spec fn sat_sub(a: u16, b: u16) -> u16 {
    if a >= b { (a - b) as u16 } else { 0 }
}

/// The screen built around the two panels: bars on the first and last rows,
/// the details text one cell in from the details panel's corner, eight rows
/// high, and as many listed entries as the details panel has rows inside
/// its frame. `None` when the details text's corner falls off the 16-bit
/// coordinate range.
pub open spec fn arranged(width: u16, height: u16, list: Area, info: Area) -> Option<ScreenLayout> {
    if info.x + 1 > u16::MAX || info.y + 1 > u16::MAX {
        None
    } else {
        Some(
            ScreenLayout {
                full: Area { x: 0, y: 0, width, height },
                top_bar: Area { x: 0, y: 0, width, height: 1 },
                bottom_bar: Area { x: 0, y: sat_sub(height, 1), width, height: 1 },
                list_panel: list,
                info_panel: info,
                info_area: Area {
                    x: (info.x + 1) as u16,
                    y: (info.y + 1) as u16,
                    width: sat_sub(info.width, 1),
                    height: 8,
                },
                visible_rows: sat_sub(info.height, 2),
            },
        )
    }
}

/// Two panels that can come out of cutting a `width` x `height` screen into
/// rows and the content row into columns: side by side on the same rows,
/// within the screen.
pub open spec fn panels_on_screen(width: u16, height: u16, list: Area, info: Area) -> bool {
    &&& list.y == info.y
    &&& list.height == info.height
    &&& list.y + list.height <= height
    &&& list.x + list.width <= width
    &&& info.x + info.width <= width
}

/// Builds the screen around two given panels (see [`arranged`]).
pub fn arrange(width: u16, height: u16, list: Area, info: Area) -> (r: Option<ScreenLayout>)
    ensures
        r == arranged(width, height, list, info),
{
    if info.x == u16::MAX || info.y == u16::MAX {
        return None;
    }
    Some(
        ScreenLayout {
            full: Area { x: 0, y: 0, width, height },
            top_bar: Area { x: 0, y: 0, width, height: 1 },
            bottom_bar: Area { x: 0, y: height.saturating_sub(1), width, height: 1 },
            list_panel: list,
            info_panel: info,
            info_area: Area {
                x: info.x + 1,
                y: info.y + 1,
                width: info.width.saturating_sub(1),
                height: 8,
            },
            visible_rows: info.height.saturating_sub(2),
        },
    )
}

/// The listing panel of a screen at least two rows high: the left half
/// (rounded up) of the rows between the bars.
pub open spec fn list_panel_of(width: u16, height: u16) -> Area {
    Area { x: 0, y: 1, width: ((width + 1) / 2) as u16, height: (height - 2) as u16 }
}

/// The details panel of a screen at least two rows high: the right half of
/// the rows between the bars.
pub open spec fn info_panel_of(width: u16, height: u16) -> Area {
    Area {
        x: ((width + 1) / 2) as u16,
        y: 1,
        width: (width - (width + 1) / 2) as u16,
        height: (height - 2) as u16,
    }
}

/// Lays out a `width` x `height` screen: the rows are cut into title bar,
/// content and message bar (one row, the rest, one row), the content into
/// two halves, listing left and details right, which become the panels of
/// [`arranged`]. On a screen under two rows the bars compete for the rows
/// and only this is stated: the panels are side by side within the screen.
pub fn screen_layout(width: u16, height: u16) -> (r: Option<ScreenLayout>)
    ensures
        height >= 2 ==> r == arranged(
            width,
            height,
            list_panel_of(width, height),
            info_panel_of(width, height),
        ),
        exists|list: Area, info: Area|
            panels_on_screen(width, height, list, info) && r == arranged(width, height, list, info),
{
    let full = Area { x: 0, y: 0, width, height };
    let row_parts = vec![Share::Length(1), Share::Min(0), Share::Length(1)];
    let rows = split_area(Axis::Vertical, &row_parts, full);
    assert(row_parts@ =~= seq![Share::Length(1), Share::Min(0), Share::Length(1)]);
    assert(part_of(rows@[1], full, Axis::Vertical));
    let content = plain_block_inner(rows[1]);
    let column_parts = vec![Share::Percentage(50), Share::Percentage(50)];
    let columns = split_area(Axis::Horizontal, &column_parts, content);
    assert(column_parts@ =~= seq![Share::Percentage(50), Share::Percentage(50)]);
    assert(part_of(columns@[0], content, Axis::Horizontal));
    assert(part_of(columns@[1], content, Axis::Horizontal));
    let list = columns[0];
    let info = columns[1];
    assert(panels_on_screen(width, height, list, info));
    if height >= 2 {
        assert(list == list_panel_of(width, height));
        assert(info == info_panel_of(width, height));
    }
    arrange(width, height, list, info)
}

/// A screen at least two rows high is always laid out, and lists as many
/// entries as the rows between the bars hold inside the panels' frames.
pub proof fn lemma_tall_screen_layout(width: u16, height: u16)
    requires
        height >= 2,
    ensures
        arranged(width, height, list_panel_of(width, height), info_panel_of(width, height)) matches Some(l)
            && l.visible_rows == sat_sub((height - 2) as u16, 2),
{
}

} // verus!
