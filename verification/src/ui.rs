//! The text the picker screen shows besides names and previews: row flags,
//! preview header flags, footer counts, and the placement of overlays.

use vstd::prelude::*;
use crate::app::App;
use crate::jj::{owned, Workspace, WorkspaceView};
use crate::keymap::eq_lit;
use crate::text::chars_of;

verus! {

/// The flags after a row's name: ` *` current, ` !` conflict, ` ø` empty, ` ~` stale.
pub open spec fn row_flags_text(w: crate::jj::WorkspaceView) -> Seq<char> {
    (if w.is_current { " *"@ } else { Seq::empty() }) + (if w.conflict { " !"@ } else { Seq::empty() })
        + (if w.empty { " ø"@ } else { Seq::empty() }) + (if w.stale { " ~"@ } else { Seq::empty() })
}

/// The flags shown after a workspace's name in the list.
pub fn row_flags(w: &Workspace) -> (r: String)
    ensures
        r@ == row_flags_text(w@),
{
    let mut r = String::new();
    if w.is_current {
        r.append(" *");
    }
    if w.conflict {
        r.append(" !");
    }
    if w.empty {
        r.append(" ø");
    }
    if w.stale {
        r.append(" ~");
    }
    proof {
        assert(r@ =~= row_flags_text(w@));
    }
    r
}

/// The decimal digits of `n`.
pub open spec fn decimal(n: nat) -> Seq<char>
    decreases n,
{
    if n < 10 {
        seq![digit_char(n)]
    } else {
        decimal(n / 10).push(digit_char(n % 10))
    }
}

/// The digit character for `d < 10`.
pub open spec fn digit_char(d: nat) -> char {
    (('0' as u32) + d) as char
}

/// `n` written in decimal (as `usize`'s `Display` writes it).
pub fn decimal_string(n: usize) -> (r: String)
    ensures
        r@ == decimal(n as nat),
    decreases n,
{
    let d = (n % 10) as u8;
    let c = (48u8 + d) as char;
    if n < 10 {
        let mut r = String::new();
        r.push(c);
        proof {
            assert(r@ =~= seq![digit_char(n as nat)]);
        }
        r
    } else {
        let mut r = decimal_string(n / 10);
        r.push(c);
        r
    }
}

/// The footer counts: ` <filtered>/<total>`.
pub fn footer_counts(filtered: usize, total: usize) -> (r: String)
    ensures
        r@ == " "@ + decimal(filtered as nat) + "/"@ + decimal(total as nat),
{
    let mut r = owned(" ");
    r.append(decimal_string(filtered).as_str());
    r.append("/");
    r.append(decimal_string(total).as_str());
    r
}

/// A screen rectangle.
#[derive(Debug, Clone, Copy, PartialEq, Eq, Structural)]
pub struct Rect {
    pub x: u16,
    pub y: u16,
    pub width: u16,
    pub height: u16,
}

/// A rectangle of the given size centered within `area`, clipped to it.
pub fn centered_rect(width: u16, height: u16, area: Rect) -> (r: Rect)
    requires
        area.x + area.width <= u16::MAX,
        area.y + area.height <= u16::MAX,
    ensures
        r.x == area.x + (if area.width >= width { area.width - width } else { 0 }) / 2,
        r.y == area.y + (if area.height >= height { area.height - height } else { 0 }) / 2,
        r.width == if width < area.width { width } else { area.width },
        r.height == if height < area.height { height } else { area.height },
{
    let x = area.x + area.width.saturating_sub(width) / 2;
    let y = area.y + area.height.saturating_sub(height) / 2;
    Rect {
        x,
        y,
        width: if width < area.width { width } else { area.width },
        height: if height < area.height { height } else { area.height },
    }
}

/// How a row's name is drawn: bold for the current workspace, else in the
/// selected or the normal color.
#[derive(Debug, Clone, Copy, PartialEq, Eq, Structural)]
pub enum NameStyle {
    Current,
    Selected,
    Normal,
}

/// One row of the list as the screen shows it.
#[derive(Debug, Clone, PartialEq, Eq)]
pub struct ListRow {
    /// The row shows the selected workspace (marker and background).
    pub selected: bool,
    /// How the name is drawn.
    pub style: NameStyle,
    /// Each character of the name, with whether it matched the filter.
    pub name: Vec<(char, bool)>,
    /// The flags after the name.
    pub flags: String,
    /// The dimmed path, two spaces in.
    pub path: String,
}

/// The style of a row's name.
pub open spec fn name_style(w: WorkspaceView, selected: bool) -> NameStyle {
    if w.is_current {
        NameStyle::Current
    } else if selected {
        NameStyle::Selected
    } else {
        NameStyle::Normal
    }
}

/// The characters of `name`, each with whether its position matched.
pub open spec fn highlighted(name: Seq<char>, positions: Seq<usize>) -> Seq<(char, bool)> {
    Seq::new(name.len(), |i: int| (name[i], positions.contains(i as usize)))
}

/// The row for workspace `w` whose name matched at `positions`, when `sel` is
/// the selected workspace: it counts as selected when it has the selection's name.
pub open spec fn row_for(w: WorkspaceView, positions: Seq<usize>, sel: Option<WorkspaceView>) -> (
    bool,
    NameStyle,
    Seq<(char, bool)>,
    Seq<char>,
    Seq<char>,
) {
    let selected = sel matches Some(s) && s.name == w.name;
    (selected, name_style(w, selected), highlighted(w.name, positions), row_flags_text(w), "  "@ + w.path)
}

/// The view of a row.
pub open spec fn row_view(r: ListRow) -> (bool, NameStyle, Seq<(char, bool)>, Seq<char>, Seq<char>) {
    (r.selected, r.style, r.name@, r.flags@, r.path@)
}

/// True when `positions` holds `i`.
fn holds(positions: &[usize], i: usize) -> (r: bool)
    ensures
        r == positions@.contains(i),
{
    let mut k: usize = 0;
    while k < positions.len()
        invariant
            k <= positions@.len(),
            forall|j: int| 0 <= j < k ==> positions@[j] != i,
        decreases positions.len() - k,
    {
        if positions[k] == i {
            return true;
        }
        k = k + 1;
    }
    false
}

/// The characters of `name`, each marked when its position is in `positions`.
fn highlight(name: &str, positions: &[usize]) -> (r: Vec<(char, bool)>)
    ensures
        r@ == highlighted(name@, positions@),
{
    let c = chars_of(name);
    let mut r: Vec<(char, bool)> = Vec::new();
    let mut i: usize = 0;
    while i < c.len()
        invariant
            i <= c@.len(),
            c@ == name@,
            r@ =~= highlighted(name@, positions@).take(i as int),
        decreases c.len() - i,
    {
        let h = holds(positions, i);
        r.push((c[i], h));
        i = i + 1;
    }
    r
}

/// The rows of the list, in ranked order.
pub fn list_rows(app: &App) -> (r: Vec<ListRow>)
    requires
        app.wf(),
    ensures
        r@.len() == app@.matches().len(),
        forall|k: int|
            0 <= k < r@.len() ==> row_view(#[trigger] r@[k]) == row_for(
                app@.workspaces[app@.matches()[k].0 as int],
                app@.matches()[k].2,
                app@.selected_ws(),
            ),
{
    let sel = app.selected_workspace();
    let visible = app.visible_matches();
    let mut r: Vec<ListRow> = Vec::new();
    let mut k: usize = 0;
    while k < visible.len()
        invariant
            k <= visible@.len(),
            r@.len() == k,
            visible@.len() == app@.matches().len(),
            forall|j: int|
                0 <= j < visible@.len() ==> (#[trigger] visible@[j]).0@ == app@.workspaces[app@.matches()[j].0 as int]
                    && visible@[j].1@ == app@.matches()[j].2,
            match sel {
                Some(w) => app@.selected_ws() == Some(w@),
                None => app@.selected_ws() is None,
            },
            forall|j: int|
                0 <= j < k ==> row_view(#[trigger] r@[j]) == row_for(
                    app@.workspaces[app@.matches()[j].0 as int],
                    app@.matches()[j].2,
                    app@.selected_ws(),
                ),
        decreases visible.len() - k,
    {
        let (w, positions) = visible[k];
        let selected = match sel {
            Some(s) => eq_lit(chars_of(s.name.as_str()).as_slice(), w.name.as_str()),
            None => false,
        };
        let style = if w.is_current {
            NameStyle::Current
        } else if selected {
            NameStyle::Selected
        } else {
            NameStyle::Normal
        };
        let mut path = owned("  ");
        path.append(w.path.as_str());
        r.push(ListRow { selected, style, name: highlight(w.name.as_str(), positions), flags: row_flags(w), path });
        k = k + 1;
    }
    r
}

/// The header of the preview of workspace `w`.
#[derive(Debug, Clone, PartialEq, Eq)]
pub struct PreviewHeader {
    /// `name@`, in bold.
    pub title: String,
    /// ` <change id> · <description>`.
    pub summary: String,
    /// Show ` [conflict]`.
    pub conflict: bool,
    /// Show ` [empty]`.
    pub empty: bool,
    /// Show ` [stale]`.
    pub stale: bool,
}

/// The preview header for workspace `w`.
pub fn preview_header(w: &Workspace) -> (r: PreviewHeader)
    ensures
        r.title@ == w.name@ + "@"@,
        r.summary@ == " "@ + w.change_id@ + " · "@ + w.description@,
        r.conflict == w.conflict,
        r.empty == w.empty,
        r.stale == w.stale,
{
    let mut title = owned(w.name.as_str());
    title.append("@");
    let mut summary = owned(" ");
    summary.append(w.change_id.as_str());
    summary.append(" · ");
    summary.append(w.description.as_str());
    PreviewHeader { title, summary, conflict: w.conflict, empty: w.empty, stale: w.stale }
}

/// The forget-confirmation question for the selected workspace's name (`?`
/// when nothing is selected).
pub fn confirm_question(name: Option<&str>) -> (r: String)
    ensures
        r@ == "forget '"@ + (match name {
            Some(n) => n@,
            None => "?"@,
        }) + "' and delete its directory?"@,
{
    let mut r = owned("forget '");
    match name {
        Some(n) => r.append(n),
        None => r.append("?"),
    }
    r.append("' and delete its directory?");
    r
}

} // verus!
