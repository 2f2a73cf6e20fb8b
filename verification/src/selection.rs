//! The list that the picker shows, made of live sessions and cached projects,
//! and the way back from a row of that list to the entry it stands for.

use vstd::prelude::*;
use vstd::string::StringExecFns;
use crate::error::WsError;
use crate::project::{display_name_of, ProjectInfo, ProjectView};
use crate::tmux::{SessionInfo, SessionView};

verus! {

/// Something the user can pick: a live session or a project.
#[derive(Debug, PartialEq, Eq)]
pub enum SelectableItem {
    Session(String),
    Project(ProjectInfo),
}

/// What a selectable item holds, as text.
pub enum ItemView {
    Session(Seq<char>),
    Project(ProjectView),
}

impl View for SelectableItem {
    type V = ItemView;

    open spec fn view(&self) -> ItemView {
        match self {
            SelectableItem::Session(name) => ItemView::Session(name@),
            SelectableItem::Project(info) => ItemView::Project(info@),
        }
    }
}

impl DeepView for SelectableItem {
    type V = ItemView;

    open spec fn deep_view(&self) -> ItemView {
        self@
    }
}

impl Clone for SelectableItem {
    fn clone(&self) -> (copy: Self)
        ensures
            copy == *self,
    {
        match self {
            SelectableItem::Session(name) => SelectableItem::Session(name.clone()),
            SelectableItem::Project(info) => SelectableItem::Project(info.clone()),
        }
    }
}

/// The row that stands for an item: its kind, a colon and a space, and its name.
pub open spec fn label_of(item: ItemView) -> Seq<char> {
    match item {
        ItemView::Session(name) => "session: "@ + name,
        ItemView::Project(info) => "project: "@ + display_name_of(info),
    }
}

/// The session that picking an item leads to: the session itself, or the one
/// named after the project's directory.
pub open spec fn session_name_of(item: ItemView) -> Seq<char> {
    match item {
        ItemView::Session(name) => name,
        ItemView::Project(info) => info.name,
    }
}

impl SelectableItem {
    /// The row that the picker shows for this item.
    pub fn to_display_string(&self) -> (row: String)
        ensures
            row@ == label_of(self@),
    {
        match self {
            SelectableItem::Session(name) => {
                let mut row = String::from_str("session: ");
                row.append(name.as_str());
                row
            },
            SelectableItem::Project(info) => {
                let mut row = String::from_str("project: ");
                let shown = info.display_name();
                row.append(shown.as_str());
                row
            },
        }
    }

    /// The name of the session that picking this item leads to.
    pub fn session_name(&self) -> (name: &String)
        ensures
            name@ == session_name_of(self@),
    {
        match self {
            SelectableItem::Session(name) => name,
            SelectableItem::Project(info) => &info.name,
        }
    }
}

/// The row that parts the sessions from the projects. It stands for nothing.
pub const SEPARATOR: &'static str = "---";

/// The text of the separator row.
pub open spec fn separator_row() -> Seq<char> {
    "---"@
}

/// Whether the list gets a separator row: only inside the multiplexer, and
/// only where there are both sessions and projects to part.
pub open spec fn separated(session_count: int, project_count: int, in_tmux: bool) -> bool {
    in_tmux && session_count > 0 && project_count > 0
}

/// The entries on offer: every session, then every project, each in its order.
pub open spec fn candidates(sessions: Seq<SessionView>, projects: Seq<ProjectView>) -> Seq<
    ItemView,
> {
    Seq::new(
        sessions.len() + projects.len(),
        |i: int|
            if i < sessions.len() {
                ItemView::Session(sessions[i].name)
            } else {
                ItemView::Project(projects[i - sessions.len()])
            },
    )
}

/// The rows shown for `items`: one label each, and the separator row after
/// the sessions where there is one.
pub open spec fn rows_of(items: Seq<ItemView>, session_count: int, separator: bool) -> Seq<
    Seq<char>,
> {
    let labels = Seq::new(items.len(), |i: int| label_of(items[i]));
    if separator {
        labels.insert(session_count, separator_row())
    } else {
        labels
    }
}

/// What a row of the list stands for.
#[derive(Debug, Clone, Copy, PartialEq, Eq, Structural)]
pub enum Resolved {
    /// The separator row: nothing was selected.
    Separator,
    /// The entry at this place among the candidates.
    Item(usize),
    /// No row of the list.
    Invalid,
}

/// The way back from row `raw` to an entry, among `total` entries of which
/// the first `session_count` are sessions. A separator row, where there is
/// one, follows the sessions and moves every later entry down by one row.
pub open spec fn resolved(raw: usize, session_count: usize, total: usize, separator: bool) -> Resolved {
    if separator && raw == session_count {
        Resolved::Separator
    } else {
        let place = if separator && raw > session_count {
            raw - 1
        } else {
            raw as int
        };
        if place < total {
            Resolved::Item(place as usize)
        } else {
            Resolved::Invalid
        }
    }
}

/// Finds what row `raw` stands for.
pub fn resolve_index(raw: usize, session_count: usize, total: usize, separator: bool) -> (found:
    Resolved)
    ensures
        found == resolved(raw, session_count, total, separator),
{
    if separator && raw == session_count {
        Resolved::Separator
    } else {
        let place: usize = if separator && raw > session_count {
            raw - 1
        } else {
            raw
        };
        if place < total {
            Resolved::Item(place)
        } else {
            Resolved::Invalid
        }
    }
}

/// Every row of the list resolves to the entry whose label it shows, the
/// separator row to nothing, and a number past the last row to no entry:
/// with and without a separator, among the sessions and among the projects.
pub proof fn lemma_rows_resolve(items: Seq<ItemView>, session_count: usize, separator: bool, raw: usize)
    requires
        session_count <= items.len() <= usize::MAX,
    ensures
        ({
            let rows = rows_of(items, session_count as int, separator);
            let found = resolved(raw, session_count, items.len() as usize, separator);
            &&& rows.len() == items.len() + if separator { 1int } else { 0int }
            &&& raw < rows.len() ==> match found {
                Resolved::Separator => separator && raw == session_count && rows[raw as int]
                    == separator_row(),
                Resolved::Item(place) => {
                    &&& place < items.len()
                    &&& rows[raw as int] == label_of(items[place as int])
                    &&& place < session_count <==> raw < session_count
                },
                Resolved::Invalid => false,
            }
            &&& raw >= rows.len() ==> found == Resolved::Invalid
        }),
{
}

/// The sessions to offer. Inside the multiplexer they are the live
/// sessions, as `list` reports them. Outside it none is offered, and the
/// multiplexer is not asked.
pub fn offered_sessions<F: FnOnce() -> Vec<SessionInfo>>(in_tmux: bool, list: F) -> (offered: Vec<
    SessionInfo,
>)
    requires
        in_tmux ==> call_requires(list, ()),
    ensures
        in_tmux ==> call_ensures(list, (), offered),
        !in_tmux ==> offered.len() == 0,
{
    if in_tmux {
        list()
    } else {
        Vec::new()
    }
}

/// The list offered to the picker, with what is needed to find the way back
/// from a row to an entry.
#[derive(Debug)]
pub struct Selection {
    /// The entries on offer: sessions first, then projects.
    pub items: Vec<SelectableItem>,
    /// The rows to show.
    pub rows: Vec<String>,
    /// How many of the entries are sessions.
    pub session_count: usize,
    /// Whether a separator row follows the sessions.
    pub separator: bool,
}

impl Selection {
    /// The rows are those of the entries, and a separator stands only
    /// between entries.
    pub open spec fn well_formed(&self) -> bool {
        &&& self.session_count <= self.items.len()
        &&& self.separator ==> 0 < self.session_count < self.items.len()
        &&& self.rows.deep_view() == rows_of(
            self.items.deep_view(),
            self.session_count as int,
            self.separator,
        )
    }

    /// Makes the list for the live `sessions` and the cached `projects`.
    pub fn build(sessions: &Vec<SessionInfo>, projects: &Vec<ProjectInfo>, in_tmux: bool) -> (list:
        Selection)
        ensures
            list.well_formed(),
            list.items.deep_view() == candidates(sessions.deep_view(), projects.deep_view()),
            list.session_count == sessions.len(),
            list.separator == separated(sessions.len() as int, projects.len() as int, in_tmux),
            list.rows.deep_view() == rows_of(
                candidates(sessions.deep_view(), projects.deep_view()),
                sessions.len() as int,
                separated(sessions.len() as int, projects.len() as int, in_tmux),
            ),
    {
        let ghost wanted = candidates(sessions.deep_view(), projects.deep_view());
        let mut items: Vec<SelectableItem> = Vec::new();
        let mut rows: Vec<String> = Vec::new();
        let mut i: usize = 0;
        while i < sessions.len()
            invariant
                i <= sessions.len(),
                wanted == candidates(sessions.deep_view(), projects.deep_view()),
                items.len() == i,
                rows.len() == i,
                forall|k: int| 0 <= k < i ==> (#[trigger] items[k])@ == wanted[k],
                forall|k: int| 0 <= k < i ==> (#[trigger] rows[k])@ == label_of(wanted[k]),
            decreases sessions.len() - i,
        {
            let item = SelectableItem::Session(sessions[i].name.clone());
            rows.push(item.to_display_string());
            items.push(item);
            i += 1;
        }
        let mut j: usize = 0;
        while j < projects.len()
            invariant
                j <= projects.len(),
                wanted == candidates(sessions.deep_view(), projects.deep_view()),
                items.len() == sessions.len() + j,
                rows.len() == sessions.len() + j,
                forall|k: int| 0 <= k < items.len() ==> (#[trigger] items[k])@ == wanted[k],
                forall|k: int| 0 <= k < rows.len() ==> (#[trigger] rows[k])@ == label_of(wanted[k]),
            decreases projects.len() - j,
        {
            let item = SelectableItem::Project(projects[j].clone());
            rows.push(item.to_display_string());
            items.push(item);
            j += 1;
        }
        let separator = in_tmux && sessions.len() > 0 && projects.len() > 0;
        let ghost labels = rows.deep_view();
        assert(items.deep_view() =~= wanted);
        assert(labels =~= rows_of(wanted, sessions.len() as int, false));
        if separator {
            rows.insert(sessions.len(), String::from_str(SEPARATOR));
            assert(rows.deep_view() =~= labels.insert(sessions.len() as int, separator_row()));
        }
        Selection { items, rows, session_count: sessions.len(), separator }
    }

    /// Finds the entry that row `raw` stands for: none for the separator
    /// row, and a failure for a number that is no row of an entry.
    pub fn resolve(&self, raw: usize) -> (picked: Result<Option<SelectableItem>, WsError>)
        ensures
            match resolved(raw, self.session_count, self.items.len(), self.separator) {
                Resolved::Separator => picked == Ok::<Option<SelectableItem>, WsError>(None),
                Resolved::Item(place) => picked == Ok::<Option<SelectableItem>, WsError>(
                    Some(self.items[place as int]),
                ),
                Resolved::Invalid => picked == Err::<Option<SelectableItem>, WsError>(
                    WsError::InvalidSelection,
                ),
            },
    {
        match resolve_index(raw, self.session_count, self.items.len(), self.separator) {
            Resolved::Separator => Ok(None),
            Resolved::Item(place) => Ok(Some(self.items[place].clone())),
            Resolved::Invalid => Err(WsError::InvalidSelection),
        }
    }
}

} // verus!
