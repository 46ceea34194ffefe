use vstd::prelude::*;

use crate::file_entry::FileEntry;
use crate::naming::{is_first_free, unique_child_path, unique_file_path, views};
use crate::paths::{
    file_name_of, in_trash, is_in_trash, join, join_path, opt_view, parent_of, paths_equal,
    path_file_name, path_parent, path_starts_with, same_path, starts_with_path,
};
use crate::sorting::{
    lemma_listing_ties, lemma_stable_sort_unique, order_of, sort_entries, stably_sorted,
    visible_entries, visible_pred, Arrangement, SortColumn, SortDirection,
};
use crate::text::{lex_order, lowercase, string_from_chars, trim, trimmed, Order};

verus! {

/// How the folder is shown: side-by-side columns or one list.
#[derive(Clone, Copy, Debug, PartialEq, Eq, Structural)]
pub enum ViewMode {
    Columns,
    List,
}

/// One column of the browser: a folder, what it shows, and the selected row.
pub struct Column {
    pub path: String,
    pub entries: Vec<FileEntry>,
    pub selected: Option<usize>,
}

/// A column as the contracts see it.
pub struct ColumnView {
    pub path: Seq<char>,
    pub entries: Seq<FileEntry>,
    pub selected: Option<int>,
}

pub open spec fn opt_int(o: Option<usize>) -> Option<int> {
    match o {
        Some(i) => Some(i as int),
        None => None,
    }
}

impl View for Column {
    type V = ColumnView;

    open spec fn view(&self) -> ColumnView {
        ColumnView { path: self.path@, entries: self.entries@, selected: opt_int(self.selected) }
    }
}

impl ColumnView {
    /// The selection, if any, is one of the rows.
    pub open spec fn selection_valid(self) -> bool {
        match self.selected {
            Some(i) => 0 <= i < self.entries.len(),
            None => true,
        }
    }
}

/// An entry waiting for its removal animation to finish; `started_at` is
/// a monotonic clock reading in nanoseconds.
pub struct PendingDeletion {
    pub path: String,
    pub started_at: u64,
}

/// A deleted entry that could be put back.
pub struct UndoEntry {
    pub original_path: String,
    pub trash_path: String,
}

/// The dialog over the browser, if any.
pub enum ModalState {
    Closed,
    Rename { path: String },
    NewFolder { parent: String },
    NewFile { parent: String },
    GetInfo { entry: FileEntry },
    ConfirmDelete { path: String, is_dir: bool },
}

/// What removing an entry does on disk: inside the trash it is deleted for
/// good, elsewhere it is moved to the trash.
#[derive(Clone, Copy, Debug, PartialEq, Eq, Structural)]
pub enum Removal {
    MoveToTrash,
    DeletePermanently,
}

pub open spec fn removal_for(path: Seq<char>) -> Removal {
    if in_trash(path) {
        Removal::DeletePermanently
    } else {
        Removal::MoveToTrash
    }
}

/// What confirming the dialog asks the filesystem to do.
pub enum ModalAction {
    Nothing,
    Rename { from: String, to: String },
    CreateFolder { path: String },
    CreateFile { path: String },
    Delete { path: String, is_dir: bool, removal: Removal },
}

/// What opening an entry asks for.
pub enum OpenAction {
    Nothing,
    /// Show this folder alone.
    Navigate { path: String },
    /// Show this folder in a new column after column `after`.
    OpenColumn { after: usize, path: String },
    /// Open this file with the desktop's default application.
    OpenFile { path: String },
}

/// Where an entry dropped on the trash starts its flight: its column and row.
pub struct FlightStart {
    pub col_ix: usize,
    pub entry_ix: usize,
    pub is_dir: bool,
}

/// What dropping an entry on the trash asks for.
pub struct DropPlan {
    pub flight: Option<FlightStart>,
    pub removal: Removal,
}

/// The state of a file browser pane: its columns, ordering, selection,
/// dialog, search and pending deletions.
pub struct FileListView {
    pub columns: Vec<Column>,
    pub search_results: Vec<FileEntry>,
    pub searching: bool,
    pub search_generation: u64,
    pub last_click: Option<(usize, usize, u64)>,
    pub show_hidden: bool,
    pub view_mode: ViewMode,
    pub sort_column: SortColumn,
    pub sort_direction: SortDirection,
    pub deleting: Vec<PendingDeletion>,
    pub delete_animation_active: bool,
    pub dragged_path: Option<String>,
    pub sidebar_collapsed: bool,
    pub modal_state: ModalState,
    pub reduce_motion: bool,
    pub undo_stack: Vec<UndoEntry>,
    pub last_error: Option<(String, u64)>,
}

/// The order of the sort header after a click on `clicked`: the same column
/// flips its direction; another column starts descending for dates and
/// sizes, ascending otherwise.
pub open spec fn toggled_sort(
    column: SortColumn,
    direction: SortDirection,
    clicked: SortColumn,
) -> (SortColumn, SortDirection) {
    if column == clicked {
        (
            column,
            match direction {
                SortDirection::Ascending => SortDirection::Descending,
                SortDirection::Descending => SortDirection::Ascending,
            },
        )
    } else {
        (
            clicked,
            match clicked {
                SortColumn::DateModified | SortColumn::Size => SortDirection::Descending,
                _ => SortDirection::Ascending,
            },
        )
    }
}

/// Clicking a sort header twice restores the order it had.
pub proof fn lemma_toggle_twice(column: SortColumn, direction: SortDirection)
    ensures
        toggled_sort(
            toggled_sort(column, direction, column).0,
            toggled_sort(column, direction, column).1,
            column,
        ) == (column, direction),
{
}

/// A click on another column's header shows dates and sizes newest and
/// largest first, names and kinds in ascending order: of two entries of the
/// same folder-ness, the later modified or the larger comes first under
/// dates or sizes, and under names the one whose lowercased name comes
/// first.
pub proof fn lemma_switch_column(
    column: SortColumn,
    direction: SortDirection,
    clicked: SortColumn,
    a: FileEntry,
    b: FileEntry,
)
    requires
        column != clicked,
        a.is_directory() == b.is_directory(),
    ensures
        toggled_sort(column, direction, clicked).0 == clicked,
        (toggled_sort(column, direction, clicked).1 == SortDirection::Descending) <==> (clicked
            == SortColumn::DateModified || clicked == SortColumn::Size),
        a.modified matches Some(t) ==> (b.modified matches Some(u) ==> (clicked == SortColumn::DateModified
            && t.instant() > u.instant() ==> order_of(
            Arrangement::Listing {
                column: clicked,
                direction: toggled_sort(column, direction, clicked).1,
            },
            a,
            b,
        ) == Order::Less)),
        clicked == SortColumn::Size && a.size > b.size ==> order_of(
            Arrangement::Listing {
                column: clicked,
                direction: toggled_sort(column, direction, clicked).1,
            },
            a,
            b,
        ) == Order::Less,
        clicked == SortColumn::Name && lex_order(lowercase(a.name@), lowercase(b.name@)) == Order::Less
            ==> order_of(
            Arrangement::Listing {
                column: clicked,
                direction: toggled_sort(column, direction, clicked).1,
            },
            a,
            b,
        ) == Order::Less,
{
    lemma_listing_ties(a, b, clicked);
    lemma_listing_ties(b, a, clicked);
}

pub open spec fn listing_of(
    raw: Seq<FileEntry>,
    shown: Seq<FileEntry>,
    show_hidden: bool,
    column: SortColumn,
    direction: SortDirection,
) -> bool {
    stably_sorted(
        shown,
        raw.filter(visible_pred(show_hidden)),
        (Arrangement::Listing { column, direction }),
    )
}

/// What a column lists depends only on the entries read and the view's
/// settings: two listings of the same entries with the same settings are
/// equal, so rereading an unchanged folder (or showing hidden files and
/// hiding them again) gives back the same rows in the same order.
pub proof fn lemma_listing_determined(
    raw: Seq<FileEntry>,
    a: Seq<FileEntry>,
    b: Seq<FileEntry>,
    show_hidden: bool,
    column: SortColumn,
    direction: SortDirection,
)
    requires
        listing_of(raw, a, show_hidden, column, direction),
        listing_of(raw, b, show_hidden, column, direction),
    ensures
        a == b,
{
    lemma_stable_sort_unique(
        a,
        b,
        raw.filter(visible_pred(show_hidden)),
        Arrangement::Listing { column, direction },
    );
}

impl FileListView {
    pub open spec fn columns_view(&self) -> Seq<ColumnView> {
        self.columns@.map_values(|c: Column| c@)
    }

    pub open spec fn arrangement(&self) -> Arrangement {
        Arrangement::Listing { column: self.sort_column, direction: self.sort_direction }
    }

    /// Every column's selection is one of its rows.
    pub open spec fn selections_valid(&self) -> bool {
        forall|i: int| 0 <= i < self.columns@.len() ==> (#[trigger] self.columns@[i])@.selection_valid()
    }

    fn single_column(path: String, entries: Vec<FileEntry>) -> (r: Vec<Column>)
        ensures
            r@.len() == 1,
            r@[0].path == path,
            r@[0].entries == entries,
            r@[0].selected.is_none(),
    {
        let mut v: Vec<Column> = Vec::new();
        v.push(Column { path, entries, selected: None });
        v
    }

    /// A browser showing `cwd`, whose entries as read are `raw`: hidden
    /// files are not shown and the listing is by name, ascending.
    pub fn new(cwd: String, raw: Vec<FileEntry>) -> (r: FileListView)
        ensures
            r.columns@.len() == 1,
            r.columns@[0].path == cwd,
            listing_of(raw@, r.columns@[0].entries@, false, SortColumn::Name, SortDirection::Ascending),
            r.columns@[0].selected.is_none(),
            r.search_results@.len() == 0,
            !r.searching,
            r.search_generation == 0,
            r.last_click.is_none(),
            !r.show_hidden,
            r.view_mode == ViewMode::Columns,
            r.sort_column == SortColumn::Name,
            r.sort_direction == SortDirection::Ascending,
            r.deleting@.len() == 0,
            !r.delete_animation_active,
            r.dragged_path.is_none(),
            !r.sidebar_collapsed,
            r.modal_state is Closed,
            !r.reduce_motion,
            r.undo_stack@.len() == 0,
            r.last_error is None,
            r.selections_valid(),
    {
        let entries = visible_entries(raw, false, SortColumn::Name, SortDirection::Ascending);
        FileListView {
            columns: Self::single_column(cwd, entries),
            search_results: Vec::new(),
            searching: false,
            search_generation: 0,
            last_click: None,
            show_hidden: false,
            view_mode: ViewMode::Columns,
            sort_column: SortColumn::Name,
            sort_direction: SortDirection::Ascending,
            deleting: Vec::new(),
            delete_animation_active: false,
            dragged_path: None,
            sidebar_collapsed: false,
            modal_state: ModalState::Closed,
            reduce_motion: false,
            undo_stack: Vec::new(),
            last_error: None,
        }
    }

    /// Shows `path` alone, whose entries as read are `raw`.
    pub fn navigate(&mut self, path: String, raw: Vec<FileEntry>)
        ensures
            final(self).columns@.len() == 1,
            final(self).columns@[0].path == path,
            listing_of(
                raw@,
                final(self).columns@[0].entries@,
                old(self).show_hidden,
                old(self).sort_column,
                old(self).sort_direction,
            ),
            final(self).columns@[0].selected.is_none(),
            *final(self) == (FileListView { columns: final(self).columns, ..*old(self) }),
            final(self).selections_valid(),
    {
        let entries = visible_entries(raw, self.show_hidden, self.sort_column, self.sort_direction);
        self.columns = Self::single_column(path, entries);
    }

    /// The folder the browser was opened on: its first column.
    pub fn cwd(&self) -> (r: &String)
        requires
            self.columns@.len() > 0,
        ensures
            *r == self.columns@[0].path,
    {
        &self.columns[0].path
    }

    /// The folder of the last column, if any.
    pub fn current_path(&self) -> (r: Option<&String>)
        ensures
            match r {
                Some(p) => self.columns@.len() > 0 && *p == self.columns@.last().path,
                None => self.columns@.len() == 0,
            },
    {
        if self.columns.len() == 0 {
            None
        } else {
            Some(&self.columns[self.columns.len() - 1].path)
        }
    }

    /// The parent of the last column's folder, which "up" shows.
    pub fn parent_to_show(&self) -> (r: Option<String>)
        ensures
            match r {
                Some(p) => self.columns@.len() > 0 && path_parent(self.columns@.last().path@)
                    == Some(p@),
                None => self.columns@.len() == 0 || path_parent(self.columns@.last().path@)
                    is None,
            },
    {
        match self.current_path() {
            Some(p) => parent_of(p.as_str()),
            None => None,
        }
    }

    /// Rereads every column from `listings` (one per column, in order): the
    /// entries are filtered and ordered again and selections are cleared.
    pub fn refresh(&mut self, listings: Vec<Vec<FileEntry>>)
        requires
            listings@.len() == old(self).columns@.len(),
        ensures
            final(self).columns@.len() == old(self).columns@.len(),
            forall|i: int|
                0 <= i < final(self).columns@.len() ==> {
                    &&& (#[trigger] final(self).columns@[i]).path == old(self).columns@[i].path
                    &&& listing_of(
                        listings@[i]@,
                        final(self).columns@[i].entries@,
                        old(self).show_hidden,
                        old(self).sort_column,
                        old(self).sort_direction,
                    )
                    &&& final(self).columns@[i].selected.is_none()
                },
            final(self).show_hidden == old(self).show_hidden,
            final(self).sort_column == old(self).sort_column,
            final(self).sort_direction == old(self).sort_direction,
            final(self).view_mode == old(self).view_mode,
            final(self).deleting == old(self).deleting,
            final(self).selections_valid(),
            *final(self) == (FileListView { columns: final(self).columns, ..*old(self) }),
    {
        let ghost old_cols = self.columns@;
        let ghost old_listings = listings@;
        let show_hidden = self.show_hidden;
        let column = self.sort_column;
        let direction = self.sort_direction;
        let mut cols: Vec<Column> = Vec::new();
        std::mem::swap(&mut self.columns, &mut cols);
        let n = cols.len();
        let mut listings = listings;
        let mut i: usize = n;
        while i > 0
            invariant
                n == cols@.len(),
                n == old_cols.len(),
                i <= n,
                listings@.len() == i,
                forall|j: int| 0 <= j < i ==> listings@[j] == old_listings[j],
                forall|j: int| 0 <= j < n ==> (#[trigger] cols@[j]).path == old_cols[j].path,
                forall|j: int|
                    i <= j < n ==> {
                        &&& listing_of(
                            old_listings[j]@,
                            (#[trigger] cols@[j]).entries@,
                            show_hidden,
                            column,
                            direction,
                        )
                        &&& cols@[j].selected.is_none()
                    },
            decreases i,
        {
            let raw = listings.pop().unwrap();
            i = i - 1;
            let entries = visible_entries(raw, show_hidden, column, direction);
            let mut col = Column { path: String::new(), entries: Vec::new(), selected: None };
            cols.set_and_swap(i, &mut col);
            let updated = Column { path: col.path, entries, selected: None };
            cols.set(i, updated);
        }
        self.columns = cols;
    }

    /// Keeps the columns up to `col_ix` and clears the selection of the last.
    pub fn show_column(&mut self, col_ix: usize)
        ensures
            col_ix < old(self).columns@.len() ==> {
                &&& final(self).columns@.len() == col_ix + 1
                &&& forall|j: int|
                    0 <= j < col_ix ==> #[trigger] final(self).columns@[j] == old(self).columns@[j]
                &&& final(self).columns@[col_ix as int].path == old(self).columns@[col_ix as int].path
                &&& final(self).columns@[col_ix as int].entries == old(
                    self,
                ).columns@[col_ix as int].entries
                &&& final(self).columns@[col_ix as int].selected.is_none()
            },
            col_ix >= old(self).columns@.len() ==> final(self).columns == old(self).columns,
            old(self).selections_valid() ==> final(self).selections_valid(),
            *final(self) == (FileListView { columns: final(self).columns, ..*old(self) }),
    {
        if col_ix < self.columns.len() {
            self.columns.truncate(col_ix + 1);
            let mut col = Column { path: String::new(), entries: Vec::new(), selected: None };
            self.columns.set_and_swap(col_ix, &mut col);
            let updated = Column { path: col.path, entries: col.entries, selected: None };
            self.columns.set(col_ix, updated);
        }
    }

    /// Switches between columns and list; tells whether the mode changed.
    pub fn set_view_mode(&mut self, view_mode: ViewMode) -> (changed: bool)
        ensures
            final(self).view_mode == view_mode,
            changed == (old(self).view_mode != view_mode),
            final(self).columns == old(self).columns,
            *final(self) == (FileListView { view_mode: final(self).view_mode, ..*old(self) }),
    {
        let changed = self.view_mode != view_mode;
        self.view_mode = view_mode;
        changed
    }

    /// Reorders every column in the current order; selections keep their
    /// row numbers.
    fn apply_sorting(&mut self)
        ensures
            final(self).columns@.len() == old(self).columns@.len(),
            forall|i: int|
                0 <= i < final(self).columns@.len() ==> {
                    &&& (#[trigger] final(self).columns@[i]).path == old(self).columns@[i].path
                    &&& final(self).columns@[i].selected == old(self).columns@[i].selected
                    &&& stably_sorted(
                        final(self).columns@[i].entries@,
                        old(self).columns@[i].entries@,
                        old(self).arrangement(),
                    )
                },
            final(self).sort_column == old(self).sort_column,
            final(self).sort_direction == old(self).sort_direction,
            final(self).show_hidden == old(self).show_hidden,
            final(self).view_mode == old(self).view_mode,
            old(self).selections_valid() ==> final(self).selections_valid(),
            *final(self) == (FileListView { columns: final(self).columns, ..*old(self) }),
    {
        let ghost old_cols = self.columns@;
        let column = self.sort_column;
        let direction = self.sort_direction;
        let ghost arr = self.arrangement();
        let mut cols: Vec<Column> = Vec::new();
        std::mem::swap(&mut self.columns, &mut cols);
        let n = cols.len();
        let mut i: usize = 0;
        while i < n
            invariant
                n == cols@.len(),
                n == old_cols.len(),
                i <= n,
                arr == (Arrangement::Listing { column, direction }),
                forall|j: int|
                    0 <= j < n ==> {
                        &&& (#[trigger] cols@[j]).path == old_cols[j].path
                        &&& cols@[j].selected == old_cols[j].selected
                    },
                forall|j: int|
                    0 <= j < i ==> stably_sorted(
                        (#[trigger] cols@[j]).entries@,
                        old_cols[j].entries@,
                        arr,
                    ),
                forall|j: int| i <= j < n ==> (#[trigger] cols@[j]).entries == old_cols[j].entries,
            decreases n - i,
        {
            let mut col = Column { path: String::new(), entries: Vec::new(), selected: None };
            cols.set_and_swap(i, &mut col);
            let mut entries = col.entries;
            sort_entries(&mut entries, column, direction);
            let updated = Column { path: col.path, entries, selected: col.selected };
            cols.set(i, updated);
            i = i + 1;
        }
        proof {
            if old_cols.map_values(|c: Column| c@).len() == n && forall|j: int|
                0 <= j < n ==> (#[trigger] old_cols[j])@.selection_valid() {
                assert forall|j: int| 0 <= j < n implies (#[trigger] cols@[j])@.selection_valid() by {
                    assert(old_cols[j]@.selection_valid());
                    old_cols[j].entries@.to_multiset_ensures();
                    cols@[j].entries@.to_multiset_ensures();
                }
            }
        }
        self.columns = cols;
    }

    /// A click on the sort header of `column`: flips or changes the order
    /// and reorders every column.
    pub fn toggle_sort(&mut self, column: SortColumn)
        ensures
            (final(self).sort_column, final(self).sort_direction) == toggled_sort(
                old(self).sort_column,
                old(self).sort_direction,
                column,
            ),
            old(self).sort_column != column ==> final(self).sort_column == column,
            old(self).sort_column != column ==> ((final(self).sort_direction == SortDirection::Descending)
                <==> (column == SortColumn::DateModified || column == SortColumn::Size)),
            final(self).columns@.len() == old(self).columns@.len(),
            forall|i: int|
                0 <= i < final(self).columns@.len() ==> {
                    &&& (#[trigger] final(self).columns@[i]).path == old(self).columns@[i].path
                    &&& final(self).columns@[i].selected == old(self).columns@[i].selected
                    &&& stably_sorted(
                        final(self).columns@[i].entries@,
                        old(self).columns@[i].entries@,
                        final(self).arrangement(),
                    )
                },
            old(self).selections_valid() ==> final(self).selections_valid(),
            *final(self) == (FileListView { columns: final(self).columns, sort_column: final(self).sort_column, sort_direction: final(self).sort_direction, ..*old(self) }),
    {
        if self.sort_column == column {
            self.sort_direction = match self.sort_direction {
                SortDirection::Ascending => SortDirection::Descending,
                SortDirection::Descending => SortDirection::Ascending,
            };
        } else {
            self.sort_column = column;
            self.sort_direction = match column {
                SortColumn::DateModified | SortColumn::Size => SortDirection::Descending,
                _ => SortDirection::Ascending,
            };
        }
        self.apply_sorting();
    }

    /// Rereads the last column from the entries of its folder (`raw`), as
    /// after creating `created` there, and selects the first row showing
    /// `created` (nothing if none does).
    pub fn relist_last(&mut self, raw: Vec<FileEntry>, created: &String)
        requires
            old(self).columns@.len() > 0,
        ensures
            final(self).columns@.len() == old(self).columns@.len(),
            forall|j: int|
                0 <= j < old(self).columns@.len() - 1 ==> #[trigger] final(self).columns@[j] == old(
                    self,
                ).columns@[j],
            final(self).columns@.last().path == old(self).columns@.last().path,
            listing_of(
                raw@,
                final(self).columns@.last().entries@,
                old(self).show_hidden,
                old(self).sort_column,
                old(self).sort_direction,
            ),
            opt_int(final(self).columns@.last().selected) == first_index_of(
                final(self).columns@.last().entries@,
                created@,
            ),
            final(self).show_hidden == old(self).show_hidden,
            final(self).sort_column == old(self).sort_column,
            final(self).sort_direction == old(self).sort_direction,
            old(self).selections_valid() ==> final(self).selections_valid(),
            *final(self) == (FileListView { columns: final(self).columns, ..*old(self) }),
    {
        let last = self.columns.len() - 1;
        let entries = visible_entries(raw, self.show_hidden, self.sort_column, self.sort_direction);
        let mut col = Column { path: String::new(), entries: Vec::new(), selected: None };
        self.columns.set_and_swap(last, &mut col);
        let pos = position_of(&entries, created);
        let ghost entries_view = entries@;
        let updated = Column { path: col.path, entries, selected: pos };
        self.columns.set(last, updated);
        proof {
            let cols = self.columns@;
            if first_index_of(entries_view, created@) is Some {
                let i = choose|i: int| is_first_match(entries_view, created@, i);
                assert(is_first_match(entries_view, created@, i));
            }
            assert(cols[last as int]@.selection_valid());
            if old(self).selections_valid() {
                assert forall|k: int| 0 <= k < cols.len() implies (#[trigger] cols[k])@.selection_valid() by {
                    if k < last {
                        assert(cols[k] == old(self).columns@[k]);
                        assert(old(self).columns@[k]@.selection_valid());
                    }
                }
            }
        }
    }

    /// Selects in the last column the first row whose path is `path`, or
    /// nothing if there is none.
    pub fn select_path_in_last(&mut self, path: &String)
        ensures
            final(self).columns@.len() == old(self).columns@.len(),
            old(self).columns@.len() > 0 ==> {
                &&& forall|j: int|
                    0 <= j < old(self).columns@.len() - 1 ==> #[trigger] final(self).columns@[j]
                        == old(self).columns@[j]
                &&& final(self).columns@.last().path == old(self).columns@.last().path
                &&& final(self).columns@.last().entries == old(self).columns@.last().entries
                &&& opt_int(final(self).columns@.last().selected) == first_index_of(
                    old(self).columns@.last().entries@,
                    path@,
                )
            },
            old(self).columns@.len() == 0 ==> final(self).columns == old(self).columns,
            old(self).selections_valid() ==> final(self).selections_valid(),
            *final(self) == (FileListView { columns: final(self).columns, ..*old(self) }),
    {
        if self.columns.len() == 0 {
            return;
        }
        let last = self.columns.len() - 1;
        let mut col = Column { path: String::new(), entries: Vec::new(), selected: None };
        self.columns.set_and_swap(last, &mut col);
        let pos = position_of(&col.entries, path);
        let updated = Column { path: col.path, entries: col.entries, selected: pos };
        self.columns.set(last, updated);
    }

    /// Opens the rename dialog for `path`; returns the text the name field
    /// starts with, its current file name.
    pub fn start_rename(&mut self, path: String) -> (initial: String)
        ensures
            final(self).modal_state == (ModalState::Rename { path }),
            initial@ == match path_file_name(path@) {
                Some(n) => n,
                None => Seq::empty(),
            },
            final(self).columns == old(self).columns,
            *final(self) == (FileListView { modal_state: final(self).modal_state, ..*old(self) }),
    {
        let name = match file_name_of(path.as_str()) {
            Some(n) => n,
            None => String::new(),
        };
        self.modal_state = ModalState::Rename { path };
        name
    }

    /// Opens the new-folder dialog for `parent`, whose entries are named
    /// `taken`; returns the suggested name, the first free "Untitled Folder".
    pub fn prompt_new_folder(&mut self, parent: String, taken: &Vec<String>) -> (initial: String)
        requires
            taken.len() < usize::MAX,
        ensures
            final(self).modal_state == (ModalState::NewFolder { parent }),
            exists|n: Seq<char>, k: nat|
                is_first_free(n, "Untitled Folder"@, Seq::empty(), views(taken@), k) && initial@
                    == match path_file_name(join_path(parent@, n)) {
                    Some(f) => f,
                    None => "Untitled Folder"@,
                },
            final(self).columns == old(self).columns,
            *final(self) == (FileListView { modal_state: final(self).modal_state, ..*old(self) }),
    {
        let path = unique_child_path(parent.as_str(), "Untitled Folder", taken);
        let name = match file_name_of(path.as_str()) {
            Some(n) => n,
            None => String::from_str("Untitled Folder"),
        };
        self.modal_state = ModalState::NewFolder { parent };
        name
    }

    /// Opens the new-file dialog for `parent`, whose entries are named
    /// `taken`; returns the suggested name, the first free "Untitled.txt".
    pub fn prompt_new_file(&mut self, parent: String, taken: &Vec<String>) -> (initial: String)
        requires
            taken.len() < usize::MAX,
        ensures
            final(self).modal_state == (ModalState::NewFile { parent }),
            exists|n: Seq<char>, k: nat|
                is_first_free(n, "Untitled"@, seq!['.'] + "txt"@, views(taken@), k) && initial@
                    == match path_file_name(join_path(parent@, n)) {
                    Some(f) => f,
                    None => "Untitled.txt"@,
                },
            final(self).columns == old(self).columns,
            *final(self) == (FileListView { modal_state: final(self).modal_state, ..*old(self) }),
    {
        let path = unique_file_path(parent.as_str(), "Untitled", "txt", taken);
        let name = match file_name_of(path.as_str()) {
            Some(n) => n,
            None => String::from_str("Untitled.txt"),
        };
        self.modal_state = ModalState::NewFile { parent };
        name
    }

    /// Opens the information dialog for `entry`.
    pub fn show_get_info(&mut self, entry: FileEntry)
        ensures
            final(self).modal_state == (ModalState::GetInfo { entry }),
            final(self).columns == old(self).columns,
            *final(self) == (FileListView { modal_state: final(self).modal_state, ..*old(self) }),
    {
        self.modal_state = ModalState::GetInfo { entry };
    }

    /// Closes the dialog.
    pub fn close_modal(&mut self)
        ensures
            final(self).modal_state is Closed,
            final(self).columns == old(self).columns,
            *final(self) == (FileListView { modal_state: final(self).modal_state, ..*old(self) }),
    {
        self.modal_state = ModalState::Closed;
    }

    /// Asks to delete `path` for good.
    pub fn confirm_permanent_delete(&mut self, path: String, is_dir: bool)
        ensures
            final(self).modal_state == (ModalState::ConfirmDelete { path, is_dir }),
            final(self).columns == old(self).columns,
            *final(self) == (FileListView { modal_state: final(self).modal_state, ..*old(self) }),
    {
        self.modal_state = ModalState::ConfirmDelete { path, is_dir };
    }

    pub fn set_sidebar_collapsed(&mut self, collapsed: bool)
        ensures
            final(self).sidebar_collapsed == collapsed,
            final(self).columns == old(self).columns,
            *final(self) == (FileListView { sidebar_collapsed: final(self).sidebar_collapsed, ..*old(self) }),
    {
        self.sidebar_collapsed = collapsed;
    }

    pub fn toggle_reduce_motion(&mut self)
        ensures
            final(self).reduce_motion == !old(self).reduce_motion,
            final(self).columns == old(self).columns,
            *final(self) == (FileListView { reduce_motion: final(self).reduce_motion, ..*old(self) }),
    {
        self.reduce_motion = !self.reduce_motion;
    }

    /// Shows or hides hidden files, rereading every column from `listings`.
    pub fn toggle_hidden(&mut self, listings: Vec<Vec<FileEntry>>)
        requires
            listings@.len() == old(self).columns@.len(),
        ensures
            final(self).show_hidden == !old(self).show_hidden,
            final(self).columns@.len() == old(self).columns@.len(),
            forall|i: int|
                0 <= i < final(self).columns@.len() ==> {
                    &&& (#[trigger] final(self).columns@[i]).path == old(self).columns@[i].path
                    &&& listing_of(
                        listings@[i]@,
                        final(self).columns@[i].entries@,
                        !old(self).show_hidden,
                        old(self).sort_column,
                        old(self).sort_direction,
                    )
                    &&& final(self).columns@[i].selected.is_none()
                },
            final(self).selections_valid(),
            *final(self) == (FileListView { show_hidden: final(self).show_hidden, columns: final(self).columns, ..*old(self) }),
    {
        self.show_hidden = !self.show_hidden;
        self.refresh(listings);
    }

    /// Selects the first row of the last column, if it has rows.
    pub fn select_all(&mut self)
        ensures
            final(self).columns@.len() == old(self).columns@.len(),
            old(self).columns@.len() > 0 ==> {
                &&& forall|j: int|
                    0 <= j < old(self).columns@.len() - 1 ==> #[trigger] final(self).columns@[j]
                        == old(self).columns@[j]
                &&& final(self).columns@.last().path == old(self).columns@.last().path
                &&& final(self).columns@.last().entries == old(self).columns@.last().entries
                &&& final(self).columns@.last().selected == if old(
                    self,
                ).columns@.last().entries@.len() > 0 {
                    Some(0usize)
                } else {
                    old(self).columns@.last().selected
                }
            },
            old(self).columns@.len() == 0 ==> final(self).columns == old(self).columns,
            old(self).selections_valid() ==> final(self).selections_valid(),
            *final(self) == (FileListView { columns: final(self).columns, ..*old(self) }),
    {
        if self.columns.len() == 0 {
            return;
        }
        let last = self.columns.len() - 1;
        if self.columns[last].entries.len() > 0 {
            let mut col = Column { path: String::new(), entries: Vec::new(), selected: None };
            self.columns.set_and_swap(last, &mut col);
            let updated = Column { path: col.path, entries: col.entries, selected: Some(0) };
            self.columns.set(last, updated);
        }
    }

    /// What opening the selected row of the last column does: show a folder
    /// alone or open a file; nothing without a selected row.
    pub fn open_selected(&self) -> (r: OpenAction)
        ensures
            match r {
                OpenAction::Nothing => self.columns@.len() == 0 || match self.columns@.last().selected {
                    Some(i) => i >= self.columns@.last().entries@.len(),
                    None => true,
                },
                OpenAction::Navigate { path } => self.columns@.len() > 0 && match self.columns@.last().selected {
                    Some(i) => i < self.columns@.last().entries@.len()
                        && self.columns@.last().entries@[i as int].is_directory()
                        && path == self.columns@.last().entries@[i as int].path,
                    None => false,
                },
                OpenAction::OpenFile { path } => self.columns@.len() > 0 && match self.columns@.last().selected {
                    Some(i) => i < self.columns@.last().entries@.len()
                        && !self.columns@.last().entries@[i as int].is_directory()
                        && path == self.columns@.last().entries@[i as int].path,
                    None => false,
                },
                OpenAction::OpenColumn { .. } => false,
            },
    {
        if self.columns.len() == 0 {
            return OpenAction::Nothing;
        }
        let col = &self.columns[self.columns.len() - 1];
        match col.selected {
            Some(ix) => {
                if ix < col.entries.len() {
                    let entry = &col.entries[ix];
                    if entry.is_dir() {
                        OpenAction::Navigate { path: entry.path.clone() }
                    } else {
                        OpenAction::OpenFile { path: entry.path.clone() }
                    }
                } else {
                    OpenAction::Nothing
                }
            },
            None => OpenAction::Nothing,
        }
    }

    /// Shows the error `msg`, raised at `now` (nanoseconds).
    pub fn set_error(&mut self, msg: String, now: u64)
        ensures
            final(self).last_error == Some((msg, now)),
            final(self).columns == old(self).columns,
            final(self).undo_stack == old(self).undo_stack,
            *final(self) == (FileListView { last_error: final(self).last_error, ..*old(self) }),
    {
        self.last_error = Some((msg, now));
    }

    /// Hides the error shown, once it has been up for a while.
    pub fn clear_error(&mut self)
        ensures
            final(self).last_error is None,
            final(self).columns == old(self).columns,
            *final(self) == (FileListView { last_error: final(self).last_error, ..*old(self) }),
    {
        self.last_error = None;
    }

    /// Takes the most recent deletion to undo, whose file goes back where it
    /// was; with none, shows "Nothing to undo" as raised at `now`.
    pub fn undo_last_delete(&mut self, now: u64) -> (r: Option<UndoEntry>)
        ensures
            old(self).undo_stack@.len() == 0 ==> {
                &&& r is None
                &&& final(self).undo_stack@.len() == 0
                &&& final(self).last_error matches Some((msg, t)) && msg@ == "Nothing to undo"@ && t == now
            },
            old(self).undo_stack@.len() > 0 ==> {
                &&& r == Some(old(self).undo_stack@.last())
                &&& final(self).undo_stack@ == old(self).undo_stack@.drop_last()
                &&& final(self).last_error == old(self).last_error
            },
            final(self).columns == old(self).columns,
            *final(self) == (FileListView { undo_stack: final(self).undo_stack, last_error: final(self).last_error, ..*old(self) }),
    {
        match self.undo_stack.pop() {
            Some(entry) => Some(entry),
            None => {
                self.set_error("Nothing to undo".to_owned(), now);
                None
            },
        }
    }
}

/// `i` is the first row of `entries` whose path is the same path as `path`
/// (compared component by component).
pub open spec fn is_first_match(entries: Seq<FileEntry>, path: Seq<char>, i: int) -> bool {
    &&& 0 <= i < entries.len()
    &&& paths_equal(entries[i].path@, path)
    &&& forall|j: int| 0 <= j < i ==> !paths_equal((#[trigger] entries[j]).path@, path)
}

/// The first row of `entries` whose path is `path`.
pub open spec fn first_index_of(entries: Seq<FileEntry>, path: Seq<char>) -> Option<int> {
    if exists|i: int| is_first_match(entries, path, i) {
        Some(choose|i: int| is_first_match(entries, path, i))
    } else {
        None
    }
}

proof fn lemma_first_match_unique(entries: Seq<FileEntry>, path: Seq<char>, i: int, k: int)
    requires
        is_first_match(entries, path, i),
        is_first_match(entries, path, k),
    ensures
        i == k,
{
    if i < k {
        assert(!paths_equal(entries[i].path@, path));
    }
    if k < i {
        assert(!paths_equal(entries[k].path@, path));
    }
}

/// The first row of `entries` whose path is the same path as `path`, if any.
pub fn position_of(entries: &Vec<FileEntry>, path: &String) -> (r: Option<usize>)
    ensures
        opt_int(r) == first_index_of(entries@, path@),
{
    let mut i: usize = 0;
    while i < entries.len()
        invariant
            i <= entries.len(),
            forall|j: int| 0 <= j < i ==> !paths_equal((#[trigger] entries@[j]).path@, path@),
        decreases entries.len() - i,
    {
        if same_path(entries[i].path.as_str(), path.as_str()) {
            proof {
                assert(is_first_match(entries@, path@, i as int));
                let k = choose|k: int| is_first_match(entries@, path@, k);
                lemma_first_match_unique(entries@, path@, i as int, k);
            }
            return Some(i);
        }
        i = i + 1;
    }
    None
}

// ---------------------------------------------------------------------------
// Deleting entries
// ---------------------------------------------------------------------------

/// How long the removal animation of a deleted row lasts, in nanoseconds.
pub open spec fn delete_animation_nanos() -> nat {
    130_000_000
}

/// The longest pause between the two clicks of a double click, in
/// nanoseconds.
pub open spec fn double_click_nanos() -> nat {
    270_000_000
}

/// Nanoseconds from `start` to `now` on a monotonic clock; zero if `now` is
/// not later (`Instant::duration_since` saturates).
pub open spec fn elapsed(start: u64, now: u64) -> nat {
    if now >= start {
        (now - start) as nat
    } else {
        0
    }
}

/// A deletion of the same path as `path` (component by component) is pending.
pub open spec fn has_pending(deleting: Seq<PendingDeletion>, path: Seq<char>) -> bool {
    exists|i: int| 0 <= i < deleting.len() && paths_equal((#[trigger] deleting[i]).path@, path)
}

/// Exactly one pending deletion is of the same path as `path`.
pub open spec fn pending_once(deleting: Seq<PendingDeletion>, path: Seq<char>) -> bool {
    exists|i: int|
        0 <= i < deleting.len() && paths_equal((#[trigger] deleting[i]).path@, path) && forall|j: int|
            0 <= j < deleting.len() && j != i ==> !paths_equal((#[trigger] deleting[j]).path@, path)
}

/// Queueing a path that is not pending leaves it pending exactly once.
pub proof fn lemma_queue_once(deleting: Seq<PendingDeletion>, d: PendingDeletion)
    requires
        !has_pending(deleting, d.path@),
    ensures
        has_pending(deleting.push(d), d.path@),
        pending_once(deleting.push(d), d.path@),
{
    let n = deleting.len() as int;
    assert(deleting.push(d)[n] == d);
    assert(paths_equal(d.path@, d.path@));
    assert forall|j: int| 0 <= j < n + 1 && j != n implies !paths_equal(
        (#[trigger] deleting.push(d)[j]).path@,
        d.path@,
    ) by {
        assert(deleting.push(d)[j] == deleting[j]);
    }
}

/// No path is pending twice: no pending deletion is of the same path as an
/// earlier one.
pub open spec fn pending_unique(deleting: Seq<PendingDeletion>) -> bool {
    forall|i: int, j: int|
        0 <= i < j < deleting.len() ==> !paths_equal((#[trigger] deleting[i]).path@, (#[trigger] deleting[j]).path@)
}

/// Keeping some of the pending deletions keeps their paths distinct.
proof fn lemma_filter_keeps_unique(d: Seq<PendingDeletion>, p: spec_fn(PendingDeletion) -> bool)
    requires
        pending_unique(d),
    ensures
        pending_unique(d.filter(p)),
    decreases d.len(),
{
    if d.len() > 0 {
        let rest = d.drop_last();
        let x = d.last();
        assert(pending_unique(rest));
        lemma_filter_keeps_unique(rest, p);
        rest.lemma_filter_push(x, p);
        assert(rest.push(x) =~= d);
        if p(x) {
            let f = rest.filter(p);
            assert forall|i: int, j: int| 0 <= i < j < f.push(x).len() implies !paths_equal(
                (#[trigger] f.push(x)[i]).path@,
                (#[trigger] f.push(x)[j]).path@,
            ) by {
                if j == f.len() {
                    assert(f.contains(f[i]));
                    rest.lemma_filter_contains_rev(p, f[i]);
                    let k = choose|k: int| 0 <= k < rest.len() && rest[k] == f[i];
                    assert(d[k] == rest[k] && d[d.len() - 1] == x);
                } else {
                    assert(f.push(x)[i] == f[i] && f.push(x)[j] == f[j]);
                }
            }
        }
    } else {
        assert(d.filter(p) =~= d) by {
            reveal(Seq::filter);
        }
    }
}

/// The deletion's animation has run its course at `now`.
pub open spec fn is_expired(d: PendingDeletion, now: u64) -> bool {
    elapsed(d.started_at, now) >= delete_animation_nanos()
}

pub open spec fn expired_pred(now: u64) -> spec_fn(PendingDeletion) -> bool {
    |d: PendingDeletion| is_expired(d, now)
}

pub open spec fn unexpired_pred(now: u64) -> spec_fn(PendingDeletion) -> bool {
    |d: PendingDeletion| !is_expired(d, now)
}

/// The column with the first row for `path` removed: a selection of that row
/// moves to the row that takes its place (or the new last row), later
/// selections move up by one.
pub open spec fn remove_from_column(c: ColumnView, path: Seq<char>) -> ColumnView {
    match first_index_of(c.entries, path) {
        None => c,
        Some(pos) => {
            let entries = c.entries.remove(pos);
            let selected = match c.selected {
                Some(s) => if s == pos {
                    if entries.len() == 0 {
                        None
                    } else if pos < entries.len() - 1 {
                        Some(pos)
                    } else {
                        Some(entries.len() - 1)
                    }
                } else if s > pos {
                    Some(s - 1)
                } else {
                    Some(s)
                },
                None => None,
            };
            ColumnView { path: c.path, entries, selected }
        },
    }
}

pub open spec fn outside_pred(path: Seq<char>) -> spec_fn(ColumnView) -> bool {
    |c: ColumnView| !path_starts_with(c.path, path)
}

pub open spec fn remover(path: Seq<char>) -> spec_fn(ColumnView) -> ColumnView {
    |c: ColumnView| remove_from_column(c, path)
}

/// The columns once `path` is gone: columns inside it close, and its row
/// leaves every other column.
pub open spec fn drop_deleted(cols: Seq<ColumnView>, path: Seq<char>) -> Seq<ColumnView> {
    cols.filter(outside_pred(path)).map_values(remover(path))
}

/// The columns once every path of `paths` is gone, in order.
pub open spec fn drop_all_deleted(cols: Seq<ColumnView>, paths: Seq<Seq<char>>) -> Seq<ColumnView>
    decreases paths.len(),
{
    if paths.len() == 0 {
        cols
    } else {
        drop_all_deleted(drop_deleted(cols, paths[0]), paths.drop_first())
    }
}

/// The columns without trailing empty ones, keeping at least one.
pub open spec fn trim_empty_tail(cols: Seq<ColumnView>) -> Seq<ColumnView>
    decreases cols.len(),
{
    if cols.len() > 1 && cols.last().entries.len() == 0 {
        trim_empty_tail(cols.drop_last())
    } else {
        cols
    }
}

pub open spec fn all_selections_valid(cols: Seq<ColumnView>) -> bool {
    forall|i: int| 0 <= i < cols.len() ==> (#[trigger] cols[i]).selection_valid()
}

/// Removing a row keeps a valid selection valid.
pub proof fn lemma_remove_keeps_selection(c: ColumnView, path: Seq<char>)
    requires
        c.selection_valid(),
    ensures
        remove_from_column(c, path).selection_valid(),
{
}

/// Deleting a path keeps every column's selection valid.
pub proof fn lemma_drop_deleted_keeps_selections(cols: Seq<ColumnView>, path: Seq<char>)
    requires
        all_selections_valid(cols),
    ensures
        all_selections_valid(drop_deleted(cols, path)),
{
    let kept = cols.filter(outside_pred(path));
    lemma_filter_keeps_selections(cols, outside_pred(path));
    assert forall|i: int| 0 <= i < drop_deleted(cols, path).len() implies (#[trigger] drop_deleted(
        cols,
        path,
    )[i]).selection_valid() by {
        lemma_remove_keeps_selection(kept[i], path);
    }
}

proof fn lemma_filter_keeps_selections(cols: Seq<ColumnView>, p: spec_fn(ColumnView) -> bool)
    requires
        all_selections_valid(cols),
    ensures
        all_selections_valid(cols.filter(p)),
    decreases cols.len(),
{
    reveal(Seq::filter);
    if cols.len() > 0 {
        lemma_filter_keeps_selections(cols.drop_last(), p);
        let rest = cols.drop_last().filter(p);
        if p(cols.last()) {
            assert forall|i: int| 0 <= i < rest.push(cols.last()).len() implies (#[trigger] rest.push(
                cols.last(),
            )[i]).selection_valid() by {
                if i < rest.len() {
                    assert(rest.push(cols.last())[i] == rest[i]);
                }
            }
        }
    }
}

pub proof fn lemma_drop_all_keeps_selections(cols: Seq<ColumnView>, paths: Seq<Seq<char>>)
    requires
        all_selections_valid(cols),
    ensures
        all_selections_valid(drop_all_deleted(cols, paths)),
    decreases paths.len(),
{
    if paths.len() > 0 {
        lemma_drop_deleted_keeps_selections(cols, paths[0]);
        lemma_drop_all_keeps_selections(drop_deleted(cols, paths[0]), paths.drop_first());
    }
}

pub proof fn lemma_trim_keeps_selections(cols: Seq<ColumnView>)
    requires
        all_selections_valid(cols),
    ensures
        all_selections_valid(trim_empty_tail(cols)),
    decreases cols.len(),
{
    if cols.len() > 1 && cols.last().entries.len() == 0 {
        lemma_trim_keeps_selections(cols.drop_last());
    }
}

/// Closing trailing empty columns keeps a prefix, and at least one column.
proof fn lemma_trim_prefix(cols: Seq<ColumnView>)
    ensures
        trim_empty_tail(cols).len() <= cols.len(),
        cols.len() > 0 ==> trim_empty_tail(cols).len() > 0,
        trim_empty_tail(cols).len() > 1 ==> trim_empty_tail(cols).last().entries.len() > 0,
        forall|j: int| 0 <= j < trim_empty_tail(cols).len() ==> #[trigger] trim_empty_tail(cols)[j] == cols[j],
    decreases cols.len(),
{
    if cols.len() > 1 && cols.last().entries.len() == 0 {
        lemma_trim_prefix(cols.drop_last());
    }
}

/// A filter whose predicate holds of the first item keeps it first.
proof fn lemma_filter_keeps_first(cols: Seq<ColumnView>, p: spec_fn(ColumnView) -> bool)
    requires
        cols.len() > 0,
        p(cols[0]),
    ensures
        cols.filter(p).len() > 0,
        cols.filter(p)[0] == cols[0],
    decreases cols.len(),
{
    reveal(Seq::filter);
    if cols.len() > 1 {
        lemma_filter_keeps_first(cols.drop_last(), p);
    } else {
        assert(cols.drop_last().filter(p) =~= Seq::<ColumnView>::empty());
    }
}

/// What held of the folder of every column holds of every column that
/// remains once `paths` are gone.
proof fn lemma_drop_all_keeps_paths(
    cols: Seq<ColumnView>,
    paths: Seq<Seq<char>>,
    holds: spec_fn(Seq<char>) -> bool,
)
    requires
        forall|i: int| 0 <= i < cols.len() ==> holds(#[trigger] cols[i].path),
    ensures
        forall|j: int|
            0 <= j < drop_all_deleted(cols, paths).len() ==> holds(
                #[trigger] drop_all_deleted(cols, paths)[j].path,
            ),
    decreases paths.len(),
{
    if paths.len() > 0 {
        let kept = cols.filter(outside_pred(paths[0]));
        let d = drop_deleted(cols, paths[0]);
        assert forall|j: int| 0 <= j < d.len() implies holds(#[trigger] d[j].path) by {
            assert(kept.contains(kept[j]));
            cols.lemma_filter_contains_rev(outside_pred(paths[0]), kept[j]);
        }
        lemma_drop_all_keeps_paths(d, paths.drop_first(), holds);
    }
}

/// No column left after a removal tick lies inside a removed path.
pub proof fn lemma_no_column_inside_removed(cols: Seq<ColumnView>, paths: Seq<Seq<char>>)
    ensures
        forall|j: int, k: int|
            0 <= j < trim_empty_tail(drop_all_deleted(cols, paths)).len() && 0 <= k < paths.len()
                ==> !path_starts_with(
                #[trigger] trim_empty_tail(drop_all_deleted(cols, paths))[j].path,
                #[trigger] paths[k],
            ),
    decreases paths.len(),
{
    let r = drop_all_deleted(cols, paths);
    lemma_trim_prefix(r);
    if paths.len() > 0 {
        let d = drop_deleted(cols, paths[0]);
        let kept = cols.filter(outside_pred(paths[0]));
        let rest = paths.drop_first();
        assert forall|i: int| 0 <= i < d.len() implies (|q: Seq<char>| !path_starts_with(q, paths[0]))(
            #[trigger] d[i].path,
        ) by {
            cols.lemma_filter_pred(outside_pred(paths[0]), i);
        }
        lemma_drop_all_keeps_paths(d, rest, |q: Seq<char>| !path_starts_with(q, paths[0]));
        lemma_no_column_inside_removed(d, rest);
        lemma_trim_prefix(drop_all_deleted(d, rest));
        assert forall|j: int, k: int|
            0 <= j < trim_empty_tail(r).len() && 0 <= k < paths.len() implies !path_starts_with(
            #[trigger] trim_empty_tail(r)[j].path,
            #[trigger] paths[k],
        ) by {
            assert(trim_empty_tail(r)[j] == r[j]);
            if k > 0 {
                assert(paths[k] == rest[k - 1]);
                assert(trim_empty_tail(drop_all_deleted(d, rest))[j] == r[j]);
            }
        }
    }
}

/// At most one row of `entries` is of the same path as `p`.
pub open spec fn at_most_once(entries: Seq<FileEntry>, p: Seq<char>) -> bool {
    forall|a: int, b: int|
        0 <= a < b < entries.len() && paths_equal((#[trigger] entries[a]).path@, p) ==> !paths_equal(
            (#[trigger] entries[b]).path@,
            p,
        )
}

/// The row selected in `c`, unless it was the one of `p`, is still the
/// selected row of `r`; a column without a selection still has none.
pub open spec fn selection_kept(c: ColumnView, r: ColumnView, p: Seq<char>) -> bool {
    match c.selected {
        Some(s) => (0 <= s < c.entries.len() && !paths_equal(c.entries[s].path@, p)) ==> (r.selected matches Some(
            t,
        ) && 0 <= t < r.entries.len() && r.entries[t] == c.entries[s]),
        None => r.selected is None,
    }
}

/// A row of the same path as `p` means there is a first such row.
proof fn lemma_match_has_first(entries: Seq<FileEntry>, p: Seq<char>, k: int)
    requires
        0 <= k < entries.len(),
        paths_equal(entries[k].path@, p),
    ensures
        first_index_of(entries, p) is Some,
    decreases k,
{
    if exists|j: int| 0 <= j < k && paths_equal((#[trigger] entries[j]).path@, p) {
        let j = choose|j: int| 0 <= j < k && paths_equal((#[trigger] entries[j]).path@, p);
        lemma_match_has_first(entries, p, j);
    } else {
        assert(is_first_match(entries, p, k));
    }
}

/// Removing the row of `p` from a column where it occurs at most once
/// leaves no row of `p`, keeps the folder, and keeps a valid selection
/// valid and on the same row.
proof fn lemma_remove_column(c: ColumnView, p: Seq<char>)
    requires
        c.selection_valid(),
        at_most_once(c.entries, p),
    ensures
        remove_from_column(c, p).path == c.path,
        forall|k: int|
            0 <= k < remove_from_column(c, p).entries.len() ==> !paths_equal(
                (#[trigger] remove_from_column(c, p).entries[k]).path@,
                p,
            ),
        remove_from_column(c, p).selection_valid(),
        selection_kept(c, remove_from_column(c, p), p),
{
    let r = remove_from_column(c, p);
    match first_index_of(c.entries, p) {
        None => {
            assert forall|k: int| 0 <= k < r.entries.len() implies !paths_equal(
                (#[trigger] r.entries[k]).path@,
                p,
            ) by {
                if paths_equal(r.entries[k].path@, p) {
                    lemma_match_has_first(c.entries, p, k);
                }
            }
        },
        Some(pos) => {
            assert(is_first_match(c.entries, p, pos));
            assert forall|k: int| 0 <= k < r.entries.len() implies !paths_equal(
                (#[trigger] r.entries[k]).path@,
                p,
            ) by {
                if k < pos {
                    assert(r.entries[k] == c.entries[k]);
                } else {
                    assert(r.entries[k] == c.entries[k + 1]);
                    assert(paths_equal(c.entries[pos].path@, p));
                }
            }
            match c.selected {
                Some(s) => {
                    if 0 <= s < c.entries.len() && !paths_equal(c.entries[s].path@, p) {
                        if s > pos {
                            assert(r.entries[s - 1] == c.entries[s]);
                        } else {
                            assert(s != pos);
                            assert(r.entries[s] == c.entries[s]);
                        }
                    }
                },
                None => {},
            }
        },
    }
}

/// What a removal tick that finishes the deletion of `p` leaves: the first
/// column stays, at its folder, unless that folder lies inside `p`; no
/// column lies inside `p`; no row is of `p`; every column is one of the
/// earlier ones without the row of `p`, its selection valid and still on
/// the same row unless that row was the removed one; and no empty column
/// trails after the first.
pub proof fn lemma_deletion_tick(cols: Seq<ColumnView>, p: Seq<char>)
    requires
        cols.len() > 0,
        all_selections_valid(cols),
        !path_starts_with(cols[0].path, p),
        forall|i: int| 0 <= i < cols.len() ==> at_most_once(#[trigger] cols[i].entries, p),
    ensures
        ({
            let r = trim_empty_tail(drop_all_deleted(cols, seq![p]));
            &&& r.len() > 0
            &&& r[0].path == cols[0].path
            &&& forall|j: int| 0 <= j < r.len() ==> !path_starts_with(#[trigger] r[j].path, p)
            &&& forall|j: int, k: int|
                0 <= j < r.len() && 0 <= k < r[j].entries.len() ==> !paths_equal(
                    (#[trigger] r[j].entries[k]).path@,
                    p,
                )
            &&& all_selections_valid(r)
            &&& forall|j: int|
                0 <= j < r.len() ==> exists|i: int|
                    0 <= i < cols.len() && #[trigger] r[j] == remove_from_column(cols[i], p)
                        && selection_kept(cols[i], r[j], p)
            &&& r.len() > 1 ==> r.last().entries.len() > 0
        }),
{
    let d = drop_deleted(cols, p);
    let kept = cols.filter(outside_pred(p));
    assert(seq![p].drop_first() =~= Seq::<Seq<char>>::empty());
    assert(seq![p][0] == p);
    assert(drop_all_deleted(d, Seq::<Seq<char>>::empty()) == d);
    assert(drop_all_deleted(cols, seq![p]) == d);
    let r = trim_empty_tail(d);
    lemma_trim_prefix(d);
    lemma_filter_keeps_first(cols, outside_pred(p));
    lemma_drop_all_keeps_selections(cols, seq![p]);
    lemma_trim_keeps_selections(d);
    assert forall|j: int| 0 <= j < d.len() implies exists|i: int|
        0 <= i < cols.len() && #[trigger] d[j] == remove_from_column(cols[i], p) && selection_kept(
            cols[i],
            d[j],
            p,
        ) && !path_starts_with(cols[i].path, p) by {
        assert(kept.contains(kept[j]));
        cols.lemma_filter_contains_rev(outside_pred(p), kept[j]);
        cols.lemma_filter_pred(outside_pred(p), j);
        let i = choose|i: int| 0 <= i < cols.len() && cols[i] == kept[j];
        lemma_remove_column(cols[i], p);
        assert(d[j] == remove_from_column(cols[i], p));
    }
    assert forall|j: int| 0 <= j < r.len() implies exists|i: int|
        0 <= i < cols.len() && #[trigger] r[j] == remove_from_column(cols[i], p) && selection_kept(
            cols[i],
            r[j],
            p,
        ) by {
        assert(r[j] == d[j]);
    }
    assert forall|j: int| 0 <= j < r.len() implies !path_starts_with(#[trigger] r[j].path, p) by {
        assert(r[j] == d[j]);
        let i = choose|i: int|
            0 <= i < cols.len() && #[trigger] d[j] == remove_from_column(cols[i], p) && selection_kept(
                cols[i],
                d[j],
                p,
            ) && !path_starts_with(cols[i].path, p);
        lemma_remove_column(cols[i], p);
    }
    assert forall|j: int, k: int| 0 <= j < r.len() && 0 <= k < r[j].entries.len() implies !paths_equal(
        (#[trigger] r[j].entries[k]).path@,
        p,
    ) by {
        assert(r[j] == d[j]);
        let i = choose|i: int|
            0 <= i < cols.len() && #[trigger] d[j] == remove_from_column(cols[i], p) && selection_kept(
                cols[i],
                d[j],
                p,
            ) && !path_starts_with(cols[i].path, p);
        lemma_remove_column(cols[i], p);
    }
    assert(r[0] == d[0]);
    assert(d[0] == remove_from_column(kept[0], p));
}

/// A removal tick leaves the first column open, at its folder, unless that
/// folder lies inside a removed path.
pub proof fn lemma_first_column_stays(cols: Seq<ColumnView>, paths: Seq<Seq<char>>)
    requires
        cols.len() > 0,
        forall|k: int| 0 <= k < paths.len() ==> !path_starts_with(cols[0].path, #[trigger] paths[k]),
    ensures
        trim_empty_tail(drop_all_deleted(cols, paths)).len() > 0,
        trim_empty_tail(drop_all_deleted(cols, paths))[0].path == cols[0].path,
    decreases paths.len(),
{
    if paths.len() > 0 {
        lemma_filter_keeps_first(cols, outside_pred(paths[0]));
        let d = drop_deleted(cols, paths[0]);
        let rest = paths.drop_first();
        assert(d[0].path == cols[0].path);
        assert forall|k: int| 0 <= k < rest.len() implies !path_starts_with(d[0].path, #[trigger] rest[k]) by {
            assert(rest[k] == paths[k + 1]);
        }
        lemma_first_column_stays(d, rest);
    } else {
        lemma_trim_prefix(cols);
    }
}

pub open spec fn column_views(cols: Seq<Column>) -> Seq<ColumnView> {
    cols.map_values(|c: Column| c@)
}

/// The column without the first row for `path`.
fn remove_row(col: Column, path: &String) -> (r: Column)
    ensures
        r@ == remove_from_column(col@, path@),
{
    match position_of(&col.entries, path) {
        None => col,
        Some(pos) => {
            let mut entries = col.entries;
            entries.remove(pos);
            let selected = match col.selected {
                Some(s) => if s == pos {
                    if entries.len() == 0 {
                        None
                    } else if pos < entries.len() - 1 {
                        Some(pos)
                    } else {
                        Some(entries.len() - 1)
                    }
                } else if s > pos {
                    Some(s - 1)
                } else {
                    Some(s)
                },
                None => None,
            };
            let r = Column { path: col.path, entries, selected };
            assert(r@ == remove_from_column(col@, path@));
            r
        },
    }
}

/// The columns in reverse order, so that popping yields them in order.
fn reversed_columns(v: Vec<Column>) -> (r: Vec<Column>)
    ensures
        r.len() == v.len(),
        forall|j: int| 0 <= j < r.len() ==> #[trigger] r@[j] == v@[v.len() - 1 - j],
{
    let ghost orig = v@;
    let n = v.len();
    let mut v = v;
    let mut stack: Vec<Column> = Vec::new();
    while v.len() > 0
        invariant
            n == orig.len(),
            v.len() <= n,
            v@ == orig.take(v.len() as int),
            stack.len() == n - v.len(),
            forall|j: int| 0 <= j < stack.len() ==> #[trigger] stack@[j] == orig[n - 1 - j],
        decreases v.len(),
    {
        let c = v.pop().unwrap();
        stack.push(c);
        assert(v@ =~= orig.take(v.len() as int));
    }
    stack
}

/// The columns once `path` is gone.
fn drop_deleted_columns(cols: Vec<Column>, path: &String) -> (r: Vec<Column>)
    ensures
        column_views(r@) == drop_deleted(column_views(cols@), path@),
{
    let ghost orig = cols@;
    let n = cols.len();
    let mut stack = reversed_columns(cols);
    let mut out: Vec<Column> = Vec::new();
    let mut i: usize = 0;
    assert(column_views(orig.take(0)) =~= Seq::<ColumnView>::empty());
    assert(column_views(out@) =~= Seq::<ColumnView>::empty());
    while i < n
        invariant
            n == orig.len(),
            i <= n,
            stack.len() == n - i,
            forall|j: int| 0 <= j < stack.len() ==> #[trigger] stack@[j] == orig[n - 1 - j],
            column_views(out@) == drop_deleted(column_views(orig.take(i as int)), path@),
        decreases n - i,
    {
        let c = stack.pop().unwrap();
        assert(c == orig[i as int]);
        let ghost prefix = column_views(orig.take(i as int));
        proof {
            assert(column_views(orig.take(i + 1)) =~= prefix.push(c@));
            prefix.lemma_filter_push(c@, outside_pred(path@));
        }
        if !starts_with_path(c.path.as_str(), path.as_str()) {
            let ghost before = out@;
            let r = remove_row(c, path);
            out.push(r);
            proof {
                prefix.filter(outside_pred(path@)).lemma_push_map_commute(remover(path@), c@);
                assert(column_views(out@) =~= column_views(before).push(r@));
            }
        }
        i = i + 1;
    }
    assert(orig.take(n as int) =~= orig);
    out
}

impl FileListView {
    /// Starts the removal animation of `path` at `now` unless it is already
    /// pending; tells whether the animation clock has to be started.
    pub fn queue_deletion(&mut self, path: String, now: u64) -> (start: bool)
        ensures
            has_pending(old(self).deleting@, path@) ==> {
                &&& final(self).deleting == old(self).deleting
                &&& final(self).delete_animation_active == old(self).delete_animation_active
                &&& !start
            },
            !has_pending(old(self).deleting@, path@) ==> {
                &&& final(self).deleting@ == old(self).deleting@.push(
                    PendingDeletion { path, started_at: now },
                )
                &&& final(self).delete_animation_active
                &&& start == !old(self).delete_animation_active
            },
            final(self).columns == old(self).columns,
            final(self).reduce_motion == old(self).reduce_motion,
            final(self).modal_state == old(self).modal_state,
            pending_unique(old(self).deleting@) ==> pending_unique(final(self).deleting@),
            has_pending(final(self).deleting@, path@),
            !has_pending(old(self).deleting@, path@) || pending_once(old(self).deleting@, path@)
                ==> pending_once(final(self).deleting@, path@),
            *final(self) == (FileListView { deleting: final(self).deleting, delete_animation_active: final(self).delete_animation_active, ..*old(self) }),
    {
        let mut i: usize = 0;
        while i < self.deleting.len()
            invariant
                i <= self.deleting.len(),
                forall|j: int| 0 <= j < i ==> !paths_equal((#[trigger] self.deleting@[j]).path@, path@),
            decreases self.deleting.len() - i,
        {
            if same_path(self.deleting[i].path.as_str(), path.as_str()) {
                assert(paths_equal(self.deleting@[i as int].path@, path@));
                return false;
            }
            i = i + 1;
        }
        proof {
            lemma_queue_once(self.deleting@, PendingDeletion { path, started_at: now });
        }
        self.deleting.push(PendingDeletion { path, started_at: now });
        if self.delete_animation_active {
            false
        } else {
            self.delete_animation_active = true;
            true
        }
    }

    /// When the animation of the first pending deletion of the same path as
    /// `path` started.
    pub fn pending_started_at(&self, path: &String) -> (r: Option<u64>)
        ensures
            match r {
                Some(t) => exists|i: int|
                    0 <= i < self.deleting@.len() && paths_equal((#[trigger] self.deleting@[i]).path@, path@)
                        && self.deleting@[i].started_at == t && forall|j: int|
                        0 <= j < i ==> !paths_equal((#[trigger] self.deleting@[j]).path@, path@),
                None => !has_pending(self.deleting@, path@),
            },
    {
        let mut i: usize = 0;
        while i < self.deleting.len()
            invariant
                i <= self.deleting.len(),
                forall|j: int| 0 <= j < i ==> !paths_equal((#[trigger] self.deleting@[j]).path@, path@),
            decreases self.deleting.len() - i,
        {
            if same_path(self.deleting[i].path.as_str(), path.as_str()) {
                assert(paths_equal(self.deleting@[i as int].path@, path@));
                return Some(self.deleting[i].started_at);
            }
            i = i + 1;
        }
        None
    }

    /// Deletes `path` (moving it to the trash, or for good inside the
    /// trash) and starts its removal animation at `now`. Returns what the
    /// filesystem is asked to do and whether the animation clock has to start.
    pub fn delete_file_by_path(&mut self, path: &String, now: u64) -> (r: (Removal, bool))
        ensures
            r.0 == removal_for(path@),
            has_pending(old(self).deleting@, path@) ==> final(self).deleting == old(self).deleting
                && !r.1,
            !has_pending(old(self).deleting@, path@) ==> final(self).deleting@ == old(
                self,
            ).deleting@.push(PendingDeletion { path: *path, started_at: now }) && r.1 == !old(
                self,
            ).delete_animation_active,
            final(self).columns == old(self).columns,
            final(self).reduce_motion == old(self).reduce_motion,
            final(self).modal_state == old(self).modal_state,
            has_pending(final(self).deleting@, path@),
            !has_pending(old(self).deleting@, path@) || pending_once(old(self).deleting@, path@)
                ==> pending_once(final(self).deleting@, path@),
            *final(self) == (FileListView { deleting: final(self).deleting, delete_animation_active: final(self).delete_animation_active, ..*old(self) }),
    {
        let removal = if is_in_trash(path.as_str()) {
            Removal::DeletePermanently
        } else {
            Removal::MoveToTrash
        };
        let start = self.queue_deletion(path.clone(), now);
        (removal, start)
    }

    /// An entry dropped on the trash: where its icon starts flying from (the
    /// first column and row that show it, unless motion is reduced), what
    /// the filesystem is asked to do, and whether the animation clock has to
    /// start.
    pub fn animate_trash_drop_by_path(&mut self, path: &String, now: u64) -> (r: (DropPlan, bool))
        ensures
            final(self).dragged_path is None,
            r.0.removal == removal_for(path@),
            old(self).reduce_motion ==> r.0.flight is None,
            match r.0.flight {
                Some(f) => f.col_ix < old(self).columns@.len() && first_index_of(
                    old(self).columns@[f.col_ix as int].entries@,
                    path@,
                ) == Some(f.entry_ix as int) && f.is_dir == old(self).columns@[f.col_ix as int].entries@[f.entry_ix as int].is_directory()
                    && forall|c: int|
                    0 <= c < f.col_ix ==> first_index_of(
                        (#[trigger] old(self).columns@[c]).entries@,
                        path@,
                    ) is None,
                None => old(self).reduce_motion || forall|c: int|
                    0 <= c < old(self).columns@.len() ==> first_index_of(
                        (#[trigger] old(self).columns@[c]).entries@,
                        path@,
                    ) is None,
            },
            has_pending(old(self).deleting@, path@) ==> final(self).deleting == old(self).deleting
                && !r.1,
            !has_pending(old(self).deleting@, path@) ==> final(self).deleting@ == old(
                self,
            ).deleting@.push(PendingDeletion { path: *path, started_at: now }) && r.1 == !old(
                self,
            ).delete_animation_active,
            final(self).columns == old(self).columns,
            has_pending(final(self).deleting@, path@),
            !has_pending(old(self).deleting@, path@) || pending_once(old(self).deleting@, path@)
                ==> pending_once(final(self).deleting@, path@),
            *final(self) == (FileListView { dragged_path: final(self).dragged_path, deleting: final(self).deleting, delete_animation_active: final(self).delete_animation_active, ..*old(self) }),
    {
        let (removal, start) = self.delete_file_by_path(path, now);
        self.dragged_path = None;
        let mut flight: Option<FlightStart> = None;
        if !self.reduce_motion {
            let mut c: usize = 0;
            while c < self.columns.len() && flight.is_none()
                invariant
                    c <= self.columns.len(),
                    flight is None ==> forall|k: int|
                        0 <= k < c ==> first_index_of((#[trigger] self.columns@[k]).entries@, path@)
                            is None,
                    match flight {
                        Some(f) => f.col_ix < self.columns@.len() && first_index_of(
                            self.columns@[f.col_ix as int].entries@,
                            path@,
                        ) == Some(f.entry_ix as int) && f.is_dir == self.columns@[f.col_ix as int].entries@[f.entry_ix as int].is_directory()
                            && forall|k: int|
                            0 <= k < f.col_ix ==> first_index_of(
                                (#[trigger] self.columns@[k]).entries@,
                                path@,
                            ) is None,
                        None => true,
                    },
                decreases self.columns.len() - c, (if flight is None { 1int } else { 0int }),
            {
                match position_of(&self.columns[c].entries, path) {
                    Some(e) => {
                        proof {
                            let k = choose|k: int| is_first_match(self.columns@[c as int].entries@, path@, k);
                        }
                        flight = Some(
                            FlightStart { col_ix: c, entry_ix: e, is_dir: self.columns[c].entries[e].is_dir() },
                        );
                    },
                    None => {
                        c = c + 1;
                    },
                }
            }
        }
        (DropPlan { flight, removal }, start)
    }

    /// After the trash is emptied: only the first column stays, empty and
    /// without selection.
    pub fn empty_trash(&mut self)
        ensures
            old(self).columns@.len() == 0 ==> final(self).columns@.len() == 0,
            old(self).columns@.len() > 0 ==> {
                &&& final(self).columns@.len() == 1
                &&& final(self).columns@[0].path == old(self).columns@[0].path
                &&& final(self).columns@[0].entries@.len() == 0
                &&& final(self).columns@[0].selected is None
            },
            final(self).selections_valid(),
            *final(self) == (FileListView { columns: final(self).columns, ..*old(self) }),
    {
        self.columns.truncate(1);
        if self.columns.len() > 0 {
            let mut col = Column { path: String::new(), entries: Vec::new(), selected: None };
            self.columns.set_and_swap(0, &mut col);
            let updated = Column { path: col.path, entries: Vec::new(), selected: None };
            self.columns.set(0, updated);
        }
    }

    /// One tick of the removal animation at `now`: deletions whose animation
    /// has run its course leave the pending list, their rows leave the
    /// columns (and columns inside them close), and then trailing empty
    /// columns close. Tells whether deletions are still pending.
    pub fn finish_deletions(&mut self, now: u64) -> (pending: bool)
        ensures
            final(self).deleting@ == old(self).deleting@.filter(unexpired_pred(now)),
            pending == (final(self).deleting@.len() > 0),
            pending_unique(old(self).deleting@) ==> pending_unique(final(self).deleting@),
            ({
                let done = old(self).deleting@.filter(expired_pred(now));
                let paths = done.map_values(|d: PendingDeletion| d.path@);
                column_views(final(self).columns@) == if done.len() == 0 {
                    column_views(old(self).columns@)
                } else {
                    trim_empty_tail(drop_all_deleted(column_views(old(self).columns@), paths))
                }
            }),
            old(self).selections_valid() ==> final(self).selections_valid(),
            *final(self) == (FileListView { deleting: final(self).deleting, columns: final(self).columns, ..*old(self) }),
    {
        // Split the pending deletions into finished and still running.
        let ghost orig = self.deleting@;
        let mut taken: Vec<PendingDeletion> = Vec::new();
        std::mem::swap(&mut self.deleting, &mut taken);
        let n = taken.len();
        let mut stack: Vec<PendingDeletion> = Vec::new();
        while taken.len() > 0
            invariant
                n == orig.len(),
                taken.len() <= n,
                taken@ == orig.take(taken.len() as int),
                stack.len() == n - taken.len(),
                forall|j: int| 0 <= j < stack.len() ==> #[trigger] stack@[j] == orig[n - 1 - j],
            decreases taken.len(),
        {
            let d = taken.pop().unwrap();
            stack.push(d);
            assert(taken@ =~= orig.take(taken.len() as int));
        }
        let mut done: Vec<String> = Vec::new();
        let mut kept: Vec<PendingDeletion> = Vec::new();
        let mut i: usize = 0;
        assert(orig.take(0) =~= Seq::<PendingDeletion>::empty());
        while i < n
            invariant
                n == orig.len(),
                i <= n,
                stack.len() == n - i,
                forall|j: int| 0 <= j < stack.len() ==> #[trigger] stack@[j] == orig[n - 1 - j],
                kept@ == orig.take(i as int).filter(unexpired_pred(now)),
                done@.map_values(|s: String| s@) == orig.take(i as int).filter(expired_pred(now)).map_values(
                    |d: PendingDeletion| d.path@,
                ),
            decreases n - i,
        {
            let d = stack.pop().unwrap();
            assert(d == orig[i as int]);
            let ghost prefix = orig.take(i as int);
            proof {
                assert(orig.take(i + 1) =~= prefix.push(d));
                prefix.lemma_filter_push(d, unexpired_pred(now));
                prefix.lemma_filter_push(d, expired_pred(now));
            }
            let waited: u64 = if now >= d.started_at {
                now - d.started_at
            } else {
                0
            };
            if waited >= 130_000_000 {
                let ghost before = done@;
                let ghost dv = d;
                done.push(d.path);
                proof {
                    prefix.filter(expired_pred(now)).lemma_push_map_commute(
                        |d: PendingDeletion| d.path@,
                        dv,
                    );
                    before.lemma_push_map_commute(|s: String| s@, dv.path);
                }
            } else {
                kept.push(d);
            }
            i = i + 1;
        }
        assert(orig.take(n as int) =~= orig);
        proof {
            if pending_unique(orig) {
                lemma_filter_keeps_unique(orig, unexpired_pred(now));
            }
        }
        self.deleting = kept;
        let ghost paths = orig.filter(expired_pred(now)).map_values(|d: PendingDeletion| d.path@);
        // Remove the finished paths from the columns, in order.
        let mut cols: Vec<Column> = Vec::new();
        std::mem::swap(&mut self.columns, &mut cols);
        let ghost start_cols = column_views(cols@);
        let m = done.len();
        let mut k: usize = 0;
        while k < m
            invariant
                m == done@.len(),
                k <= m,
                done@.map_values(|s: String| s@) == paths,
                column_views(cols@) == drop_all_deleted(start_cols, paths.take(k as int)),
            decreases m - k,
        {
            let ghost before = column_views(cols@);
            cols = drop_deleted_columns(cols, &done[k]);
            proof {
                assert(paths[k as int] == done@[k as int]@);
                lemma_drop_all_snoc(start_cols, paths.take(k as int), paths[k as int]);
                assert(paths.take(k as int).push(paths[k as int]) =~= paths.take(k + 1));
            }
            k = k + 1;
        }
        assert(paths.take(m as int) =~= paths);
        if m > 0 {
            let ghost untrimmed = column_views(cols@);
            while cols.len() > 1 && cols[cols.len() - 1].entries.len() == 0
                invariant
                    trim_empty_tail(column_views(cols@)) == trim_empty_tail(untrimmed),
                decreases cols.len(),
            {
                let ghost before = column_views(cols@);
                cols.pop();
                assert(column_views(cols@) =~= before.drop_last());
            }
            assert(trim_empty_tail(column_views(cols@)) == column_views(cols@));
        }
        proof {
            if old(self).selections_valid() {
                assert(all_selections_valid(start_cols));
                lemma_drop_all_keeps_selections(start_cols, paths);
                if m > 0 {
                    lemma_trim_keeps_selections(drop_all_deleted(start_cols, paths));
                }
                assert forall|i: int| 0 <= i < cols@.len() implies (#[trigger] cols@[i])@.selection_valid() by {
                    assert(column_views(cols@)[i] == cols@[i]@);
                }
            }
        }
        self.columns = cols;
        self.deleting.len() > 0
    }

    /// The path of the selected row of every column that has one, in column
    /// order: what the delete key removes.
    pub fn delete_selected(&self) -> (r: Vec<String>)
        ensures
            r@.map_values(|s: String| s@) == selected_paths(column_views(self.columns@)),
    {
        let ghost views = column_views(self.columns@);
        let mut out: Vec<String> = Vec::new();
        let mut i: usize = 0;
        assert(views.take(0) =~= Seq::<ColumnView>::empty());
        while i < self.columns.len()
            invariant
                views == column_views(self.columns@),
                i <= self.columns.len(),
                out@.map_values(|s: String| s@) == selected_paths(views.take(i as int)),
            decreases self.columns.len() - i,
        {
            let col = &self.columns[i];
            assert(views.take(i + 1).drop_last() =~= views.take(i as int));
            assert(views.take(i + 1).last() == col@);
            match col.selected {
                Some(ix) => {
                    if ix < col.entries.len() {
                        let ghost before = out@;
                        out.push(col.entries[ix].path.clone());
                        proof {
                            before.lemma_push_map_commute(|s: String| s@, col.entries@[ix as int].path);
                        }
                    }
                },
                None => {},
            }
            i = i + 1;
        }
        assert(views.take(self.columns.len() as int) =~= views);
        out
    }
}

/// The paths of the selected rows, in column order.
pub open spec fn selected_paths(cols: Seq<ColumnView>) -> Seq<Seq<char>>
    decreases cols.len(),
{
    if cols.len() == 0 {
        Seq::empty()
    } else {
        let rest = selected_paths(cols.drop_last());
        let c = cols.last();
        match c.selected {
            Some(i) => if 0 <= i < c.entries.len() {
                rest.push(c.entries[i].path@)
            } else {
                rest
            },
            None => rest,
        }
    }
}

proof fn lemma_drop_all_snoc(cols: Seq<ColumnView>, paths: Seq<Seq<char>>, p: Seq<char>)
    ensures
        drop_all_deleted(cols, paths.push(p)) == drop_deleted(drop_all_deleted(cols, paths), p),
    decreases paths.len(),
{
    let pp = paths.push(p);
    assert(drop_all_deleted(cols, pp) == drop_all_deleted(drop_deleted(cols, pp[0]), pp.drop_first()));
    if paths.len() == 0 {
        assert(pp.drop_first() =~= Seq::<Seq<char>>::empty());
        assert(pp[0] == p);
        assert(drop_all_deleted(cols, paths) == cols);
    } else {
        assert(pp.drop_first() =~= paths.drop_first().push(p));
        assert(pp[0] == paths[0]);
        lemma_drop_all_snoc(drop_deleted(cols, paths[0]), paths.drop_first(), p);
    }
}

/// What a search result asks for when it is opened: the folder to show,
/// and the file to select there and open.
pub struct SearchOpen {
    pub show_folder: Option<String>,
    pub open_file: Option<String>,
}

/// What confirming a dialog with the name field holding `text` asks for.
pub open spec fn modal_outcome(modal: ModalState, text: Seq<char>) -> ModalOutcome {
    let name = trimmed(text);
    match modal {
        ModalState::Rename { path } => if name.len() > 0 {
            match path_parent(path@) {
                Some(parent) => if !paths_equal(join_path(parent, name), path@) {
                    ModalOutcome::Rename { from: path@, to: join_path(parent, name) }
                } else {
                    ModalOutcome::Nothing
                },
                None => ModalOutcome::Nothing,
            }
        } else {
            ModalOutcome::Nothing
        },
        ModalState::NewFolder { parent } => if name.len() > 0 {
            ModalOutcome::CreateFolder { path: join_path(parent@, name) }
        } else {
            ModalOutcome::Nothing
        },
        ModalState::NewFile { parent } => if name.len() > 0 {
            ModalOutcome::CreateFile { path: join_path(parent@, name) }
        } else {
            ModalOutcome::Nothing
        },
        ModalState::ConfirmDelete { path, is_dir } => ModalOutcome::Delete {
            path: path@,
            is_dir,
            removal: removal_for(path@),
        },
        _ => ModalOutcome::Nothing,
    }
}

/// Which request each dialog can ask for: only the New Folder dialog asks
/// to create a folder, only the New File dialog to create a file, only a
/// rename dialog to rename and only a delete confirmation to delete. The
/// New File and New Folder dialogs, confirmed with a name that is not blank
/// once trimmed, ask to create a file, respectively a folder, at their
/// folder joined with the trimmed name; a blank name asks for nothing.
pub proof fn lemma_dialog_requests(modal: ModalState, text: Seq<char>)
    ensures
        modal_outcome(modal, text) is CreateFolder ==> modal is NewFolder,
        modal_outcome(modal, text) is CreateFile ==> modal is NewFile,
        modal_outcome(modal, text) is Rename ==> modal is Rename,
        modal_outcome(modal, text) is Delete ==> modal is ConfirmDelete,
        modal matches ModalState::NewFile { parent } ==> (trimmed(text).len() > 0 ==> modal_outcome(
            modal,
            text,
        ) == (ModalOutcome::CreateFile { path: join_path(parent@, trimmed(text)) })),
        modal matches ModalState::NewFolder { parent } ==> (trimmed(text).len() > 0 ==> modal_outcome(
            modal,
            text,
        ) == (ModalOutcome::CreateFolder { path: join_path(parent@, trimmed(text)) })),
        (modal is NewFile || modal is NewFolder || modal is Rename) && trimmed(text).len() == 0
            ==> modal_outcome(modal, text) is Nothing,
{
}

/// A dialog's outcome as the contracts see it.
pub enum ModalOutcome {
    Nothing,
    Rename { from: Seq<char>, to: Seq<char> },
    CreateFolder { path: Seq<char> },
    CreateFile { path: Seq<char> },
    Delete { path: Seq<char>, is_dir: bool, removal: Removal },
}

impl View for ModalAction {
    type V = ModalOutcome;

    open spec fn view(&self) -> ModalOutcome {
        match self {
            ModalAction::Nothing => ModalOutcome::Nothing,
            ModalAction::Rename { from, to } => ModalOutcome::Rename { from: from@, to: to@ },
            ModalAction::CreateFolder { path } => ModalOutcome::CreateFolder { path: path@ },
            ModalAction::CreateFile { path } => ModalOutcome::CreateFile { path: path@ },
            ModalAction::Delete { path, is_dir, removal } => ModalOutcome::Delete {
                path: path@,
                is_dir: *is_dir,
                removal: *removal,
            },
        }
    }
}

/// What confirming a dialog other than a delete confirmation asks for.
fn request_for(modal: ModalState, text: &str) -> (r: ModalAction)
    requires
        !(modal is ConfirmDelete),
    ensures
        r@ == modal_outcome(modal, text@),
{
    let name = trim(text);
    let name_str = string_from_chars(&name);
    match modal {
        ModalState::Rename { path } => {
            if name.len() > 0 {
                match parent_of(path.as_str()) {
                    Some(parent) => {
                        let target = join(parent.as_str(), name_str.as_str());
                        if !same_path(target.as_str(), path.as_str()) {
                            ModalAction::Rename { from: path, to: target }
                        } else {
                            ModalAction::Nothing
                        }
                    },
                    None => ModalAction::Nothing,
                }
            } else {
                ModalAction::Nothing
            }
        },
        ModalState::NewFolder { parent } => {
            if name.len() > 0 {
                ModalAction::CreateFolder { path: join(parent.as_str(), name_str.as_str()) }
            } else {
                ModalAction::Nothing
            }
        },
        ModalState::NewFile { parent } => {
            if name.len() > 0 {
                ModalAction::CreateFile { path: join(parent.as_str(), name_str.as_str()) }
            } else {
                ModalAction::Nothing
            }
        },
        _ => ModalAction::Nothing,
    }
}

impl FileListView {
    /// Confirms the dialog, the name field holding `text`: it closes, and a
    /// rename, a new folder or file, or a deletion (whose removal animation
    /// starts at `now`) is asked for. Also tells whether the animation clock
    /// has to start.
    pub fn confirm_modal(&mut self, text: &str, now: u64) -> (r: (ModalAction, bool))
        ensures
            r.0@ == modal_outcome(old(self).modal_state, text@),
            r.0 is CreateFolder ==> old(self).modal_state is NewFolder,
            r.0 is CreateFile ==> old(self).modal_state is NewFile,
            old(self).modal_state matches ModalState::NewFile { parent } ==> (trimmed(text@).len() > 0 ==> (
            r.0 matches ModalAction::CreateFile { path } && path@ == join_path(parent@, trimmed(text@)))),
            final(self).modal_state is Closed,
            final(self).columns == old(self).columns,
            match old(self).modal_state {
                ModalState::ConfirmDelete { path, .. } => {
                    &&& has_pending(old(self).deleting@, path@) ==> final(self).deleting == old(
                        self,
                    ).deleting && !r.1
                    &&& !has_pending(old(self).deleting@, path@) ==> final(self).deleting@ == old(
                        self,
                    ).deleting@.push(PendingDeletion { path, started_at: now }) && r.1 == !old(
                        self,
                    ).delete_animation_active
                },
                _ => final(self).deleting == old(self).deleting && !r.1,
            },
            *final(self) == (FileListView { modal_state: final(self).modal_state, deleting: final(self).deleting, delete_animation_active: final(self).delete_animation_active, ..*old(self) }),
    {
        proof {
            lemma_dialog_requests(self.modal_state, text@);
        }
        let mut modal = ModalState::Closed;
        std::mem::swap(&mut self.modal_state, &mut modal);
        match modal {
            ModalState::ConfirmDelete { path, is_dir } => {
                let (removal, start) = self.delete_file_by_path(&path, now);
                (ModalAction::Delete { path, is_dir, removal }, start)
            },
            other => (request_for(other, text), false),
        }
    }

    /// A click on row `entry_ix` of column `col_ix` at `now` (a monotonic
    /// clock reading in nanoseconds). The click that ends a drag does
    /// nothing. A second click on the same row within 270 ms opens it:
    /// a folder in a new column (or alone, in list mode), a file with its
    /// application. A single click selects the row and, in column mode,
    /// opens a folder in the next column.
    pub fn select_in_column(&mut self, col_ix: usize, entry_ix: usize, now: u64) -> (r: OpenAction)
        ensures
            old(self).dragged_path is Some ==> {
                &&& r is Nothing
                &&& final(self).dragged_path is None
                &&& final(self).columns == old(self).columns
                &&& final(self).last_click == old(self).last_click
            },
            old(self).dragged_path is None ==> {
                let double = match old(self).last_click {
                    Some((c, e, t)) => c == col_ix && e == entry_ix && elapsed(t, now)
                        < double_click_nanos(),
                    None => false,
                };
                let cols = old(self).columns@;
                let found = col_ix < cols.len() && entry_ix < cols[col_ix as int].entries@.len();
                &&& final(self).dragged_path is None
                &&& double ==> {
                    &&& final(self).last_click is None
                    &&& final(self).columns == old(self).columns
                    &&& !found ==> r is Nothing
                    &&& found ==> {
                        let e = cols[col_ix as int].entries@[entry_ix as int];
                        &&& (e.is_directory() && old(self).view_mode == ViewMode::List) ==> r
                            == (OpenAction::Navigate { path: e.path })
                        &&& (e.is_directory() && old(self).view_mode == ViewMode::Columns) ==> r
                            == (OpenAction::OpenColumn { after: col_ix, path: e.path })
                        &&& !e.is_directory() ==> r == (OpenAction::OpenFile { path: e.path })
                    }
                }
                &&& !double ==> {
                    &&& final(self).last_click == Some((col_ix, entry_ix, now))
                    &&& final(self).columns@.len() == cols.len()
                    &&& forall|j: int|
                        0 <= j < cols.len() && j != col_ix ==> #[trigger] final(self).columns@[j]
                            == cols[j]
                    &&& col_ix < cols.len() ==> {
                        &&& final(self).columns@[col_ix as int].path == cols[col_ix as int].path
                        &&& final(self).columns@[col_ix as int].entries
                            == cols[col_ix as int].entries
                        &&& final(self).columns@[col_ix as int].selected == Some(entry_ix)
                    }
                    &&& (found && cols[col_ix as int].entries@[entry_ix as int].is_directory()
                        && old(self).view_mode == ViewMode::Columns) ==> r == (OpenAction::OpenColumn {
                        after: col_ix,
                        path: cols[col_ix as int].entries@[entry_ix as int].path,
                    })
                    &&& !(found && cols[col_ix as int].entries@[entry_ix as int].is_directory()
                        && old(self).view_mode == ViewMode::Columns) ==> r is Nothing
                }
            },
            old(self).selections_valid() && (col_ix < old(self).columns@.len() ==> entry_ix < old(
                self,
            ).columns@[col_ix as int].entries@.len()) ==> final(self).selections_valid(),
            final(self).view_mode == old(self).view_mode,
            *final(self) == (FileListView { dragged_path: final(self).dragged_path, last_click: final(self).last_click, columns: final(self).columns, ..*old(self) }),
    {
        if self.dragged_path.is_some() {
            self.dragged_path = None;
            return OpenAction::Nothing;
        }
        let is_double = match self.last_click {
            Some((c, e, t)) => {
                let waited: u64 = if now >= t {
                    now - t
                } else {
                    0
                };
                c == col_ix && e == entry_ix && waited < 270_000_000
            },
            None => false,
        };
        if is_double {
            self.last_click = None;
            if col_ix < self.columns.len() && entry_ix < self.columns[col_ix].entries.len() {
                let entry = &self.columns[col_ix].entries[entry_ix];
                if entry.is_dir() {
                    match self.view_mode {
                        ViewMode::List => OpenAction::Navigate { path: entry.path.clone() },
                        ViewMode::Columns => OpenAction::OpenColumn {
                            after: col_ix,
                            path: entry.path.clone(),
                        },
                    }
                } else {
                    OpenAction::OpenFile { path: entry.path.clone() }
                }
            } else {
                OpenAction::Nothing
            }
        } else {
            self.last_click = Some((col_ix, entry_ix, now));
            if col_ix < self.columns.len() {
                let mut col = Column { path: String::new(), entries: Vec::new(), selected: None };
                self.columns.set_and_swap(col_ix, &mut col);
                let mut action = OpenAction::Nothing;
                if entry_ix < col.entries.len() {
                    let entry = &col.entries[entry_ix];
                    if entry.is_dir() && self.view_mode == ViewMode::Columns {
                        action = OpenAction::OpenColumn { after: col_ix, path: entry.path.clone() };
                    }
                }
                let updated = Column { path: col.path, entries: col.entries, selected: Some(entry_ix) };
                self.columns.set(col_ix, updated);
                action
            } else {
                OpenAction::Nothing
            }
        }
    }

    /// Shows the folder `path` (whose entries as read are `raw`) in a new
    /// column after column `after`, closing the columns that followed it.
    pub fn open_column(&mut self, after: usize, path: String, raw: Vec<FileEntry>)
        ensures
            ({
                let kept = if after < old(self).columns@.len() {
                    after + 1
                } else {
                    old(self).columns@.len() as int
                };
                &&& final(self).columns@.len() == kept + 1
                &&& forall|j: int| 0 <= j < kept ==> #[trigger] final(self).columns@[j] == old(self).columns@[j]
                &&& final(self).columns@[kept].path == path
                &&& listing_of(
                    raw@,
                    final(self).columns@[kept].entries@,
                    old(self).show_hidden,
                    old(self).sort_column,
                    old(self).sort_direction,
                )
                &&& final(self).columns@[kept].selected is None
            }),
            old(self).selections_valid() ==> final(self).selections_valid(),
            *final(self) == (FileListView { columns: final(self).columns, ..*old(self) }),
    {
        if after < self.columns.len() {
            self.columns.truncate(after + 1);
        }
        let entries = visible_entries(raw, self.show_hidden, self.sort_column, self.sort_direction);
        self.columns.push(Column { path, entries, selected: None });
    }

    /// The search field now holds `text`: a new search generation begins;
    /// an empty (after trimming) query clears the results, any other is the
    /// query to run, returned trimmed.
    pub fn search_text_changed(&mut self, text: &str) -> (query: Option<String>)
        ensures
            final(self).search_generation == (if old(self).search_generation == u64::MAX {
                0
            } else {
                (old(self).search_generation + 1) as u64
            }),
            trimmed(text@).len() == 0 ==> {
                &&& query is None
                &&& final(self).search_results@.len() == 0
                &&& !final(self).searching
            },
            trimmed(text@).len() > 0 ==> {
                &&& query is Some
                &&& query->0@ == trimmed(text@)
                &&& final(self).searching
                &&& final(self).search_results == old(self).search_results
            },
            final(self).columns == old(self).columns,
            *final(self) == (FileListView { search_generation: final(self).search_generation, search_results: final(self).search_results, searching: final(self).searching, ..*old(self) }),
    {
        self.search_generation = self.search_generation.wrapping_add(1);
        let q = trim(text);
        if q.len() == 0 {
            self.search_results = Vec::new();
            self.searching = false;
            None
        } else {
            self.searching = true;
            Some(string_from_chars(&q))
        }
    }

    /// Results of the search of generation `generation` arrived; they are
    /// shown only while searching and if no newer search began.
    pub fn accept_search_results(&mut self, generation: u64, results: Vec<FileEntry>) -> (shown: bool)
        ensures
            shown == (old(self).searching && old(self).search_generation == generation),
            shown ==> final(self).search_results == results,
            !shown ==> final(self).search_results == old(self).search_results,
            final(self).searching == old(self).searching,
            final(self).search_generation == old(self).search_generation,
            final(self).columns == old(self).columns,
            *final(self) == (FileListView { search_results: final(self).search_results, ..*old(self) }),
    {
        if self.searching && self.search_generation == generation {
            self.search_results = results;
            true
        } else {
            false
        }
    }

    /// Opens the search result `path` (a folder if `is_dir`): the search
    /// ends; a folder is shown, a file is shown in its folder and opened.
    pub fn open_search_result(&mut self, path: String, is_dir: bool) -> (r: SearchOpen)
        ensures
            !final(self).searching,
            final(self).search_results@.len() == 0,
            is_dir ==> r.show_folder == Some(path) && r.open_file is None,
            !is_dir ==> opt_view(r.show_folder) == path_parent(path@) && r.open_file == Some(path),
            final(self).columns == old(self).columns,
            *final(self) == (FileListView { searching: final(self).searching, search_results: final(self).search_results, ..*old(self) }),
    {
        self.searching = false;
        self.search_results = Vec::new();
        if is_dir {
            SearchOpen { show_folder: Some(path), open_file: None }
        } else {
            let parent = parent_of(path.as_str());
            SearchOpen { show_folder: parent, open_file: Some(path) }
        }
    }

    /// The removal animation has stopped.
    pub fn stop_delete_animation(&mut self)
        ensures
            !final(self).delete_animation_active,
            final(self).columns == old(self).columns,
            final(self).deleting == old(self).deleting,
            *final(self) == (FileListView { delete_animation_active: final(self).delete_animation_active, ..*old(self) }),
    {
        self.delete_animation_active = false;
    }
}

} // verus!
