use vstd::prelude::*;

use crate::file_entry::{FileEntry, FileKind};
use crate::file_list::{FileListView, ModalState, ViewMode};
use crate::paths::{file_name_of, in_trash, is_in_trash, opt_view, path_file_name};
use crate::sorting::{SortColumn, SortDirection};
use crate::text::{
    chars_of, decimal, format_exact_bytes, group_thousands, push_decimal, push_str, string_from_chars,
};

verus! {

// ---------------------------------------------------------------------------
// The toolbar
// ---------------------------------------------------------------------------

/// What the browser shows below its toolbar.
#[derive(Clone, Copy, Debug, PartialEq, Eq, Structural)]
pub enum Body {
    SearchResults,
    List,
    Columns,
}

/// The toolbar and status line of the browser.
pub struct Toolbar {
    /// One label per open column.
    pub breadcrumb: Vec<String>,
    pub sidebar_tooltip: String,
    pub show_new_folder: bool,
    pub show_empty_trash: bool,
    pub status: String,
    pub body: Body,
}

/// The breadcrumb label of a column's folder: its name, or the whole path
/// where it has none.
pub open spec fn crumb(path: Seq<char>) -> Seq<char> {
    match path_file_name(path) {
        Some(n) => n,
        None => path,
    }
}

/// The tooltip of the sidebar button.
pub open spec fn sidebar_tooltip_spec(collapsed: bool) -> Seq<char> {
    if collapsed {
        "Show sidebar (Ctrl+B)"@
    } else {
        "Hide sidebar (Ctrl+B)"@
    }
}

/// The status line: the number of search results while searching, else the
/// number of entries of the last column.
pub open spec fn status_spec(searching: bool, results: nat, items: nat) -> Seq<char> {
    if searching {
        decimal(results) + " search results"@
    } else {
        decimal(items) + " items"@
    }
}

/// What the browser shows for its view mode and search state.
pub open spec fn body_spec(searching: bool, mode: ViewMode) -> Body {
    if searching {
        Body::SearchResults
    } else if mode == ViewMode::List {
        Body::List
    } else {
        Body::Columns
    }
}

/// The label of one breadcrumb.
fn crumb_label(path: &String) -> (r: String)
    ensures
        r@ == crumb(path@),
{
    let name = file_name_of(path.as_str());
    assert(opt_view(name) == path_file_name(path@));
    match name {
        Some(n) => n,
        None => path.clone(),
    }
}

impl FileListView {
    /// The toolbar for the browser's state: the breadcrumb of its columns,
    /// the sidebar tooltip, the new-folder button outside the trash and the
    /// empty-trash button inside it, the status line and the body shown.
    pub fn toolbar(&self) -> (r: Toolbar)
        ensures
            r.breadcrumb@.len() == self.columns@.len(),
            forall|i: int|
                0 <= i < self.columns@.len() ==> (#[trigger] r.breadcrumb@[i])@ == crumb(
                    self.columns@[i].path@,
                ),
            r.sidebar_tooltip@ == sidebar_tooltip_spec(self.sidebar_collapsed),
            r.show_empty_trash == (self.columns@.len() > 0 && in_trash(self.columns@.last().path@)),
            r.show_new_folder == !r.show_empty_trash,
            r.status@ == status_spec(
                self.searching,
                self.search_results@.len(),
                if self.columns@.len() > 0 {
                    self.columns@.last().entries@.len()
                } else {
                    0
                },
            ),
            r.body == body_spec(self.searching, self.view_mode),
    {
        let mut breadcrumb: Vec<String> = Vec::new();
        let mut i: usize = 0;
        while i < self.columns.len()
            invariant
                i <= self.columns@.len(),
                breadcrumb@.len() == i,
                forall|j: int|
                    0 <= j < i ==> (#[trigger] breadcrumb@[j])@ == crumb(self.columns@[j].path@),
            decreases self.columns@.len() - i,
        {
            breadcrumb.push(crumb_label(&self.columns[i].path));
            i = i + 1;
        }
        let n = self.columns.len();
        let in_trash_now = n > 0 && is_in_trash(self.columns[n - 1].path.as_str());
        let items: usize = if n > 0 {
            self.columns[n - 1].entries.len()
        } else {
            0
        };
        let mut status: Vec<char> = Vec::new();
        if self.searching {
            push_decimal(self.search_results.len() as u64, &mut status);
            push_str(&mut status, " search results");
        } else {
            push_decimal(items as u64, &mut status);
            push_str(&mut status, " items");
        }
        let tooltip = if self.sidebar_collapsed {
            "Show sidebar (Ctrl+B)"
        } else {
            "Hide sidebar (Ctrl+B)"
        };
        let body = if self.searching {
            Body::SearchResults
        } else {
            match self.view_mode {
                ViewMode::List => Body::List,
                _ => Body::Columns,
            }
        };
        Toolbar {
            breadcrumb,
            sidebar_tooltip: tooltip.to_owned(),
            show_new_folder: !in_trash_now,
            show_empty_trash: in_trash_now,
            status: string_from_chars(&status),
            body,
        }
    }
}

// ---------------------------------------------------------------------------
// The list header
// ---------------------------------------------------------------------------

/// The title of a column of the list view.
pub open spec fn column_title_spec(c: SortColumn) -> Seq<char> {
    match c {
        SortColumn::Name => "Name"@,
        SortColumn::DateModified => "Date Modified"@,
        SortColumn::Size => "Size"@,
        SortColumn::Kind => "Kind"@,
    }
}

/// The title of a column of the list view.
pub fn column_title(c: SortColumn) -> (r: &'static str)
    ensures
        r@ == column_title_spec(c),
{
    match c {
        SortColumn::Name => "Name",
        SortColumn::DateModified => "Date Modified",
        SortColumn::Size => "Size",
        SortColumn::Kind => "Kind",
    }
}

/// The arrow a header cell shows: the sort direction on the sorted column,
/// nothing on the others.
pub fn sort_arrow(active: SortColumn, direction: SortDirection, column: SortColumn) -> (r: Option<
    SortDirection,
>)
    ensures
        r == if active == column {
            Some(direction)
        } else {
            None::<SortDirection>
        },
{
    if active == column {
        Some(direction)
    } else {
        None
    }
}

// ---------------------------------------------------------------------------
// Rows
// ---------------------------------------------------------------------------

/// The icon of a row.
#[derive(Clone, Copy, Debug, PartialEq, Eq, Structural)]
pub enum RowIcon {
    Folder,
    File,
    Link,
}

/// A color role of the theme.
#[derive(Clone, Copy, Debug, PartialEq, Eq, Structural)]
pub enum Tone {
    Foreground,
    Muted,
    Accent,
    Selection,
}

/// The background of a row.
#[derive(Clone, Copy, Debug, PartialEq, Eq, Structural)]
pub enum RowBackground {
    Highlight,
    Stripe,
    Clear,
}

/// How a row looks.
#[derive(Clone, Copy, Debug, PartialEq, Eq, Structural)]
pub struct RowLook {
    pub icon: RowIcon,
    pub icon_tone: Tone,
    pub name_tone: Tone,
    pub background: RowBackground,
    /// Hidden files are drawn fainter.
    pub faint: bool,
    /// Folders with entries show an arrow in the column view.
    pub chevron: bool,
}

/// The icon of an entry of this kind.
pub open spec fn icon_spec(kind: FileKind) -> RowIcon {
    match kind {
        FileKind::Directory => RowIcon::Folder,
        FileKind::File => RowIcon::File,
        FileKind::Symlink => RowIcon::Link,
    }
}

/// Whether a name is that of a hidden file.
pub open spec fn hidden_name(name: Seq<char>) -> bool {
    name.len() > 0 && name[0] == '.'
}

/// How row `ix` of the list view looks: selected rows are highlighted, odd
/// rows striped; the icon is tinted for the selection and for folders, and
/// hidden files are fainter, with a muted name unless selected.
pub open spec fn list_row_look(e: FileEntry, selected: bool, ix: nat) -> RowLook {
    RowLook {
        icon: icon_spec(e.kind),
        icon_tone: if selected {
            Tone::Selection
        } else if e.kind == FileKind::Directory {
            Tone::Accent
        } else {
            Tone::Muted
        },
        name_tone: if !selected && hidden_name(e.name@) {
            Tone::Muted
        } else {
            Tone::Foreground
        },
        background: if selected {
            RowBackground::Highlight
        } else if ix % 2 == 1 {
            RowBackground::Stripe
        } else {
            RowBackground::Clear
        },
        faint: hidden_name(e.name@),
        chevron: false,
    }
}

/// How a row of the column view looks: selected rows are highlighted, the
/// icon is tinted for the selection and for folders, and folders with
/// entries show an arrow.
pub open spec fn column_row_look(e: FileEntry, selected: bool) -> RowLook {
    RowLook {
        icon: icon_spec(e.kind),
        icon_tone: if selected || e.kind == FileKind::Directory {
            Tone::Accent
        } else {
            Tone::Muted
        },
        name_tone: Tone::Foreground,
        background: if selected {
            RowBackground::Highlight
        } else {
            RowBackground::Clear
        },
        faint: false,
        chevron: e.has_children,
    }
}

fn icon_of(kind: FileKind) -> (r: RowIcon)
    ensures
        r == icon_spec(kind),
{
    match kind {
        FileKind::Directory => RowIcon::Folder,
        FileKind::File => RowIcon::File,
        FileKind::Symlink => RowIcon::Link,
    }
}

fn is_hidden_name(name: &String) -> (r: bool)
    ensures
        r == hidden_name(name@),
{
    let v = chars_of(name.as_str());
    v.len() > 0 && v[0] == '.'
}

/// How row `ix` of the list view looks.
pub fn list_row(e: &FileEntry, selected: bool, ix: usize) -> (r: RowLook)
    ensures
        r == list_row_look(*e, selected, ix as nat),
{
    let hidden = is_hidden_name(&e.name);
    let is_dir = e.is_dir();
    RowLook {
        icon: icon_of(e.kind),
        icon_tone: if selected {
            Tone::Selection
        } else if is_dir {
            Tone::Accent
        } else {
            Tone::Muted
        },
        name_tone: if !selected && hidden {
            Tone::Muted
        } else {
            Tone::Foreground
        },
        background: if selected {
            RowBackground::Highlight
        } else if ix % 2 == 1 {
            RowBackground::Stripe
        } else {
            RowBackground::Clear
        },
        faint: hidden,
        chevron: false,
    }
}

/// How a row of the column view looks.
pub fn column_row(e: &FileEntry, selected: bool) -> (r: RowLook)
    ensures
        r == column_row_look(*e, selected),
{
    let is_dir = e.is_dir();
    RowLook {
        icon: icon_of(e.kind),
        icon_tone: if selected || is_dir {
            Tone::Accent
        } else {
            Tone::Muted
        },
        name_tone: Tone::Foreground,
        background: if selected {
            RowBackground::Highlight
        } else {
            RowBackground::Clear
        },
        faint: false,
        chevron: e.has_children,
    }
}

/// The length in characters of the longest name among `entries` (0 when
/// there are none), which a column's width is fitted to.
pub open spec fn longest_name_spec(entries: Seq<FileEntry>) -> nat
    decreases entries.len(),
{
    if entries.len() == 0 {
        0
    } else {
        let rest = longest_name_spec(entries.drop_last());
        let n = entries.last().name@.len();
        if n > rest {
            n
        } else {
            rest
        }
    }
}

/// The length in characters of the longest name among `entries`.
pub fn longest_name(entries: &Vec<FileEntry>) -> (r: usize)
    ensures
        r == longest_name_spec(entries@),
{
    let mut best: usize = 0;
    let mut i: usize = 0;
    while i < entries.len()
        invariant
            i <= entries.len(),
            best == longest_name_spec(entries@.take(i as int)),
        decreases entries.len() - i,
    {
        assert(entries@.take(i + 1).drop_last() =~= entries@.take(i as int));
        let n = chars_of(entries[i].name.as_str()).len();
        if n > best {
            best = n;
        }
        i = i + 1;
    }
    assert(entries@.take(entries.len() as int) =~= entries@);
    best
}

// ---------------------------------------------------------------------------
// Dialogs
// ---------------------------------------------------------------------------

/// The texts of the dialog over the browser.
pub enum Dialog {
    /// A name to type, with the dialog's title and its confirm button.
    Input { title: String, confirm: String },
    /// The facts about an entry: its name, kind and the rows
    /// "Size", "Modified" and "Where".
    Info { title: String, name: String, kind: String, size: String, modified: String, location: String },
    /// A question before deleting for good, with its message.
    Confirm { title: String, message: String, confirm: String },
}

/// The size line of "Get Info": "--" for folders, else the size label and
/// the exact size `exact`, as in "1.5 KB (1,536 bytes)".
pub open spec fn size_detail_spec(e: FileEntry, exact: Seq<char>) -> Seq<char> {
    if e.kind == FileKind::Directory {
        "--"@
    } else {
        e.cached_size_label@ + " ("@ + exact + " bytes)"@
    }
}

/// The message before deleting `path` for good.
pub open spec fn delete_message_spec(path: Seq<char>, is_dir: bool) -> Seq<char> {
    "\u{201c}"@ + crumb(path) + "\u{201d} will be permanently deleted. This "@ + (if is_dir {
        "folder"@
    } else {
        "file"@
    }) + " cannot be undone."@
}

/// The dialog's texts, if one is open: its title and buttons, the facts
/// of "Get Info" and the question before deleting for good.
pub fn dialog_for(modal: &ModalState) -> (r: Option<Dialog>)
    ensures
        modal is Closed ==> r is None,
        modal is Rename ==> (r matches Some(Dialog::Input { title, confirm }) && title@
            == "Rename Item"@ && confirm@ == "Rename"@),
        modal is NewFolder ==> (r matches Some(Dialog::Input { title, confirm }) && title@
            == "New Folder"@ && confirm@ == "Create"@),
        modal is NewFile ==> (r matches Some(Dialog::Input { title, confirm }) && title@
            == "New File"@ && confirm@ == "Create"@),
        modal matches ModalState::GetInfo { entry } ==> (r matches Some(
            Dialog::Info { title, name, kind, size, modified, location },
        ) && {
            &&& title@ == "Get Info"@
            &&& name@ == entry.name@
            &&& kind@ == crate::file_entry::kind_label_spec(entry.kind)
            &&& size@ == size_detail_spec(*entry, group_thousands(decimal(entry.size as nat)))
            &&& modified@ == entry.cached_date_label@
            &&& location@ == entry.path@
        }),
        modal matches ModalState::ConfirmDelete { path, is_dir } ==> (r matches Some(
            Dialog::Confirm { title, message, confirm },
        ) && title@ == "Delete Permanently"@ && message@ == delete_message_spec(path@, *is_dir)
            && confirm@ == "Delete"@),
{
    match modal {
        ModalState::Closed => None,
        ModalState::Rename { .. } => Some(
            Dialog::Input { title: "Rename Item".to_owned(), confirm: "Rename".to_owned() },
        ),
        ModalState::NewFolder { .. } => Some(
            Dialog::Input { title: "New Folder".to_owned(), confirm: "Create".to_owned() },
        ),
        ModalState::NewFile { .. } => Some(
            Dialog::Input { title: "New File".to_owned(), confirm: "Create".to_owned() },
        ),
        ModalState::GetInfo { entry } => {
            let size = if entry.is_dir() {
                "--".to_owned()
            } else {
                let exact = format_exact_bytes(entry.size);
                let mut v: Vec<char> = Vec::new();
                push_str(&mut v, entry.size_label());
                push_str(&mut v, " (");
                push_str(&mut v, exact.as_str());
                push_str(&mut v, " bytes)");
                assert(v@ == size_detail_spec(*entry, exact@));
                string_from_chars(&v)
            };
            Some(
                Dialog::Info {
                    title: "Get Info".to_owned(),
                    name: entry.name.clone(),
                    kind: entry.kind_label().to_owned(),
                    size,
                    modified: entry.date_label().to_owned(),
                    location: entry.path.clone(),
                },
            )
        },
        ModalState::ConfirmDelete { path, is_dir } => {
            let mut v: Vec<char> = Vec::new();
            push_str(&mut v, "\u{201c}");
            let name = crumb_label(path);
            push_str(&mut v, name.as_str());
            push_str(&mut v, "\u{201d} will be permanently deleted. This ");
            if *is_dir {
                push_str(&mut v, "folder");
            } else {
                push_str(&mut v, "file");
            }
            push_str(&mut v, " cannot be undone.");
            assert(v@ =~= delete_message_spec(path@, *is_dir));
            Some(
                Dialog::Confirm {
                    title: "Delete Permanently".to_owned(),
                    message: string_from_chars(&v),
                    confirm: "Delete".to_owned(),
                },
            )
        },
    }
}

} // verus!
