use vstd::prelude::*;

use crate::paths::{in_trash, is_in_trash, parent_of, path_parent};

verus! {

/// An entry of a context menu.
#[derive(Clone, Copy, Debug, PartialEq, Eq, Structural)]
pub enum MenuItem {
    Separator,
    Open,
    OpenInNewTab,
    OpenInTerminal,
    Rename,
    Duplicate,
    CopyPath,
    CopyName,
    NewFolder,
    NewFile,
    MoveToTrash,
    DeletePermanently,
    GetInfo,
    EmptyTrash,
    Refresh,
    ToggleHiddenFiles,
    SelectAll,
}

/// The menu of a file or folder: open (and open in a new tab for folders),
/// open in terminal; rename and duplicate outside the trash; copy path and
/// name; new folder and file outside the trash; move to trash and delete
/// outside the trash, only delete inside it; get info.
pub open spec fn item_menu_spec(is_dir: bool, inside_trash: bool) -> Seq<MenuItem> {
    let opening = if is_dir {
        seq![MenuItem::Open, MenuItem::OpenInNewTab, MenuItem::OpenInTerminal]
    } else {
        seq![MenuItem::Open, MenuItem::OpenInTerminal]
    };
    let editing = if inside_trash {
        Seq::empty()
    } else {
        seq![MenuItem::Rename, MenuItem::Duplicate]
    };
    let copying = seq![MenuItem::CopyPath, MenuItem::CopyName];
    let creating = if inside_trash {
        Seq::empty()
    } else {
        seq![MenuItem::Separator, MenuItem::NewFolder, MenuItem::NewFile]
    };
    let deleting = if inside_trash {
        seq![MenuItem::DeletePermanently]
    } else {
        seq![MenuItem::MoveToTrash, MenuItem::DeletePermanently]
    };
    opening + seq![MenuItem::Separator] + editing + copying + creating + seq![MenuItem::Separator]
        + deleting + seq![MenuItem::Separator, MenuItem::GetInfo]
}

/// The menu of a folder's background: empty trash inside the trash, new
/// folder and file elsewhere; then open in terminal, copy path, refresh,
/// toggle hidden files and select all.
pub open spec fn background_menu_spec(inside_trash: bool) -> Seq<MenuItem> {
    let first = if inside_trash {
        seq![MenuItem::EmptyTrash, MenuItem::Separator]
    } else {
        seq![MenuItem::NewFolder, MenuItem::NewFile, MenuItem::Separator]
    };
    first + seq![
        MenuItem::OpenInTerminal,
        MenuItem::CopyPath,
        MenuItem::Separator,
        MenuItem::Refresh,
        MenuItem::ToggleHiddenFiles,
        MenuItem::SelectAll,
    ]
}

/// The text of a menu entry (a separator has none).
pub open spec fn menu_label_spec(item: MenuItem) -> Seq<char> {
    match item {
        MenuItem::Separator => Seq::empty(),
        MenuItem::Open => "Open"@,
        MenuItem::OpenInNewTab => "Open in New Tab"@,
        MenuItem::OpenInTerminal => "Open in Terminal"@,
        MenuItem::Rename => "Rename..."@,
        MenuItem::Duplicate => "Duplicate"@,
        MenuItem::CopyPath => "Copy Path"@,
        MenuItem::CopyName => "Copy Name"@,
        MenuItem::NewFolder => "New Folder"@,
        MenuItem::NewFile => "New File"@,
        MenuItem::MoveToTrash => "Move to Trash"@,
        MenuItem::DeletePermanently => "Delete Permanently"@,
        MenuItem::GetInfo => "Get Info"@,
        MenuItem::EmptyTrash => "Empty Trash"@,
        MenuItem::Refresh => "Refresh"@,
        MenuItem::ToggleHiddenFiles => "Toggle Hidden Files"@,
        MenuItem::SelectAll => "Select All"@,
    }
}

/// The text of a menu entry.
pub fn menu_label(item: MenuItem) -> (r: &'static str)
    ensures
        r@ == menu_label_spec(item),
{
    match item {
        MenuItem::Separator => {
            let r = "";
            proof {
                reveal_strlit("");
            }
            r
        },
        MenuItem::Open => "Open",
        MenuItem::OpenInNewTab => "Open in New Tab",
        MenuItem::OpenInTerminal => "Open in Terminal",
        MenuItem::Rename => "Rename...",
        MenuItem::Duplicate => "Duplicate",
        MenuItem::CopyPath => "Copy Path",
        MenuItem::CopyName => "Copy Name",
        MenuItem::NewFolder => "New Folder",
        MenuItem::NewFile => "New File",
        MenuItem::MoveToTrash => "Move to Trash",
        MenuItem::DeletePermanently => "Delete Permanently",
        MenuItem::GetInfo => "Get Info",
        MenuItem::EmptyTrash => "Empty Trash",
        MenuItem::Refresh => "Refresh",
        MenuItem::ToggleHiddenFiles => "Toggle Hidden Files",
        MenuItem::SelectAll => "Select All",
    }
}

/// The context menu of the entry at `path`.
pub fn item_menu(path: &str, is_dir: bool) -> (r: Vec<MenuItem>)
    ensures
        r@ == item_menu_spec(is_dir, in_trash(path@)),
{
    let inside_trash = is_in_trash(path);
    let mut m: Vec<MenuItem> = Vec::new();
    m.push(MenuItem::Open);
    if is_dir {
        m.push(MenuItem::OpenInNewTab);
    }
    m.push(MenuItem::OpenInTerminal);
    m.push(MenuItem::Separator);
    if !inside_trash {
        m.push(MenuItem::Rename);
        m.push(MenuItem::Duplicate);
    }
    m.push(MenuItem::CopyPath);
    m.push(MenuItem::CopyName);
    if !inside_trash {
        m.push(MenuItem::Separator);
        m.push(MenuItem::NewFolder);
        m.push(MenuItem::NewFile);
    }
    m.push(MenuItem::Separator);
    if inside_trash {
        m.push(MenuItem::DeletePermanently);
    } else {
        m.push(MenuItem::MoveToTrash);
        m.push(MenuItem::DeletePermanently);
    }
    m.push(MenuItem::Separator);
    m.push(MenuItem::GetInfo);
    assert(m@ =~= item_menu_spec(is_dir, inside_trash));
    m
}

/// The context menu of the background of the folder `dir`.
pub fn background_menu(dir: &str) -> (r: Vec<MenuItem>)
    ensures
        r@ == background_menu_spec(in_trash(dir@)),
{
    let inside_trash = is_in_trash(dir);
    let mut m: Vec<MenuItem> = Vec::new();
    if inside_trash {
        m.push(MenuItem::EmptyTrash);
        m.push(MenuItem::Separator);
    } else {
        m.push(MenuItem::NewFolder);
        m.push(MenuItem::NewFile);
        m.push(MenuItem::Separator);
    }
    m.push(MenuItem::OpenInTerminal);
    m.push(MenuItem::CopyPath);
    m.push(MenuItem::Separator);
    m.push(MenuItem::Refresh);
    m.push(MenuItem::ToggleHiddenFiles);
    m.push(MenuItem::SelectAll);
    assert(m@ =~= background_menu_spec(inside_trash));
    m
}

/// Where "New Folder" and "New File" of an entry's menu create: inside a
/// folder, next to a file (or at the file's path if it has no parent).
pub fn new_item_parent(path: &str, is_dir: bool) -> (r: String)
    ensures
        is_dir ==> r@ == path@,
        !is_dir ==> r@ == match path_parent(path@) {
            Some(p) => p,
            None => path@,
        },
{
    if is_dir {
        String::from_str(path)
    } else {
        match parent_of(path) {
            Some(p) => p,
            None => String::from_str(path),
        }
    }
}

/// Where a terminal opened on `path` starts: a file's folder (or the file's
/// path if it has none), otherwise the path itself.
pub fn terminal_dir(path: &str, is_file: bool) -> (r: String)
    ensures
        !is_file ==> r@ == path@,
        is_file ==> r@ == match path_parent(path@) {
            Some(p) => p,
            None => path@,
        },
{
    new_item_parent(path, !is_file)
}

/// The terminals tried in order: `$TERMINAL` if set, then the usual ones.
pub fn terminal_candidates(terminal_env: Option<String>) -> (r: Vec<String>)
    ensures
        ({
            let known = seq![
                "ghostty"@,
                "alacritty"@,
                "kitty"@,
                "wezterm"@,
                "gnome-terminal"@,
                "x-terminal-emulator"@,
                "konsole"@,
                "xfce4-terminal"@,
                "foot"@,
                "xterm"@,
            ];
            r@.map_values(|s: String| s@) == match terminal_env {
                Some(t) => seq![t@] + known,
                None => known,
            }
        }),
{
    let mut v: Vec<String> = Vec::new();
    match terminal_env {
        Some(t) => v.push(t),
        None => {},
    }
    v.push(String::from_str("ghostty"));
    v.push(String::from_str("alacritty"));
    v.push(String::from_str("kitty"));
    v.push(String::from_str("wezterm"));
    v.push(String::from_str("gnome-terminal"));
    v.push(String::from_str("x-terminal-emulator"));
    v.push(String::from_str("konsole"));
    v.push(String::from_str("xfce4-terminal"));
    v.push(String::from_str("foot"));
    v.push(String::from_str("xterm"));
    let ghost known = seq![
        "ghostty"@,
        "alacritty"@,
        "kitty"@,
        "wezterm"@,
        "gnome-terminal"@,
        "x-terminal-emulator"@,
        "konsole"@,
        "xfce4-terminal"@,
        "foot"@,
        "xterm"@,
    ];
    assert(v@.map_values(|s: String| s@) =~= match terminal_env {
        Some(t) => seq![t@] + known,
        None => known,
    });
    v
}

} // verus!
