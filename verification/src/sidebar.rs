use vstd::prelude::*;

use crate::paths::{file_name_of, join, join_path, opt_view, path_file_name};
use crate::text::{chars_equal, chars_of};

verus! {

/// A favorite place: its label, its icon and the folder it opens.
pub struct SidebarItem {
    pub label: String,
    pub icon_path: String,
    pub path: String,
}

/// The favorites of a home folder, each as (label, icon, folder): the home
/// folder, its usual subfolders, the projects folder ("Projects" where it
/// exists, "Project" otherwise) and the trash.
pub open spec fn favorites(home: Seq<char>, projects_exists: bool) -> Seq<
    (Seq<char>, Seq<char>, Seq<char>),
> {
    seq![
        ("Home"@, "icons/house.svg"@, home),
        ("Downloads"@, "icons/download.svg"@, join_path(home, "Downloads"@)),
        ("Documents"@, "icons/file-text.svg"@, join_path(home, "Documents"@)),
        ("Pictures"@, "icons/image.svg"@, join_path(home, "Pictures"@)),
        ("Videos"@, "icons/film.svg"@, join_path(home, "Videos"@)),
        (
            "Projects"@,
            "icons/layout-dashboard.svg"@,
            if projects_exists {
                join_path(home, "Projects"@)
            } else {
                join_path(home, "Project"@)
            },
        ),
        ("Trash"@, "icons/trash-2.svg"@, join_path(home, ".local/share/Trash/files"@)),
    ]
}

/// The items as (label, icon, folder).
pub open spec fn item_views(items: Seq<SidebarItem>) -> Seq<(Seq<char>, Seq<char>, Seq<char>)> {
    items.map_values(|i: SidebarItem| (i.label@, i.icon_path@, i.path@))
}

/// Where a file dragged from `dragged` lands when it is dropped on the
/// folder `dir`: `dir` joined with the file's name (empty if it has none).
pub open spec fn drop_target_spec(dir: Seq<char>, dragged: Seq<char>) -> Seq<char> {
    join_path(
        dir,
        match path_file_name(dragged) {
            Some(n) => n,
            None => Seq::empty(),
        },
    )
}

fn item(label: &str, icon_path: &str, path: String) -> (r: SidebarItem)
    ensures
        r.label@ == label@,
        r.icon_path@ == icon_path@,
        r.path == path,
{
    SidebarItem { label: label.to_owned(), icon_path: icon_path.to_owned(), path }
}

impl SidebarItem {
    /// Whether this is the trash, where a drop moves the file to the trash
    /// instead of into a folder.
    pub fn is_trash(&self) -> (r: bool)
        ensures
            r == (self.label@ == "Trash"@),
    {
        chars_equal(&chars_of(self.label.as_str()), &chars_of("Trash"))
    }
}

/// Where a file dropped on the folder `dir` goes.
pub fn drop_target(dir: &str, dragged: &str) -> (r: String)
    ensures
        r@ == drop_target_spec(dir@, dragged@),
{
    let name = file_name_of(dragged);
    assert(opt_view(name) == path_file_name(dragged@));
    match name {
        Some(n) => {
            assert(path_file_name(dragged@) == Some(n@));
            join(dir, n.as_str())
        },
        None => {
            let r = join(dir, "");
            assert(""@ =~= Seq::<char>::empty()) by {
                reveal_strlit("");
            }
            r
        },
    }
}

/// The favorites list, with one item selected.
pub struct SidebarView {
    pub items: Vec<SidebarItem>,
    pub selected: usize,
}

impl SidebarView {
    /// The selection is one of the items.
    pub open spec fn wf(&self) -> bool {
        self.selected < self.items@.len()
    }

    /// The folder whose existence decides where the projects favorite
    /// points: "Projects" in the home folder.
    pub fn projects_folder(home: &str) -> (r: String)
        ensures
            r@ == join_path(home@, "Projects"@),
    {
        join(home, "Projects")
    }

    /// The favorites of the home folder `home`, the first one selected;
    /// `projects_exists` tells whether `home` has a "Projects" folder.
    pub fn new(home: &str, projects_exists: bool) -> (r: SidebarView)
        ensures
            item_views(r.items@) == favorites(home@, projects_exists),
            r.selected == 0,
            r.wf(),
    {
        let mut items: Vec<SidebarItem> = Vec::new();
        items.push(item("Home", "icons/house.svg", home.to_owned()));
        items.push(item("Downloads", "icons/download.svg", join(home, "Downloads")));
        items.push(item("Documents", "icons/file-text.svg", join(home, "Documents")));
        items.push(item("Pictures", "icons/image.svg", join(home, "Pictures")));
        items.push(item("Videos", "icons/film.svg", join(home, "Videos")));
        let projects = if projects_exists {
            join(home, "Projects")
        } else {
            join(home, "Project")
        };
        items.push(item("Projects", "icons/layout-dashboard.svg", projects));
        items.push(item("Trash", "icons/trash-2.svg", join(home, ".local/share/Trash/files")));
        assert(item_views(items@) =~= favorites(home@, projects_exists));
        SidebarView { items, selected: 0 }
    }

    /// The folder of the selected item.
    pub fn selected_path(&self) -> (r: &String)
        requires
            self.wf(),
        ensures
            *r == self.items@[self.selected as int].path,
    {
        &self.items[self.selected].path
    }

    /// Selects item `ix`; gives the folder to open.
    pub fn on_select(&mut self, ix: usize) -> (r: String)
        requires
            ix < old(self).items@.len(),
        ensures
            final(self).items == old(self).items,
            final(self).selected == ix,
            r@ == old(self).items@[ix as int].path@,
            final(self).wf(),
    {
        self.selected = ix;
        self.selected_path().clone()
    }
}

} // verus!
