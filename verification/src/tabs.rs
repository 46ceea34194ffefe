use vstd::prelude::*;

use crate::paths::{file_name_of, opt_view, path_file_name};

verus! {

/// An open tab: its label and what it shows.
pub struct Tab<T> {
    pub label: String,
    pub content: T,
}

/// The label of a tab opened at `path`: the path's last component, or
/// "Folder" where it has none.
pub open spec fn tab_label_spec(path: Seq<char>) -> Seq<char> {
    match path_file_name(path) {
        Some(name) => name,
        None => "Folder"@,
    }
}

/// The label of a tab opened at `path`.
pub fn tab_label(path: &str) -> (r: String)
    ensures
        r@ == tab_label_spec(path@),
{
    let name = file_name_of(path);
    assert(opt_view(name) == path_file_name(path@));
    match name {
        Some(n) => n,
        None => "Folder".to_owned(),
    }
}

/// The labels of the tabs, in order.
pub open spec fn labels_of<T>(tabs: Seq<Tab<T>>) -> Seq<Seq<char>> {
    tabs.map_values(|t: Tab<T>| t.label@)
}

/// The tabs of a window, one of them active.
pub struct Tabs<T> {
    pub tabs: Vec<Tab<T>>,
    pub active: usize,
}

impl<T> Tabs<T> {
    /// There is a tab, and the active one is among them.
    pub open spec fn wf(&self) -> bool {
        &&& self.tabs@.len() > 0
        &&& self.active < self.tabs@.len()
    }

    /// A window with one tab, labelled "Home".
    pub fn new(content: T) -> (r: Tabs<T>)
        ensures
            r.wf(),
            r.tabs@.len() == 1,
            r.tabs@[0].label@ == "Home"@,
            r.tabs@[0].content == content,
            r.active == 0,
    {
        let mut tabs: Vec<Tab<T>> = Vec::new();
        tabs.push(Tab { label: "Home".to_owned(), content });
        Tabs { tabs, active: 0 }
    }

    /// Opens a tab at `path` after the others and makes it the active one.
    pub fn add_tab_with_path(&mut self, path: &str, content: T)
        requires
            old(self).tabs@.len() < usize::MAX,
        ensures
            final(self).tabs@ == old(self).tabs@.push(
                Tab { label: final(self).tabs@.last().label, content },
            ),
            final(self).tabs@.last().label@ == tab_label_spec(path@),
            final(self).active == old(self).tabs@.len(),
            final(self).wf(),
    {
        let label = tab_label(path);
        self.tabs.push(Tab { label, content });
        self.active = self.tabs.len() - 1;
    }

    /// Closes tab `ix` unless it is the last one left; the active position
    /// stays where it was, or moves to the last tab if it was past the end.
    pub fn close_tab(&mut self, ix: usize)
        requires
            old(self).wf(),
            old(self).tabs@.len() > 1 ==> ix < old(self).tabs@.len(),
        ensures
            final(self).wf(),
            old(self).tabs@.len() <= 1 ==> *final(self) == *old(self),
            old(self).tabs@.len() > 1 ==> {
                &&& final(self).tabs@ == old(self).tabs@.remove(ix as int)
                &&& final(self).active == if old(self).active < final(self).tabs@.len() {
                    old(self).active as int
                } else {
                    final(self).tabs@.len() - 1
                }
            },
    {
        if self.tabs.len() <= 1 {
            return;
        }
        self.tabs.remove(ix);
        if self.active >= self.tabs.len() {
            self.active = self.tabs.len() - 1;
        }
    }

    /// Makes tab `ix` the active one, if there is such a tab.
    pub fn select_tab(&mut self, ix: usize)
        ensures
            final(self).tabs == old(self).tabs,
            final(self).active == if ix < old(self).tabs@.len() {
                ix
            } else {
                old(self).active
            },
            old(self).wf() ==> final(self).wf(),
    {
        if ix < self.tabs.len() {
            self.active = ix;
        }
    }

    /// Whether the tabs show close buttons: only when there is more than one.
    pub fn can_close(&self) -> (r: bool)
        ensures
            r == (self.tabs@.len() > 1),
    {
        self.tabs.len() > 1
    }

    /// The active tab, if the active position holds one.
    pub fn active_tab(&self) -> (r: Option<&Tab<T>>)
        ensures
            self.active < self.tabs@.len() ==> r == Some(&self.tabs@[self.active as int]),
            self.active >= self.tabs@.len() ==> r is None,
    {
        if self.active < self.tabs.len() {
            Some(&self.tabs[self.active])
        } else {
            None
        }
    }
}

} // verus!
