use vstd::prelude::*;

use crate::naming::views;
use crate::text::{chars_of, push_str, starts_with_chars, string_from_chars, sub_chars};

verus! {

/// `path` without a leading "icons/" or, failing that, "sidebar-icons/":
/// icons are stored under their bare names.
pub open spec fn stripped_asset_path(path: Seq<char>) -> Seq<char> {
    if "icons/"@.is_prefix_of(path) {
        path.skip("icons/"@.len() as int)
    } else if "sidebar-icons/"@.is_prefix_of(path) {
        path.skip("sidebar-icons/"@.len() as int)
    } else {
        path
    }
}

/// The names a listing of `path` gives for the bundled icons `names`, in
/// order: a name under `path` as it is, a name under the stripped path
/// behind "icons/", and no other.
pub open spec fn listed_icons(names: Seq<Seq<char>>, path: Seq<char>) -> Seq<Seq<char>>
    decreases names.len(),
{
    if names.len() == 0 {
        Seq::empty()
    } else {
        let rest = listed_icons(names.drop_last(), path);
        let p = names.last();
        if path.is_prefix_of(p) {
            rest.push(p)
        } else if stripped_asset_path(path).is_prefix_of(p) {
            rest.push("icons/"@ + p)
        } else {
            rest
        }
    }
}

/// The application's icons first, then those of the component library.
pub struct CombinedAssets;

impl CombinedAssets {
    /// `path` without its icon folder prefix.
    pub fn stripped(path: &str) -> (r: String)
        ensures
            r@ == stripped_asset_path(path@),
    {
        let v = chars_of(path);
        let icons = chars_of("icons/");
        let sidebar = chars_of("sidebar-icons/");
        if starts_with_chars(&v, &icons) {
            let rest = sub_chars(&v, icons.len(), v.len());
            assert(rest@ =~= path@.skip("icons/"@.len() as int));
            string_from_chars(&rest)
        } else if starts_with_chars(&v, &sidebar) {
            let rest = sub_chars(&v, sidebar.len(), v.len());
            assert(rest@ =~= path@.skip("sidebar-icons/"@.len() as int));
            string_from_chars(&rest)
        } else {
            path.to_owned()
        }
    }

    /// The names under which the bundled icons are looked up for `path`, in
    /// order: none for an empty path, else the stripped path, then `path`.
    pub fn embedded_keys(&self, path: &str) -> (r: Vec<String>)
        ensures
            path@.len() == 0 ==> r@.len() == 0,
            path@.len() > 0 ==> views(r@) == seq![stripped_asset_path(path@), path@],
    {
        let mut r: Vec<String> = Vec::new();
        if chars_of(path).len() == 0 {
            return r;
        }
        r.push(Self::stripped(path));
        r.push(path.to_owned());
        assert(views(r@) =~= seq![stripped_asset_path(path@), path@]);
        r
    }

    /// The names under which the component library's icons are tried for
    /// `path`, in order, each after the previous one failed: `path`, then the
    /// stripped path.
    pub fn component_keys(&self, path: &str) -> (r: Vec<String>)
        ensures
            views(r@) == seq![path@, stripped_asset_path(path@)],
    {
        let mut r: Vec<String> = Vec::new();
        r.push(path.to_owned());
        r.push(Self::stripped(path));
        assert(views(r@) =~= seq![path@, stripped_asset_path(path@)]);
        r
    }

    /// The listing of `path` among the bundled icons `names`.
    pub fn list_embedded(&self, names: &Vec<String>, path: &str) -> (r: Vec<String>)
        ensures
            views(r@) == listed_icons(views(names@), path@),
    {
        let p = chars_of(path);
        let stripped = Self::stripped(path);
        let s = chars_of(stripped.as_str());
        let ghost nv = views(names@);
        let mut r: Vec<String> = Vec::new();
        let mut i: usize = 0;
        while i < names.len()
            invariant
                i <= names.len(),
                nv == views(names@),
                p@ == path@,
                s@ == stripped_asset_path(path@),
                views(r@) == listed_icons(nv.take(i as int), path@),
            decreases names.len() - i,
        {
            let name = chars_of(names[i].as_str());
            assert(nv.take(i + 1).drop_last() =~= nv.take(i as int));
            assert(nv.take(i + 1).last() == name@);
            let ghost before = r@;
            if starts_with_chars(&name, &p) {
                r.push(names[i].clone());
                assert(views(r@) =~= views(before).push(name@));
            } else if starts_with_chars(&name, &s) {
                let mut full: Vec<char> = Vec::new();
                push_str(&mut full, "icons/");
                push_str(&mut full, names[i].as_str());
                r.push(string_from_chars(&full));
                assert(views(r@) =~= views(before).push("icons/"@ + name@));
            }
            i = i + 1;
        }
        assert(nv.take(names.len() as int) =~= nv);
        r
    }
}

} // verus!
