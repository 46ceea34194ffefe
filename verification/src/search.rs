use vstd::prelude::*;

use crate::file_entry::FileEntry;
use crate::naming::views;
use crate::paths::{join, join_path, paths_equal, same_path};
use crate::text::{
    chars_of, contains_chars, contains_seq, lines_of, lowercase, push_str, split_lines,
    string_from_chars, to_lowercase,
};

verus! {

// ---------------------------------------------------------------------------
// Matching names
// ---------------------------------------------------------------------------

/// Whether a file called `name` (absent when it is not Unicode) matches the
/// lowercased query `query`: its lowercased name contains the query.
pub open spec fn name_matches(name: Option<Seq<char>>, query: Seq<char>) -> bool {
    match name {
        Some(n) => contains_seq(lowercase(n), query),
        None => false,
    }
}

/// The view of an optional name.
pub open spec fn name_view(name: Option<String>) -> Option<Seq<char>> {
    match name {
        Some(n) => Some(n@),
        None => None,
    }
}

/// Whether the file called `name` matches the lowercased query `query`.
pub fn matches_query(name: &Option<String>, query: &str) -> (r: bool)
    ensures
        r == name_matches(name_view(*name), query@),
{
    match name {
        Some(n) => {
            let lower = to_lowercase(n.as_str());
            contains_chars(&chars_of(lower.as_str()), &chars_of(query))
        },
        None => false,
    }
}

/// The form a query is matched in: lowercased.
pub fn query_key(query: &str) -> (r: String)
    ensures
        r@ == lowercase(query@),
{
    to_lowercase(query)
}

/// An entry of a folder as a search sees it: its path, its file name
/// (absent when it is not Unicode) and whether it is a folder.
pub struct DirItem {
    pub path: String,
    pub name: Option<String>,
    pub is_dir: bool,
}

// ---------------------------------------------------------------------------
// The folder walk
// ---------------------------------------------------------------------------

/// How many folder levels a search reads, the base folder included.
pub open spec fn search_depth() -> nat {
    3
}

/// A folder entry as the contracts see it.
pub struct ItemView {
    pub path: Seq<char>,
    pub name: Option<Seq<char>>,
    pub is_dir: bool,
}

impl View for DirItem {
    type V = ItemView;

    open spec fn view(&self) -> ItemView {
        ItemView { path: self.path@, name: name_view(self.name), is_dir: self.is_dir }
    }
}

/// The views of a folder's entries.
pub open spec fn items_view(items: Seq<DirItem>) -> Seq<ItemView> {
    items.map_values(|i: DirItem| i@)
}

/// What reading folders gives: the entries of a folder, or `None` when it
/// cannot be read.
pub type Listings = spec_fn(Seq<char>) -> Option<Seq<ItemView>>;

/// What building entries gives: the entry of a path, or `None` when it
/// cannot be read.
pub type Entries = spec_fn(Seq<char>) -> Option<FileEntry>;

/// What a search walk collects, as a recursive walk states it: from the
/// results `out` so far, the folder `dir` is walked if fewer than `limit`
/// were found and `depth` levels are left, looking at its entries in order.
pub open spec fn walk_dir(
    listings: Listings,
    entries: Entries,
    q: Seq<char>,
    limit: nat,
    dir: Seq<char>,
    depth: nat,
    out: Seq<FileEntry>,
) -> Seq<FileEntry>
    decreases depth, 1nat, 0nat,
{
    if out.len() >= limit || depth == 0 {
        out
    } else {
        match listings(dir) {
            None => out,
            Some(items) => walk_items(listings, entries, q, limit, items, 0, depth, out),
        }
    }
}

/// The walk of the entries of a folder read with `depth` levels, from its
/// entry `i` on: each entry whose name matches `q` adds the entry built for
/// it, and each folder is walked with one level less, until `limit`
/// entries were found.
pub open spec fn walk_items(
    listings: Listings,
    entries: Entries,
    q: Seq<char>,
    limit: nat,
    items: Seq<ItemView>,
    i: nat,
    depth: nat,
    out: Seq<FileEntry>,
) -> Seq<FileEntry>
    decreases depth, 0nat, if i < items.len() {
        items.len() - i
    } else {
        0
    },
{
    if i >= items.len() || out.len() >= limit {
        out
    } else {
        let it = items[i as int];
        let found = if name_matches(it.name, q) {
            match entries(it.path) {
                Some(e) => out.push(e),
                None => out,
            }
        } else {
            out
        };
        let after = if it.is_dir && depth > 0 {
            walk_dir(listings, entries, q, limit, it.path, (depth - 1) as nat, found)
        } else {
            found
        };
        walk_items(listings, entries, q, limit, items, i + 1, depth, after)
    }
}

/// `out` is kept, in order, at the front of `r`.
pub open spec fn extends(r: Seq<FileEntry>, out: Seq<FileEntry>) -> bool {
    out.len() <= r.len() && forall|k: int| 0 <= k < out.len() ==> #[trigger] r[k] == out[k]
}

/// A walk never finds more than its limit and never loses what was found
/// before it: from fewer than `limit` results, walking a folder ends with
/// at most `limit`, the earlier ones first.
pub proof fn lemma_walk_dir_bounded(
    listings: Listings,
    entries: Entries,
    q: Seq<char>,
    limit: nat,
    dir: Seq<char>,
    depth: nat,
    out: Seq<FileEntry>,
)
    requires
        out.len() <= limit,
    ensures
        walk_dir(listings, entries, q, limit, dir, depth, out).len() <= limit,
        extends(walk_dir(listings, entries, q, limit, dir, depth, out), out),
    decreases depth, 1nat, 0nat,
{
    if !(out.len() >= limit || depth == 0) {
        match listings(dir) {
            None => {},
            Some(items) => {
                lemma_walk_items_bounded(listings, entries, q, limit, items, 0, depth, out);
            },
        }
    }
}

/// The same of the walk of a folder's entries from entry `i` on.
pub proof fn lemma_walk_items_bounded(
    listings: Listings,
    entries: Entries,
    q: Seq<char>,
    limit: nat,
    items: Seq<ItemView>,
    i: nat,
    depth: nat,
    out: Seq<FileEntry>,
)
    requires
        out.len() <= limit,
    ensures
        walk_items(listings, entries, q, limit, items, i, depth, out).len() <= limit,
        extends(walk_items(listings, entries, q, limit, items, i, depth, out), out),
    decreases depth, 0nat, if i < items.len() {
        items.len() - i
    } else {
        0
    },
{
    if !(i >= items.len() || out.len() >= limit) {
        let it = items[i as int];
        let found = if name_matches(it.name, q) {
            match entries(it.path) {
                Some(e) => out.push(e),
                None => out,
            }
        } else {
            out
        };
        assert(extends(found, out));
        let after = if it.is_dir && depth > 0 {
            lemma_walk_dir_bounded(listings, entries, q, limit, it.path, (depth - 1) as nat, found);
            walk_dir(listings, entries, q, limit, it.path, (depth - 1) as nat, found)
        } else {
            found
        };
        lemma_walk_items_bounded(listings, entries, q, limit, items, i + 1, depth, after);
        let r = walk_items(listings, entries, q, limit, items, i + 1, depth, after);
        assert forall|k: int| 0 <= k < out.len() implies #[trigger] r[k] == out[k] by {
            assert(found[k] == out[k]);
            assert(after[k] == found[k]);
        }
    }
}

/// Entry `j` of the folder `dir`, as `listings` gives it, has a name that
/// matches `q` and builds to `e`.
pub open spec fn matched_at(
    listings: Listings,
    entries: Entries,
    q: Seq<char>,
    e: FileEntry,
    dir: Seq<char>,
    j: int,
) -> bool {
    match listings(dir) {
        Some(items) => 0 <= j < items.len() && name_matches(items[j].name, q) && entries(items[j].path)
            == Some(e),
        None => false,
    }
}

/// Entry `j` of the folder `parent`, as `listings` gives it, is the folder
/// `dir`.
pub open spec fn opens_into(listings: Listings, parent: Seq<char>, j: int, dir: Seq<char>) -> bool {
    match listings(parent) {
        Some(items) => 0 <= j < items.len() && items[j].is_dir && items[j].path == dir,
        None => false,
    }
}

/// The folder `dir` is reached from `base` through `n` listed folders:
/// `base` itself for none, else a folder listed in one reached through
/// `n - 1`.
pub open spec fn reached(listings: Listings, base: Seq<char>, dir: Seq<char>, n: nat) -> bool
    decreases n,
{
    if n == 0 {
        dir == base
    } else {
        exists|parent: Seq<char>, j: int|
            #[trigger] opens_into(listings, parent, j, dir) && reached(listings, base, parent, (n - 1) as nat)
    }
}

/// `e` is the entry of an item, whose name matches `q`, listed in a folder
/// reached from `base` through fewer than `levels` folders: the item lies
/// one to `levels` levels below `base`.
pub open spec fn match_within(
    listings: Listings,
    entries: Entries,
    q: Seq<char>,
    base: Seq<char>,
    levels: nat,
    e: FileEntry,
) -> bool {
    exists|dir: Seq<char>, j: int, m: nat|
        #![trigger matched_at(listings, entries, q, e, dir, j), reached(listings, base, dir, m)]
        matched_at(listings, entries, q, e, dir, j) && reached(listings, base, dir, m) && m < levels
}

/// Everything `r` holds past its first `n` results is such a match.
pub open spec fn all_matches_within(
    listings: Listings,
    entries: Entries,
    q: Seq<char>,
    base: Seq<char>,
    levels: nat,
    r: Seq<FileEntry>,
    n: int,
) -> bool {
    forall|k: int| n <= k < r.len() ==> match_within(listings, entries, q, base, levels, #[trigger] r[k])
}

/// A walk adds only what it should: walking a folder reached from `base`
/// through `n` folders, with `depth` levels left, adds to `out` only
/// entries of items whose names match the query, listed at most
/// `n + depth` levels below `base`. A search walks its base with three
/// levels, so what it finds lies one to three levels below.
pub proof fn lemma_walk_dir_sound(
    listings: Listings,
    entries: Entries,
    q: Seq<char>,
    limit: nat,
    base: Seq<char>,
    dir: Seq<char>,
    n: nat,
    depth: nat,
    out: Seq<FileEntry>,
)
    requires
        out.len() <= limit,
        reached(listings, base, dir, n),
    ensures
        all_matches_within(
            listings,
            entries,
            q,
            base,
            n + depth,
            walk_dir(listings, entries, q, limit, dir, depth, out),
            out.len() as int,
        ),
    decreases depth, 1nat, 0nat,
{
    if !(out.len() >= limit || depth == 0) {
        match listings(dir) {
            None => {},
            Some(items) => {
                lemma_walk_items_sound(listings, entries, q, limit, base, dir, n, items, 0, depth, out);
            },
        }
    }
}

/// The same of the walk of the entries of the folder `dir` from entry `i` on.
pub proof fn lemma_walk_items_sound(
    listings: Listings,
    entries: Entries,
    q: Seq<char>,
    limit: nat,
    base: Seq<char>,
    dir: Seq<char>,
    n: nat,
    items: Seq<ItemView>,
    i: nat,
    depth: nat,
    out: Seq<FileEntry>,
)
    requires
        out.len() <= limit,
        reached(listings, base, dir, n),
        depth >= 1,
        listings(dir) == Some(items),
    ensures
        all_matches_within(
            listings,
            entries,
            q,
            base,
            n + depth,
            walk_items(listings, entries, q, limit, items, i, depth, out),
            out.len() as int,
        ),
    decreases depth, 0nat, if i < items.len() {
        items.len() - i
    } else {
        0
    },
{
    let levels = n + depth;
    if !(i >= items.len() || out.len() >= limit) {
        let it = items[i as int];
        let found = if name_matches(it.name, q) {
            match entries(it.path) {
                Some(e) => out.push(e),
                None => out,
            }
        } else {
            out
        };
        assert(found.len() <= limit);
        assert forall|k: int| out.len() <= k < found.len() implies match_within(
            listings,
            entries,
            q,
            base,
            levels,
            #[trigger] found[k],
        ) by {
            assert(matched_at(listings, entries, q, found[k], dir, i as int));
            assert(reached(listings, base, dir, n));
        }
        let after = if it.is_dir && depth > 0 {
            assert(opens_into(listings, dir, i as int, it.path));
            assert(reached(listings, base, it.path, n + 1));
            lemma_walk_dir_bounded(listings, entries, q, limit, it.path, (depth - 1) as nat, found);
            lemma_walk_dir_sound(listings, entries, q, limit, base, it.path, n + 1, (depth - 1) as nat, found);
            walk_dir(listings, entries, q, limit, it.path, (depth - 1) as nat, found)
        } else {
            found
        };
        assert(extends(after, found));
        assert(after.len() <= limit);
        assert forall|k: int| out.len() <= k < after.len() implies match_within(
            listings,
            entries,
            q,
            base,
            levels,
            #[trigger] after[k],
        ) by {
            if k < found.len() {
                assert(after[k] == found[k]);
            }
        }
        lemma_walk_items_bounded(listings, entries, q, limit, items, i + 1, depth, after);
        lemma_walk_items_sound(listings, entries, q, limit, base, dir, n, items, i + 1, depth, after);
        let r = walk_items(listings, entries, q, limit, items, i + 1, depth, after);
        assert forall|k: int| out.len() <= k < r.len() implies match_within(
            listings,
            entries,
            q,
            base,
            levels,
            #[trigger] r[k],
        ) by {
            if k < after.len() {
                assert(r[k] == after[k]);
            }
        }
    }
}

/// A walk stops only at its limit: with a smaller limit it ends with the
/// walk of a larger one cut at that limit. So whatever it ends with short
/// of its limit is everything the unlimited walk finds.
pub proof fn lemma_walk_dir_cut(
    listings: Listings,
    entries: Entries,
    q: Seq<char>,
    small: nat,
    large: nat,
    dir: Seq<char>,
    depth: nat,
    out: Seq<FileEntry>,
)
    requires
        out.len() <= small <= large,
    ensures
        extends(
            walk_dir(listings, entries, q, large, dir, depth, out),
            walk_dir(listings, entries, q, small, dir, depth, out),
        ),
        walk_dir(listings, entries, q, small, dir, depth, out).len() < small ==> walk_dir(
            listings,
            entries,
            q,
            small,
            dir,
            depth,
            out,
        ) == walk_dir(listings, entries, q, large, dir, depth, out),
    decreases depth, 1nat, 0nat,
{
    lemma_walk_dir_bounded(listings, entries, q, large, dir, depth, out);
    if !(out.len() >= small || depth == 0) {
        match listings(dir) {
            None => {},
            Some(items) => {
                lemma_walk_items_cut(listings, entries, q, small, large, items, 0, depth, out);
            },
        }
    }
}

/// The same of the walk of a folder's entries from entry `i` on.
pub proof fn lemma_walk_items_cut(
    listings: Listings,
    entries: Entries,
    q: Seq<char>,
    small: nat,
    large: nat,
    items: Seq<ItemView>,
    i: nat,
    depth: nat,
    out: Seq<FileEntry>,
)
    requires
        out.len() <= small <= large,
    ensures
        extends(
            walk_items(listings, entries, q, large, items, i, depth, out),
            walk_items(listings, entries, q, small, items, i, depth, out),
        ),
        walk_items(listings, entries, q, small, items, i, depth, out).len() < small ==> walk_items(
            listings,
            entries,
            q,
            small,
            items,
            i,
            depth,
            out,
        ) == walk_items(listings, entries, q, large, items, i, depth, out),
    decreases depth, 0nat, if i < items.len() {
        items.len() - i
    } else {
        0
    },
{
    lemma_walk_items_bounded(listings, entries, q, large, items, i, depth, out);
    if !(i >= items.len() || out.len() >= small) {
        let it = items[i as int];
        let found = if name_matches(it.name, q) {
            match entries(it.path) {
                Some(e) => out.push(e),
                None => out,
            }
        } else {
            out
        };
        let (after_s, after_l) = if it.is_dir && depth > 0 {
            lemma_walk_dir_cut(listings, entries, q, small, large, it.path, (depth - 1) as nat, found);
            lemma_walk_dir_bounded(listings, entries, q, small, it.path, (depth - 1) as nat, found);
            lemma_walk_dir_bounded(listings, entries, q, large, it.path, (depth - 1) as nat, found);
            (
                walk_dir(listings, entries, q, small, it.path, (depth - 1) as nat, found),
                walk_dir(listings, entries, q, large, it.path, (depth - 1) as nat, found),
            )
        } else {
            (found, found)
        };
        assert(walk_items(listings, entries, q, small, items, i, depth, out) == walk_items(
            listings,
            entries,
            q,
            small,
            items,
            i + 1,
            depth,
            after_s,
        ));
        assert(walk_items(listings, entries, q, large, items, i, depth, out) == walk_items(
            listings,
            entries,
            q,
            large,
            items,
            i + 1,
            depth,
            after_l,
        ));
        if after_s == after_l {
            lemma_walk_items_cut(listings, entries, q, small, large, items, i + 1, depth, after_s);
        } else {
            assert(after_s.len() == small);
            lemma_walk_items_bounded(listings, entries, q, large, items, i + 1, depth, after_l);
            let rl = walk_items(listings, entries, q, large, items, i + 1, depth, after_l);
            assert forall|k: int| 0 <= k < after_s.len() implies #[trigger] rl[k] == after_s[k] by {
                assert(rl[k] == after_l[k]);
            }
        }
    }
}

/// What the folders on the stack still add to `out`, innermost first.
pub open spec fn finish_frames(
    listings: Listings,
    entries: Entries,
    q: Seq<char>,
    limit: nat,
    frames: Seq<Frame>,
    out: Seq<FileEntry>,
) -> Seq<FileEntry>
    decreases frames.len(),
{
    if frames.len() == 0 {
        out
    } else {
        let top = frames.last();
        finish_frames(
            listings,
            entries,
            q,
            limit,
            frames.drop_last(),
            walk_items(listings, entries, q, limit, items_view(top.items@), top.next as nat, top.depth as nat, out),
        )
    }
}

/// Once the limit is reached, the folders on the stack add nothing.
proof fn lemma_finish_at_limit(
    listings: Listings,
    entries: Entries,
    q: Seq<char>,
    limit: nat,
    frames: Seq<Frame>,
    out: Seq<FileEntry>,
)
    requires
        out.len() >= limit,
    ensures
        finish_frames(listings, entries, q, limit, frames, out) == out,
    decreases frames.len(),
{
    if frames.len() > 0 {
        lemma_finish_at_limit(listings, entries, q, limit, frames.drop_last(), out);
    }
}

/// A folder being walked: its entries, the next one to look at, and how
/// many levels may still be read from it (itself included).
pub struct Frame {
    pub items: Vec<DirItem>,
    pub next: usize,
    pub depth: usize,
}

/// What a search walk waits for.
pub enum Awaiting {
    /// Nothing: it can take its next step.
    Ready,
    /// The entries of the folder `path` it asked for, to be read with
    /// `depth` levels.
    Listing { path: String, depth: usize },
    /// The entry built for a matching path, which is a folder or not, in a
    /// folder read with this depth.
    Entry { path: String, is_dir: bool, depth: usize },
}

/// What the walk asks for at a step.
pub enum WalkStep {
    /// Nothing: call `step` again.
    Continue,
    /// The entries of this folder (`listed`).
    ReadDir(String),
    /// The entry of this path (`built`).
    Build(String),
    /// The search is over.
    Finished,
}

/// A search in progress: a depth-first walk of the folders below the base,
/// in the order the folders list their entries, that collects up to
/// `limit` entries whose names contain the query.
pub struct SearchWalk {
    pub query: String,
    pub limit: usize,
    pub results: Vec<FileEntry>,
    pub frames: Vec<Frame>,
    pub descend: Option<(String, usize)>,
    pub awaiting: Awaiting,
}

/// The results a walk in this state ends with, when folders read as
/// `listings` and entries build as `entries`: what it has found, then what
/// the awaited answer, the folder to walk next and the folders on the stack
/// add.
pub open spec fn walk_outcome(listings: Listings, entries: Entries, w: SearchWalk) -> Seq<FileEntry> {
    let q = w.query@;
    let limit = w.limit as nat;
    let out = w.results@;
    let pending = match w.awaiting {
        Awaiting::Ready => match w.descend {
            Some((p, d)) => walk_dir(listings, entries, q, limit, p@, d as nat, out),
            None => out,
        },
        Awaiting::Listing { path, depth } => walk_dir(listings, entries, q, limit, path@, depth as nat, out),
        Awaiting::Entry { path, is_dir, depth } => {
            let found = match entries(path@) {
                Some(e) => out.push(e),
                None => out,
            };
            if is_dir {
                walk_dir(listings, entries, q, limit, path@, (depth - 1) as nat, found)
            } else {
                found
            }
        },
    };
    finish_frames(listings, entries, q, limit, w.frames@, pending)
}

impl SearchWalk {
    /// The walk's bookkeeping is consistent: no more results than the
    /// limit (fewer while an answer is awaited), every folder on the stack
    /// has a level left, its next entry is within its entries, and nothing
    /// is to be walked next while an answer is awaited.
    pub open spec fn wf(&self) -> bool {
        &&& self.results@.len() <= self.limit
        &&& forall|i: int|
            0 <= i < self.frames@.len() ==> {
                &&& (#[trigger] self.frames@[i]).depth >= 1
                &&& self.frames@[i].next <= self.frames@[i].items@.len()
            }
        &&& match self.awaiting {
            Awaiting::Ready => true,
            Awaiting::Listing { depth, .. } => {
                &&& depth >= 1
                &&& self.results@.len() < self.limit
                &&& self.descend is None
            },
            Awaiting::Entry { depth, .. } => {
                &&& depth >= 1
                &&& self.results@.len() < self.limit
                &&& self.descend is None
            },
        }
    }

    /// One step of the walk. It is over once `limit` entries were found;
    /// otherwise a folder waiting to be walked is read (unless no level is
    /// left for it); otherwise the next entry of the innermost folder is
    /// looked at: a matching one is built, and a folder is walked next.
    /// A folder whose entries are all seen is left. A step never changes
    /// what the walk ends with, and when it is over, that is what it found.
    pub fn step(&mut self) -> (r: WalkStep)
        requires
            old(self).wf(),
            old(self).awaiting is Ready,
        ensures
            final(self).wf(),
            final(self).query == old(self).query,
            final(self).limit == old(self).limit,
            final(self).results == old(self).results,
            forall|listings: Listings, entries: Entries|
                #[trigger] walk_outcome(listings, entries, *final(self)) == walk_outcome(
                    listings,
                    entries,
                    *old(self),
                ),
            r is Finished ==> forall|listings: Listings, entries: Entries|
                #[trigger] walk_outcome(listings, entries, *final(self)) == final(self).results@,
            old(self).results@.len() >= old(self).limit ==> {
                &&& r is Finished
                &&& *final(self) == *old(self)
            },
            old(self).results@.len() < old(self).limit ==> match old(self).descend {
                Some((path, d)) => {
                    &&& final(self).descend is None
                    &&& final(self).frames == old(self).frames
                    &&& d == 0 ==> r is Continue && final(self).awaiting is Ready
                    &&& d > 0 ==> r == WalkStep::ReadDir(path) && final(self).awaiting
                        == Awaiting::Listing { path, depth: d }
                },
                None => if old(self).frames@.len() == 0 {
                    &&& r is Finished
                    &&& *final(self) == *old(self)
                } else {
                    let top = old(self).frames@.last();
                    if top.next >= top.items@.len() {
                        &&& r is Continue
                        &&& final(self).frames@ == old(self).frames@.drop_last()
                        &&& final(self).descend is None
                        &&& final(self).awaiting is Ready
                    } else {
                        let item = top.items@[top.next as int];
                        &&& final(self).frames@.len() == old(self).frames@.len()
                        &&& final(self).frames@.drop_last() == old(self).frames@.drop_last()
                        &&& final(self).frames@.last().items == top.items
                        &&& final(self).frames@.last().depth == top.depth
                        &&& final(self).frames@.last().next == top.next + 1
                        &&& if name_matches(name_view(item.name), old(self).query@) {
                            &&& r == WalkStep::Build(item.path)
                            &&& final(self).descend is None
                            &&& final(self).awaiting == Awaiting::Entry {
                                path: item.path,
                                is_dir: item.is_dir,
                                depth: top.depth,
                            }
                        } else {
                            &&& r is Continue
                            &&& final(self).awaiting is Ready
                            &&& final(self).descend == if item.is_dir {
                                Some((item.path, (top.depth - 1) as usize))
                            } else {
                                None
                            }
                        }
                    }
                },
            },
    {
        let ghost before = *self;
        if self.results.len() >= self.limit {
            proof {
                assert forall|listings: Listings, entries: Entries|
                    #[trigger] walk_outcome(listings, entries, *self) == self.results@ by {
                    let q = self.query@;
                    let limit = self.limit as nat;
                    lemma_finish_at_limit(listings, entries, q, limit, self.frames@, self.results@);
                }
            }
            return WalkStep::Finished;
        }
        let descend = self.descend.take();
        match descend {
            Some((path, d)) => {
                if d == 0 {
                    WalkStep::Continue
                } else {
                    self.awaiting = Awaiting::Listing { path: path.clone(), depth: d };
                    WalkStep::ReadDir(path)
                }
            },
            None => {
                let n = self.frames.len();
                if n == 0 {
                    return WalkStep::Finished;
                }
                let mut top = self.frames.pop().unwrap();
                assert(self.frames@ == before.frames@.drop_last());
                if top.next >= top.items.len() {
                    return WalkStep::Continue;
                }
                let ix = top.next;
                top.next = ix + 1;
                let matched = matches_query(&top.items[ix].name, self.query.as_str());
                let path = top.items[ix].path.clone();
                let is_dir = top.items[ix].is_dir;
                let depth = top.depth;
                proof {
                    let iv = items_view(top.items@);
                    assert(iv[ix as int] == top.items@[ix as int]@);
                }
                self.frames.push(top);
                assert(self.frames@.drop_last() == before.frames@.drop_last());
                if matched {
                    self.awaiting = Awaiting::Entry { path: path.clone(), is_dir, depth };
                    WalkStep::Build(path)
                } else {
                    if is_dir {
                        self.descend = Some((path, depth - 1));
                    }
                    WalkStep::Continue
                }
            },
        }
    }

    /// The entries of the folder the walk asked for, or `None` when it could
    /// not be read: the folder is walked next, or skipped. When they are the
    /// folder's entries as `listings` gives them, what the walk ends with
    /// does not change.
    pub fn listed(&mut self, items: Option<Vec<DirItem>>)
        requires
            old(self).wf(),
            old(self).awaiting is Listing,
        ensures
            final(self).wf(),
            final(self).awaiting is Ready,
            final(self).query == old(self).query,
            final(self).limit == old(self).limit,
            final(self).results == old(self).results,
            final(self).descend == old(self).descend,
            match items {
                Some(v) => final(self).frames@ == old(self).frames@.push(
                    Frame { items: v, next: 0, depth: old(self).awaiting->Listing_depth },
                ),
                None => final(self).frames == old(self).frames,
            },
            forall|listings: Listings, entries: Entries|
                listings(old(self).awaiting->Listing_path@) == (match items {
                    Some(v) => Some(items_view(v@)),
                    None => None::<Seq<ItemView>>,
                }) ==> #[trigger] walk_outcome(listings, entries, *final(self)) == walk_outcome(
                    listings,
                    entries,
                    *old(self),
                ),
    {
        let ghost before = *self;
        let d = match self.awaiting {
            Awaiting::Listing { depth, .. } => depth,
            _ => 1,
        };
        self.awaiting = Awaiting::Ready;
        match items {
            Some(v) => {
                self.frames.push(Frame { items: v, next: 0, depth: d });
                proof {
                    assert(self.frames@.drop_last() == before.frames@);
                }
            },
            None => {},
        }
    }

    /// The entry built for the matching path the walk asked for, or `None`
    /// when it could not be read: it joins the results, and a folder is
    /// walked next. When it is the path's entry as `entries` gives it, what
    /// the walk ends with does not change.
    pub fn built(&mut self, entry: Option<FileEntry>)
        requires
            old(self).wf(),
            old(self).awaiting is Entry,
        ensures
            final(self).wf(),
            final(self).awaiting is Ready,
            final(self).query == old(self).query,
            final(self).limit == old(self).limit,
            final(self).frames == old(self).frames,
            match entry {
                Some(e) => final(self).results@ == old(self).results@.push(e),
                None => final(self).results == old(self).results,
            },
            final(self).descend == if old(self).awaiting->Entry_is_dir {
                Some((old(self).awaiting->Entry_path, (old(self).awaiting->Entry_depth - 1) as usize))
            } else {
                old(self).descend
            },
            forall|listings: Listings, entries: Entries|
                entries(old(self).awaiting->Entry_path@) == entry ==> #[trigger] walk_outcome(
                    listings,
                    entries,
                    *final(self),
                ) == walk_outcome(listings, entries, *old(self)),
    {
        let mut waiting = Awaiting::Ready;
        std::mem::swap(&mut waiting, &mut self.awaiting);
        match entry {
            Some(e) => {
                self.results.push(e);
            },
            None => {},
        }
        match waiting {
            Awaiting::Entry { path, is_dir, depth } => {
                if is_dir {
                    self.descend = Some((path, depth - 1));
                }
            },
            _ => {},
        }
    }

    /// The entries found.
    pub fn into_results(self) -> (r: Vec<FileEntry>)
        ensures
            r == self.results,
    {
        self.results
    }
}

// ---------------------------------------------------------------------------
// The search model
// ---------------------------------------------------------------------------

/// Searches the folders below a base folder by name.
pub struct SearchModel {
    pub base_path: String,
}

impl SearchModel {
    /// A search model rooted at `base_path`; it cannot fail.
    pub fn new(base_path: &str) -> (r: Result<SearchModel, String>)
        ensures
            r matches Ok(m) && m.base_path@ == base_path@,
    {
        Ok(SearchModel { base_path: base_path.to_owned() })
    }

    /// Starts a search for `query` that finds at most `limit` entries: the
    /// walk reads the base folder and the folders below it down to three
    /// levels, and keeps the entries whose lowercased names contain the
    /// lowercased query. An empty query finds nothing and reads nothing.
    pub fn search(&self, query: &str, limit: usize) -> (w: SearchWalk)
        ensures
            w.wf(),
            w.limit == limit,
            w.results@.len() == 0,
            w.frames@.len() == 0,
            w.awaiting is Ready,
            query@.len() == 0 ==> w.descend is None,
            query@.len() > 0 ==> {
                &&& w.query@ == lowercase(query@)
                &&& w.descend == Some((self.base_path, search_depth() as usize))
            },
            forall|listings: Listings, entries: Entries|
                #[trigger] walk_outcome(listings, entries, w) == if query@.len() == 0 {
                    Seq::<FileEntry>::empty()
                } else {
                    walk_dir(
                        listings,
                        entries,
                        lowercase(query@),
                        limit as nat,
                        self.base_path@,
                        search_depth(),
                        Seq::empty(),
                    )
                },
    {
        let empty = chars_of(query).len() == 0;
        if empty {
            return SearchWalk {
                query: String::new(),
                limit,
                results: Vec::new(),
                frames: Vec::new(),
                descend: None,
                awaiting: Awaiting::Ready,
            };
        }
        SearchWalk {
            query: to_lowercase(query),
            limit,
            results: Vec::new(),
            frames: Vec::new(),
            descend: Some((self.base_path.clone(), 3)),
            awaiting: Awaiting::Ready,
        }
    }

    /// Searches need no index, so there is no scan to wait for.
    pub fn wait_for_scan(&self, _timeout: std::time::Duration) {
    }
}

// ---------------------------------------------------------------------------
// The wider search of the file list
// ---------------------------------------------------------------------------

/// The folders whose entries a search from the file list reads first: the
/// current folder, then the home folder's "Project", "Projects",
/// "Documents" and "Downloads", then the home folder itself.
pub open spec fn search_roots_spec(cwd: Seq<char>, home: Seq<char>) -> Seq<Seq<char>> {
    seq![
        cwd,
        join_path(home, "Project"@),
        join_path(home, "Projects"@),
        join_path(home, "Documents"@),
        join_path(home, "Downloads"@),
        home,
    ]
}

/// The folders a search from the file list at `cwd` reads first.
pub fn search_roots(cwd: &str, home: &str) -> (r: Vec<String>)
    ensures
        views(r@) == search_roots_spec(cwd@, home@),
{
    let mut r: Vec<String> = Vec::new();
    r.push(cwd.to_owned());
    r.push(join(home, "Project"));
    r.push(join(home, "Projects"));
    r.push(join(home, "Documents"));
    r.push(join(home, "Downloads"));
    r.push(home.to_owned());
    assert(views(r@) =~= search_roots_spec(cwd@, home@));
    r
}

/// No path of `found` is the same path as another.
pub open spec fn distinct_paths(found: Seq<Seq<char>>) -> bool {
    forall|i: int, j: int|
        0 <= i < j < found.len() ==> !paths_equal(#[trigger] found[i], #[trigger] found[j])
}

/// Whether `found` already holds a path that is the same path as `p`.
pub open spec fn has_same_path(found: Seq<Seq<char>>, p: Seq<char>) -> bool {
    exists|i: int| 0 <= i < found.len() && paths_equal(#[trigger] found[i], p)
}

/// The paths `found` after adding each of `paths` in turn, leaving out
/// those that are the same path as one already there.
pub open spec fn add_all(found: Seq<Seq<char>>, paths: Seq<Seq<char>>) -> Seq<Seq<char>>
    decreases paths.len(),
{
    if paths.len() == 0 {
        found
    } else {
        let f = add_all(found, paths.drop_last());
        if has_same_path(f, paths.last()) {
            f
        } else {
            f.push(paths.last())
        }
    }
}

/// Adding `a` and then `b` is adding `a` followed by `b`.
proof fn lemma_add_all_append(found: Seq<Seq<char>>, a: Seq<Seq<char>>, b: Seq<Seq<char>>)
    ensures
        add_all(add_all(found, a), b) == add_all(found, a + b),
    decreases b.len(),
{
    if b.len() == 0 {
        assert(a + b =~= a);
    } else {
        lemma_add_all_append(found, a, b.drop_last());
        assert((a + b).drop_last() =~= a + b.drop_last());
        assert((a + b).last() == b.last());
    }
}

/// Adding paths this way never puts the same path in twice.
pub proof fn lemma_add_all_distinct(found: Seq<Seq<char>>, paths: Seq<Seq<char>>)
    requires
        distinct_paths(found),
    ensures
        distinct_paths(add_all(found, paths)),
    decreases paths.len(),
{
    if paths.len() > 0 {
        lemma_add_all_distinct(found, paths.drop_last());
        let f = add_all(found, paths.drop_last());
        let p = paths.last();
        if !has_same_path(f, p) {
            let g = f.push(p);
            assert forall|i: int, j: int| 0 <= i < j < g.len() implies !paths_equal(
                #[trigger] g[i],
                #[trigger] g[j],
            ) by {
                assert(g[i] == f[i]);
                if j < f.len() {
                    assert(g[j] == f[j]);
                }
            }
        }
    }
}

/// Adding one path.
proof fn lemma_add_one(found: Seq<Seq<char>>, p: Seq<char>)
    ensures
        add_all(found, seq![p]) == if has_same_path(found, p) {
            found
        } else {
            found.push(p)
        },
{
    assert(seq![p].drop_last() =~= Seq::<Seq<char>>::empty());
    assert(seq![p].last() == p);
    assert(add_all(found, Seq::<Seq<char>>::empty()) == found);
}

/// Adds `path` to the paths found unless the same path is there already;
/// tells whether it was added.
pub fn add_unseen(found: &mut Vec<String>, path: String) -> (added: bool)
    ensures
        added == !has_same_path(views(old(found)@), path@),
        added ==> final(found)@ == old(found)@.push(path),
        !added ==> final(found)@ == old(found)@,
        views(final(found)@) == add_all(views(old(found)@), seq![path@]),
{
    let ghost fv = views(found@);
    let mut i: usize = 0;
    while i < found.len()
        invariant
            i <= found.len(),
            fv == views(found@),
            forall|k: int| 0 <= k < i ==> !paths_equal(#[trigger] fv[k], path@),
        decreases found.len() - i,
    {
        if same_path(found[i].as_str(), path.as_str()) {
            proof {
                assert(paths_equal(fv[i as int], path@));
                assert(has_same_path(fv, path@));
                lemma_add_one(fv, path@);
            }
            return false;
        }
        i = i + 1;
    }
    proof {
        lemma_add_one(fv, path@);
    }
    found.push(path);
    assert(views(found@) =~= fv.push(path@));
    true
}

/// The name a locally found file is matched by: its name, or nothing.
pub open spec fn name_or_empty(name: Option<Seq<char>>) -> Seq<char> {
    match name {
        Some(n) => n,
        None => Seq::empty(),
    }
}

/// The paths, in order, of a folder's entries whose lowercased name (empty
/// when not Unicode) contains the lowercased `query`.
pub open spec fn local_matches(items: Seq<DirItem>, query: Seq<char>) -> Seq<Seq<char>>
    decreases items.len(),
{
    if items.len() == 0 {
        Seq::empty()
    } else {
        let rest = local_matches(items.drop_last(), query);
        let item = items.last();
        if contains_seq(lowercase(name_or_empty(name_view(item.name))), query) {
            rest.push(item.path@)
        } else {
            rest
        }
    }
}

/// The matching paths of several folders' entries, folder after folder.
pub open spec fn all_local_matches(listings: Seq<Vec<DirItem>>, query: Seq<char>) -> Seq<Seq<char>>
    decreases listings.len(),
{
    if listings.len() == 0 {
        Seq::empty()
    } else {
        all_local_matches(listings.drop_last(), query) + local_matches(listings.last()@, query)
    }
}

/// The matches of a folder's entries include every entry whose lowercased
/// name contains the query anywhere.
proof fn lemma_local_matches_complete(items: Seq<DirItem>, query: Seq<char>, k: int)
    requires
        0 <= k < items.len(),
        contains_seq(lowercase(name_or_empty(name_view(items[k].name))), query),
    ensures
        local_matches(items, query).contains(items[k].path@),
    decreases items.len(),
{
    let rest = local_matches(items.drop_last(), query);
    if k == items.len() - 1 {
        assert(local_matches(items, query) == rest.push(items[k].path@));
        assert(rest.push(items[k].path@)[rest.len() as int] == items[k].path@);
    } else {
        assert(items.drop_last()[k] == items[k]);
        lemma_local_matches_complete(items.drop_last(), query, k);
        let i = choose|i: int| 0 <= i < rest.len() && rest[i] == items[k].path@;
        let r = local_matches(items, query);
        assert(r.len() >= rest.len() && r[i] == rest[i]);
    }
}

/// Every match of a folder's entries is the path of an entry whose
/// lowercased name contains the query.
proof fn lemma_local_matches_sound(items: Seq<DirItem>, query: Seq<char>, m: int)
    requires
        0 <= m < local_matches(items, query).len(),
    ensures
        exists|k: int|
            0 <= k < items.len() && (#[trigger] items[k]).path@ == local_matches(items, query)[m]
                && contains_seq(lowercase(name_or_empty(name_view(items[k].name))), query),
    decreases items.len(),
{
    let rest = local_matches(items.drop_last(), query);
    if m < rest.len() {
        lemma_local_matches_sound(items.drop_last(), query, m);
        let k = choose|k: int|
            0 <= k < items.drop_last().len() && (#[trigger] items.drop_last()[k]).path@ == rest[m]
                && contains_seq(lowercase(name_or_empty(name_view(items.drop_last()[k].name))), query);
        assert(items[k] == items.drop_last()[k]);
    } else {
        let k = items.len() - 1;
        assert(items[k] == items.last());
    }
}

/// The matches of several folders include those of each folder.
proof fn lemma_all_local_matches_complete(
    listings: Seq<Vec<DirItem>>,
    query: Seq<char>,
    j: int,
    k: int,
)
    requires
        0 <= j < listings.len(),
        0 <= k < listings[j]@.len(),
        contains_seq(lowercase(name_or_empty(name_view(listings[j]@[k].name))), query),
    ensures
        all_local_matches(listings, query).contains(listings[j]@[k].path@),
    decreases listings.len(),
{
    let front = all_local_matches(listings.drop_last(), query);
    let last = local_matches(listings.last()@, query);
    assert(all_local_matches(listings, query) == front + last);
    if j == listings.len() - 1 {
        lemma_local_matches_complete(listings.last()@, query, k);
        let i = choose|i: int| 0 <= i < last.len() && last[i] == listings[j]@[k].path@;
        assert((front + last)[front.len() + i] == last[i]);
    } else {
        assert(listings.drop_last()[j] == listings[j]);
        lemma_all_local_matches_complete(listings.drop_last(), query, j, k);
        let i = choose|i: int| 0 <= i < front.len() && front[i] == listings[j]@[k].path@;
        assert((front + last)[i] == front[i]);
    }
}

/// Every match of several folders is the path of an entry of one of them
/// whose lowercased name contains the query.
proof fn lemma_all_local_matches_sound(listings: Seq<Vec<DirItem>>, query: Seq<char>, m: int)
    requires
        0 <= m < all_local_matches(listings, query).len(),
    ensures
        exists|j: int, k: int|
            0 <= j < listings.len() && 0 <= k < listings[j]@.len() && (#[trigger] listings[j]@[k]).path@
                == all_local_matches(listings, query)[m] && contains_seq(
                lowercase(name_or_empty(name_view(listings[j]@[k].name))),
                query,
            ),
    decreases listings.len(),
{
    let front = all_local_matches(listings.drop_last(), query);
    let last = local_matches(listings.last()@, query);
    assert(all_local_matches(listings, query) == front + last);
    if m < front.len() {
        lemma_all_local_matches_sound(listings.drop_last(), query, m);
        let (j, k) = choose|j: int, k: int|
            0 <= j < listings.drop_last().len() && 0 <= k < listings.drop_last()[j]@.len()
                && (#[trigger] listings.drop_last()[j]@[k]).path@ == front[m] && contains_seq(
                lowercase(name_or_empty(name_view(listings.drop_last()[j]@[k].name))),
                query,
            );
        assert(listings[j] == listings.drop_last()[j]);
        assert((front + last)[m] == front[m]);
    } else {
        lemma_local_matches_sound(listings.last()@, query, m - front.len());
        let j = listings.len() - 1;
        let k = choose|k: int|
            0 <= k < listings.last()@.len() && (#[trigger] listings.last()@[k]).path@ == last[m
                - front.len()] && contains_seq(
                lowercase(name_or_empty(name_view(listings.last()@[k].name))),
                query,
            );
        assert(listings[j] == listings.last());
        assert((front + last)[m] == last[m - front.len()]);
    }
}

/// Adding paths keeps what was found, in front, and ends with each added
/// path, or one that is the same path.
proof fn lemma_add_all_keeps(found: Seq<Seq<char>>, paths: Seq<Seq<char>>)
    ensures
        add_all(found, paths).len() >= found.len(),
        forall|i: int| 0 <= i < found.len() ==> #[trigger] add_all(found, paths)[i] == found[i],
        forall|i: int| 0 <= i < paths.len() ==> has_same_path(add_all(found, paths), #[trigger] paths[i]),
    decreases paths.len(),
{
    if paths.len() > 0 {
        let front = paths.drop_last();
        lemma_add_all_keeps(found, front);
        let f = add_all(found, front);
        let r = add_all(found, paths);
        assert forall|i: int| 0 <= i < paths.len() implies has_same_path(r, #[trigger] paths[i]) by {
            if i < front.len() {
                assert(front[i] == paths[i]);
                assert(has_same_path(f, front[i]));
                let w = choose|w: int| 0 <= w < f.len() && paths_equal(#[trigger] f[w], front[i]);
                assert(r[w] == f[w]);
            } else if !has_same_path(f, paths.last()) {
                assert(r[f.len() as int] == paths.last());
                assert(paths_equal(r[f.len() as int], paths[i]));
            }
        }
    }
}

/// Adding paths puts in nothing but what was found and the added paths.
proof fn lemma_add_all_from(found: Seq<Seq<char>>, paths: Seq<Seq<char>>, m: int)
    requires
        0 <= m < add_all(found, paths).len(),
    ensures
        (exists|i: int| 0 <= i < found.len() && #[trigger] found[i] == add_all(found, paths)[m]) || (
        exists|i: int| 0 <= i < paths.len() && #[trigger] paths[i] == add_all(found, paths)[m]),
    decreases paths.len(),
{
    if paths.len() > 0 {
        let front = paths.drop_last();
        let f = add_all(found, front);
        if m < f.len() {
            lemma_add_all_from(found, front, m);
            assert(add_all(found, paths)[m] == f[m]);
            if exists|i: int| 0 <= i < front.len() && #[trigger] front[i] == f[m] {
                let i = choose|i: int| 0 <= i < front.len() && #[trigger] front[i] == f[m];
                assert(paths[i] == front[i]);
            }
        } else {
            assert(!has_same_path(f, paths.last()));
            assert(add_all(found, paths) == f.push(paths.last()));
            assert(paths[paths.len() - 1] == add_all(found, paths)[m]);
        }
    } else {
        assert(found[m] == add_all(found, paths)[m]);
    }
}

/// `p` is a located path, or the path of an entry of a searched folder
/// whose lowercased name contains the query.
pub open spec fn gathered_from(
    listings: Seq<Vec<DirItem>>,
    located: Seq<Seq<char>>,
    query: Seq<char>,
    p: Seq<char>,
) -> bool {
    (exists|i: int| 0 <= i < located.len() && #[trigger] located[i] == p) || (exists|j: int, k: int|
        0 <= j < listings.len() && 0 <= k < listings[j]@.len() && (#[trigger] listings[j]@[k]).path@ == p
            && contains_seq(lowercase(name_or_empty(name_view(listings[j]@[k].name))), query))
}

/// What the wide search collects: every entry of a searched folder whose
/// lowercased name contains the query anywhere, and every located path,
/// is there, or a path that is the same path; and everything there is one
/// of those.
pub proof fn lemma_gathered_paths(
    listings: Seq<Vec<DirItem>>,
    located: Seq<Seq<char>>,
    query: Seq<char>,
)
    ensures
        ({
            let r = add_all(Seq::empty(), all_local_matches(listings, query) + located);
            &&& forall|j: int, k: int|
                0 <= j < listings.len() && 0 <= k < listings[j]@.len() && contains_seq(
                    lowercase(name_or_empty(name_view((#[trigger] listings[j]@[k]).name))),
                    query,
                ) ==> has_same_path(r, listings[j]@[k].path@)
            &&& forall|i: int| 0 <= i < located.len() ==> has_same_path(r, #[trigger] located[i])
            &&& forall|m: int| 0 <= m < r.len() ==> gathered_from(listings, located, query, #[trigger] r[m])
        }),
{
    let lm = all_local_matches(listings, query);
    let all = lm + located;
    let r = add_all(Seq::empty(), all);
    lemma_add_all_keeps(Seq::empty(), all);
    assert forall|j: int, k: int|
        0 <= j < listings.len() && 0 <= k < listings[j]@.len() && contains_seq(
            lowercase(name_or_empty(name_view((#[trigger] listings[j]@[k]).name))),
            query,
        ) implies has_same_path(r, listings[j]@[k].path@) by {
        lemma_all_local_matches_complete(listings, query, j, k);
        let i = choose|i: int| 0 <= i < lm.len() && lm[i] == listings[j]@[k].path@;
        assert(all[i] == lm[i]);
    }
    assert forall|i: int| 0 <= i < located.len() implies has_same_path(r, #[trigger] located[i]) by {
        assert(all[lm.len() + i] == located[i]);
    }
    assert forall|m: int| 0 <= m < r.len() implies gathered_from(listings, located, query, #[trigger] r[m]) by {
        lemma_add_all_from(Seq::empty(), all, m);
        let i = choose|i: int| 0 <= i < all.len() && #[trigger] all[i] == r[m];
        if i < lm.len() {
            assert(all[i] == lm[i]);
            lemma_all_local_matches_sound(listings, query, i);
        } else {
            assert(all[i] == located[i - lm.len()]);
        }
    }
}

/// Adds, from the entries of one searched folder, the paths whose names
/// contain the lowercased `query`, leaving out those already found.
pub fn add_local_matches(found: &mut Vec<String>, items: &Vec<DirItem>, query: &str)
    ensures
        views(final(found)@) == add_all(views(old(found)@), local_matches(items@, query@)),
        forall|k: int|
            0 <= k < items@.len() && contains_seq(
                lowercase(name_or_empty(name_view((#[trigger] items@[k]).name))),
                query@,
            ) ==> has_same_path(views(final(found)@), items@[k].path@),
{
    proof {
        lemma_add_all_keeps(views(found@), local_matches(items@, query@));
        assert forall|k: int|
            0 <= k < items@.len() && contains_seq(
                lowercase(name_or_empty(name_view((#[trigger] items@[k]).name))),
                query@,
            ) implies has_same_path(
            add_all(views(found@), local_matches(items@, query@)),
            items@[k].path@,
        ) by {
            lemma_local_matches_complete(items@, query@, k);
        }
    }
    let ghost start = views(found@);
    let ghost all = items@;
    let q = chars_of(query);
    let mut k: usize = 0;
    assert(all.take(0) =~= Seq::<DirItem>::empty());
    while k < items.len()
        invariant
            k <= items.len(),
            all == items@,
            q@ == query@,
            views(found@) == add_all(start, local_matches(all.take(k as int), query@)),
        decreases items.len() - k,
    {
        let item = &items[k];
        let ghost prev = local_matches(all.take(k as int), query@);
        assert(all.take(k + 1).drop_last() =~= all.take(k as int));
        let name: Vec<char> = match &item.name {
            Some(n) => chars_of(n.as_str()),
            None => Vec::new(),
        };
        let name_s = string_from_chars(&name);
        assert(name_s@ == name_or_empty(name_view(item.name)));
        let lower = to_lowercase(name_s.as_str());
        if contains_chars(&chars_of(lower.as_str()), &q) {
            assert(local_matches(all.take(k + 1), query@) == prev.push(item.path@));
            add_unseen(found, item.path.clone());
            proof {
                lemma_add_all_append(start, prev, seq![item.path@]);
                assert(prev + seq![item.path@] =~= prev.push(item.path@));
            }
        } else {
            assert(local_matches(all.take(k + 1), query@) == prev);
        }
        k = k + 1;
    }
    assert(all.take(items.len() as int) =~= all);
}

/// The paths a search from the file list collects, from the entries of
/// the folders it read first (`listings`, in order) and the paths a locate
/// tool printed (`located`): the local matches of the lowercased `query`
/// folder after folder, then the located paths, each path once.
pub fn gather_search_paths(listings: &Vec<Vec<DirItem>>, located: &Vec<String>, query: &str) -> (r: Vec<
    String,
>)
    ensures
        views(r@) == add_all(Seq::empty(), all_local_matches(listings@, query@) + views(located@)),
        distinct_paths(views(r@)),
        forall|j: int, k: int|
            0 <= j < listings@.len() && 0 <= k < listings@[j]@.len() && contains_seq(
                lowercase(name_or_empty(name_view((#[trigger] listings@[j]@[k]).name))),
                query@,
            ) ==> has_same_path(views(r@), listings@[j]@[k].path@),
        forall|i: int| 0 <= i < located@.len() ==> has_same_path(views(r@), #[trigger] located@[i]@),
        forall|m: int| 0 <= m < r@.len() ==> gathered_from(listings@, views(located@), query@, #[trigger] views(r@)[m]),
{
    let mut found: Vec<String> = Vec::new();
    let ghost ls = listings@;
    let mut k: usize = 0;
    assert(ls.take(0) =~= Seq::<Vec<DirItem>>::empty());
    assert(views(found@) =~= add_all(Seq::empty(), Seq::empty()));
    while k < listings.len()
        invariant
            k <= listings.len(),
            ls == listings@,
            views(found@) == add_all(Seq::empty(), all_local_matches(ls.take(k as int), query@)),
        decreases listings.len() - k,
    {
        let ghost before = all_local_matches(ls.take(k as int), query@);
        add_local_matches(&mut found, &listings[k], query);
        proof {
            assert(ls.take(k + 1).drop_last() =~= ls.take(k as int));
            assert(ls.take(k + 1).last() == ls[k as int]);
            lemma_add_all_append(Seq::empty(), before, local_matches(ls[k as int]@, query@));
        }
        k = k + 1;
    }
    assert(ls.take(listings.len() as int) =~= ls);
    let ghost local = all_local_matches(ls, query@);
    let ghost lv = views(located@);
    let mut j: usize = 0;
    assert(local + lv.take(0) =~= local);
    while j < located.len()
        invariant
            j <= located.len(),
            lv == views(located@),
            views(found@) == add_all(Seq::empty(), local + lv.take(j as int)),
        decreases located.len() - j,
    {
        let ghost before = local + lv.take(j as int);
        add_unseen(&mut found, located[j].clone());
        proof {
            lemma_add_all_append(Seq::empty(), before, seq![lv[j as int]]);
            assert(before + seq![lv[j as int]] =~= local + lv.take(j + 1));
        }
        j = j + 1;
    }
    assert(lv.take(located.len() as int) =~= lv);
    proof {
        lemma_add_all_distinct(Seq::empty(), local + lv);
        lemma_gathered_paths(listings@, lv, query@);
        assert forall|i: int| 0 <= i < located@.len() implies has_same_path(
            views(found@),
            #[trigger] located@[i]@,
        ) by {
            assert(lv[i] == located@[i]@);
        }
    }
    found
}

/// The paths a locate tool printed, one per line.
pub fn output_paths(output: &str) -> (r: Vec<String>)
    ensures
        views(r@) == lines_of(output@),
{
    let lines = split_lines(&chars_of(output));
    let ghost lv = lines@.map_values(|l: Vec<char>| l@);
    let mut r: Vec<String> = Vec::new();
    let mut i: usize = 0;
    while i < lines.len()
        invariant
            i <= lines.len(),
            lv == lines@.map_values(|l: Vec<char>| l@),
            lv == lines_of(output@),
            views(r@) == lv.take(i as int),
        decreases lines.len() - i,
    {
        let ghost before = r@;
        let line = string_from_chars(&lines[i]);
        assert(line@ == lv[i as int]);
        r.push(line);
        assert(views(r@) =~= views(before).push(line@));
        assert(views(r@) =~= lv.take(i + 1));
        i = i + 1;
    }
    assert(lv.take(lines.len() as int) =~= lv);
    r
}

// ---------------------------------------------------------------------------
// The search panel
// ---------------------------------------------------------------------------

/// The note the search panel shows above its results.
pub enum PanelNote {
    /// A search is running.
    Searching,
    /// The search for this query found nothing: "No results for “query”.".
    NoResults(String),
    /// No note.
    Quiet,
}

/// The results of the search panel and whether a search is running.
pub struct SearchPanel {
    pub results: Vec<FileEntry>,
    pub searching: bool,
}

/// The note of the search panel for the query typed.
pub open spec fn panel_note_spec(searching: bool, query: Seq<char>, found: nat) -> Option<Seq<char>> {
    if searching {
        None
    } else if query.len() > 0 && found == 0 {
        Some("No results for \u{201c}"@ + query + "\u{201d}."@)
    } else {
        None
    }
}

/// How many results the panel lists at most.
pub open spec fn panel_rows() -> nat {
    50
}

impl SearchPanel {
    /// An empty panel.
    pub fn new() -> (r: SearchPanel)
        ensures
            r.results@.len() == 0,
            !r.searching,
    {
        SearchPanel { results: Vec::new(), searching: false }
    }

    /// The query is now `text`: an empty query clears the results; another
    /// starts a search (whose results come to `finished`). Tells whether to
    /// start one.
    pub fn query_changed(&mut self, text: &str) -> (start: bool)
        ensures
            start == (text@.len() > 0),
            text@.len() == 0 ==> final(self).results@.len() == 0 && !final(self).searching,
            text@.len() > 0 ==> final(self).results == old(self).results && final(self).searching,
    {
        if chars_of(text).len() == 0 {
            self.results = Vec::new();
            self.searching = false;
            false
        } else {
            self.searching = true;
            true
        }
    }

    /// A search is over with these results.
    pub fn finished(&mut self, results: Vec<FileEntry>)
        ensures
            final(self).results == results,
            !final(self).searching,
    {
        self.results = results;
        self.searching = false;
    }

    /// The note shown for the query typed.
    pub fn note(&self, query: &str) -> (r: PanelNote)
        ensures
            self.searching ==> r is Searching,
            !self.searching ==> match panel_note_spec(false, query@, self.results@.len()) {
                Some(m) => r matches PanelNote::NoResults(t) && t@ == m,
                None => r is Quiet,
            },
    {
        if self.searching {
            return PanelNote::Searching;
        }
        if chars_of(query).len() > 0 && self.results.len() == 0 {
            let mut v: Vec<char> = Vec::new();
            push_str(&mut v, "No results for \u{201c}");
            push_str(&mut v, query);
            push_str(&mut v, "\u{201d}.");
            PanelNote::NoResults(string_from_chars(&v))
        } else {
            PanelNote::Quiet
        }
    }

    /// How many results are listed: the first 50 at most.
    pub fn shown(&self) -> (r: usize)
        ensures
            r == if self.results@.len() < panel_rows() {
                self.results@.len() as int
            } else {
                panel_rows() as int
            },
    {
        if self.results.len() < 50 {
            self.results.len()
        } else {
            50
        }
    }
}

} // verus!
